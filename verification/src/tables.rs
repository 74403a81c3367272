//! The long-form rows of every timing table or `internal_power` table of a
//! document that a query selects, in document order: per cell, its pins,
//! then its buses (each bus's own arcs, then its pins), then its bundles.
use vstd::prelude::*;
use crate::text::string_of;
use crate::data::{
    Text, Document, CellData, PinData, BusData, BundleData, TimingArcData, InternalPowerData,
    TimingTableData, SpecCell, SpecPin, SpecBus, SpecBundle, SpecArc, SpecPower, SpecTable, cells,
    pins, buses, bundles, arcs, powers, tables, clone_opt,
};
use crate::boolexpr::SpecBool;
use crate::query::{
    when_matches, spec_matches_opt, WhenFilter, when_query, opt_str, spec_matches, matches_opt, matches_opt_opt, arc_selected,
    power_selected, spec_when_filter,
};
use crate::rows::{TableRow, RowKeys, SpecKeys, SpecRow, row_views, spec_table_rows, append_table_rows};

verus! {

/// The filters of a table query; `timing_type` applies to timing arcs and
/// `related_pg_pin` to `internal_power` groups.
pub struct SpecQuery {
    pub cell: Option<Text>,
    pub pin: Option<Text>,
    pub related_pin: Option<Text>,
    pub timing_type: Option<Text>,
    pub related_pg_pin: Option<Text>,
    pub when: Option<SpecBool>,
    pub table: Option<Text>,
}

pub struct TableQuery<'a> {
    pub cell: Option<&'a str>,
    pub pin: Option<&'a str>,
    pub related_pin: Option<&'a str>,
    pub timing_type: Option<&'a str>,
    pub related_pg_pin: Option<&'a str>,
    pub when: WhenFilter,
    pub table: Option<&'a str>,
}

impl<'a> View for TableQuery<'a> {
    type V = SpecQuery;

    open spec fn view(&self) -> SpecQuery {
        SpecQuery {
            cell: opt_str(self.cell),
            pin: opt_str(self.pin),
            related_pin: opt_str(self.related_pin),
            timing_type: opt_str(self.timing_type),
            related_pg_pin: opt_str(self.related_pg_pin),
            when: when_query(self.when.query),
            table: opt_str(self.table),
        }
    }
}

/// The keys of the rows of a timing arc's tables.
pub open spec fn arc_keys(cell: Text, pin: Text, a: SpecArc) -> SpecKeys {
    SpecKeys {
        cell,
        pin,
        related_pin: a.related_pin,
        timing_type: a.timing_type,
        related_pg_pin: None,
        when: a.when,
    }
}

/// The keys of the rows of an `internal_power` group's tables.
pub open spec fn power_keys(cell: Text, pin: Text, g: SpecPower) -> SpecKeys {
    SpecKeys {
        cell,
        pin,
        related_pin: g.related_pin,
        timing_type: None,
        related_pg_pin: g.related_pg_pin,
        when: g.when,
    }
}

/// The rows of the tables in `s` whose name the query allows.
pub open spec fn tables_rows(k: SpecKeys, s: Seq<SpecTable>, q: SpecQuery) -> Seq<SpecRow>
    decreases s.len(),
{
    if s.len() == 0 {
        Seq::empty()
    } else {
        let x = s.last();
        tables_rows(k, s.drop_last(), q) + (if spec_matches(q.table, x.name) {
            spec_table_rows(k, x)
        } else {
            Seq::empty()
        })
    }
}

/// The rows of the selected arcs in `s` of pin `pin`.
pub open spec fn arcs_rows(cell: Text, pin: Text, s: Seq<SpecArc>, q: SpecQuery) -> Seq<SpecRow>
    decreases s.len(),
{
    if s.len() == 0 {
        Seq::empty()
    } else {
        let x = s.last();
        arcs_rows(cell, pin, s.drop_last(), q) + (if arc_selected(q.related_pin, q.timing_type, q.when, x) {
            tables_rows(arc_keys(cell, pin, x), x.tables, q)
        } else {
            Seq::empty()
        })
    }
}

/// The timing rows of the pins in `s` whose name the query allows.
pub open spec fn pins_rows(cell: Text, s: Seq<SpecPin>, q: SpecQuery) -> Seq<SpecRow>
    decreases s.len(),
{
    if s.len() == 0 {
        Seq::empty()
    } else {
        let x = s.last();
        pins_rows(cell, s.drop_last(), q) + (if spec_matches(q.pin, x.name) {
            arcs_rows(cell, x.name, x.timing_arcs, q)
        } else {
            Seq::empty()
        })
    }
}

/// The timing rows of the buses in `s`: each bus's own arcs when its name is allowed, then its pins.
pub open spec fn buses_rows(cell: Text, s: Seq<SpecBus>, q: SpecQuery) -> Seq<SpecRow>
    decreases s.len(),
{
    if s.len() == 0 {
        Seq::empty()
    } else {
        let x = s.last();
        buses_rows(cell, s.drop_last(), q) + ((if spec_matches(q.pin, x.name) {
            arcs_rows(cell, x.name, x.timing_arcs, q)
        } else {
            Seq::empty()
        }) + pins_rows(cell, x.pins, q))
    }
}

/// The timing rows of the bundles in `s`: each bundle's own arcs when its name is allowed, then its pins.
pub open spec fn bundles_rows(cell: Text, s: Seq<SpecBundle>, q: SpecQuery) -> Seq<SpecRow>
    decreases s.len(),
{
    if s.len() == 0 {
        Seq::empty()
    } else {
        let x = s.last();
        bundles_rows(cell, s.drop_last(), q) + ((if spec_matches(q.pin, x.name) {
            arcs_rows(cell, x.name, x.timing_arcs, q)
        } else {
            Seq::empty()
        }) + pins_rows(cell, x.pins, q))
    }
}

/// The timing rows of the cells in `s` whose name the query allows.
pub open spec fn timing_rows(s: Seq<SpecCell>, q: SpecQuery) -> Seq<SpecRow>
    decreases s.len(),
{
    if s.len() == 0 {
        Seq::empty()
    } else {
        let x = s.last();
        timing_rows(s.drop_last(), q) + (if spec_matches(q.cell, x.name) {
            pins_rows(x.name, x.pins, q) + buses_rows(x.name, x.buses, q) + bundles_rows(x.name, x.bundles, q)
        } else {
            Seq::empty()
        })
    }
}

/// The rows of the selected `internal_power` groups in `s` of pin `pin`.
pub open spec fn powers_rows(cell: Text, pin: Text, s: Seq<SpecPower>, q: SpecQuery) -> Seq<SpecRow>
    decreases s.len(),
{
    if s.len() == 0 {
        Seq::empty()
    } else {
        let x = s.last();
        powers_rows(cell, pin, s.drop_last(), q) + (if power_selected(q.related_pin, q.related_pg_pin, q.when, x) {
            tables_rows(power_keys(cell, pin, x), x.tables, q)
        } else {
            Seq::empty()
        })
    }
}

/// The power rows of the pins in `s` whose name the query allows.
pub open spec fn power_pins_rows(cell: Text, s: Seq<SpecPin>, q: SpecQuery) -> Seq<SpecRow>
    decreases s.len(),
{
    if s.len() == 0 {
        Seq::empty()
    } else {
        let x = s.last();
        power_pins_rows(cell, s.drop_last(), q) + (if spec_matches(q.pin, x.name) {
            powers_rows(cell, x.name, x.internal_powers, q)
        } else {
            Seq::empty()
        })
    }
}

/// The power rows of the pins of the buses in `s`.
pub open spec fn power_buses_rows(cell: Text, s: Seq<SpecBus>, q: SpecQuery) -> Seq<SpecRow>
    decreases s.len(),
{
    if s.len() == 0 {
        Seq::empty()
    } else {
        let x = s.last();
        power_buses_rows(cell, s.drop_last(), q) + (power_pins_rows(cell, x.pins, q))
    }
}

/// The power rows of the pins of the bundles in `s`.
pub open spec fn power_bundles_rows(cell: Text, s: Seq<SpecBundle>, q: SpecQuery) -> Seq<SpecRow>
    decreases s.len(),
{
    if s.len() == 0 {
        Seq::empty()
    } else {
        let x = s.last();
        power_bundles_rows(cell, s.drop_last(), q) + (power_pins_rows(cell, x.pins, q))
    }
}

/// The power rows of the cells in `s` whose name the query allows: their pins, then the pins of their buses, then those of their bundles.
pub open spec fn power_rows(s: Seq<SpecCell>, q: SpecQuery) -> Seq<SpecRow>
    decreases s.len(),
{
    if s.len() == 0 {
        Seq::empty()
    } else {
        let x = s.last();
        power_rows(s.drop_last(), q) + (if spec_matches(q.cell, x.name) {
            power_pins_rows(x.name, x.pins, q) + power_buses_rows(x.name, x.buses, q)
                + power_bundles_rows(x.name, x.bundles, q)
        } else {
            Seq::empty()
        })
    }
}

fn append_tables_rows(keys: &RowKeys, items: &Vec<TimingTableData>, q: &TableQuery, rows: &mut Vec<TableRow>)
    ensures
        row_views(final(rows)@) == row_views(old(rows)@) + tables_rows(keys@, tables(items@), q@),
{
    let ghost r0 = row_views(rows@);
    let ghost all = tables(items@);
    let mut k: usize = 0;
    assert(r0 + tables_rows(keys@, all.take(0), q@) =~= r0);
    while k < items.len()
        invariant
            k <= items@.len(),
            all == tables(items@),
            row_views(rows@) == r0 + tables_rows(keys@, all.take(k as int), q@),
        decreases items@.len() - k,
    {
        let it = &items[k];
        proof {
            let t = all.take(k + 1);
            assert(t.drop_last() =~= all.take(k as int));
            assert(t.last() == it@);
        }
        if matches_opt(q.table, it.name.as_str()) {
            append_table_rows(keys, it, rows);
        }
        proof {
            assert(row_views(rows@) =~= r0 + tables_rows(keys@, all.take(k + 1), q@));
        }
        k = k + 1;
    }
    assert(all.take(k as int) =~= all);
}

fn append_arcs_rows(cell: &str, pin: &str, items: &Vec<TimingArcData>, q: &TableQuery, rows: &mut Vec<TableRow>)
    ensures
        row_views(final(rows)@) == row_views(old(rows)@) + arcs_rows(cell@, pin@, arcs(items@), q@),
{
    let ghost r0 = row_views(rows@);
    let ghost all = arcs(items@);
    let mut k: usize = 0;
    assert(r0 + arcs_rows(cell@, pin@, all.take(0), q@) =~= r0);
    while k < items.len()
        invariant
            k <= items@.len(),
            all == arcs(items@),
            row_views(rows@) == r0 + arcs_rows(cell@, pin@, all.take(k as int), q@),
        decreases items@.len() - k,
    {
        let it = &items[k];
        proof {
            let t = all.take(k + 1);
            assert(t.drop_last() =~= all.take(k as int));
            assert(t.last() == it@);
        }
        if matches_opt_opt(q.related_pin, &it.related_pin) && matches_opt_opt(q.timing_type, &it.timing_type)
            && q.when.matches(&it.when) {
            let keys = RowKeys {
                cell: string_of(cell),
                pin: string_of(pin),
                related_pin: clone_opt(&it.related_pin),
                timing_type: clone_opt(&it.timing_type),
                related_pg_pin: None,
                when: clone_opt(&it.when),
            };
            append_tables_rows(&keys, &it.tables, q, rows);
        }
        proof {
            assert(row_views(rows@) =~= r0 + arcs_rows(cell@, pin@, all.take(k + 1), q@));
        }
        k = k + 1;
    }
    assert(all.take(k as int) =~= all);
}

fn append_pins_rows(cell: &str, items: &Vec<PinData>, q: &TableQuery, rows: &mut Vec<TableRow>)
    ensures
        row_views(final(rows)@) == row_views(old(rows)@) + pins_rows(cell@, pins(items@), q@),
{
    let ghost r0 = row_views(rows@);
    let ghost all = pins(items@);
    let mut k: usize = 0;
    assert(r0 + pins_rows(cell@, all.take(0), q@) =~= r0);
    while k < items.len()
        invariant
            k <= items@.len(),
            all == pins(items@),
            row_views(rows@) == r0 + pins_rows(cell@, all.take(k as int), q@),
        decreases items@.len() - k,
    {
        let it = &items[k];
        proof {
            let t = all.take(k + 1);
            assert(t.drop_last() =~= all.take(k as int));
            assert(t.last() == it@);
        }
        if matches_opt(q.pin, it.name.as_str()) {
            append_arcs_rows(cell, it.name.as_str(), &it.timing_arcs, q, rows);
        }
        proof {
            assert(row_views(rows@) =~= r0 + pins_rows(cell@, all.take(k + 1), q@));
        }
        k = k + 1;
    }
    assert(all.take(k as int) =~= all);
}

fn append_buses_rows(cell: &str, items: &Vec<BusData>, q: &TableQuery, rows: &mut Vec<TableRow>)
    ensures
        row_views(final(rows)@) == row_views(old(rows)@) + buses_rows(cell@, buses(items@), q@),
{
    let ghost r0 = row_views(rows@);
    let ghost all = buses(items@);
    let mut k: usize = 0;
    assert(r0 + buses_rows(cell@, all.take(0), q@) =~= r0);
    while k < items.len()
        invariant
            k <= items@.len(),
            all == buses(items@),
            row_views(rows@) == r0 + buses_rows(cell@, all.take(k as int), q@),
        decreases items@.len() - k,
    {
        let it = &items[k];
        proof {
            let t = all.take(k + 1);
            assert(t.drop_last() =~= all.take(k as int));
            assert(t.last() == it@);
        }
        if matches_opt(q.pin, it.name.as_str()) {
            append_arcs_rows(cell, it.name.as_str(), &it.timing_arcs, q, rows);
        }
        append_pins_rows(cell, &it.pins, q, rows);
        proof {
            assert(row_views(rows@) =~= r0 + buses_rows(cell@, all.take(k + 1), q@));
        }
        k = k + 1;
    }
    assert(all.take(k as int) =~= all);
}

fn append_bundles_rows(cell: &str, items: &Vec<BundleData>, q: &TableQuery, rows: &mut Vec<TableRow>)
    ensures
        row_views(final(rows)@) == row_views(old(rows)@) + bundles_rows(cell@, bundles(items@), q@),
{
    let ghost r0 = row_views(rows@);
    let ghost all = bundles(items@);
    let mut k: usize = 0;
    assert(r0 + bundles_rows(cell@, all.take(0), q@) =~= r0);
    while k < items.len()
        invariant
            k <= items@.len(),
            all == bundles(items@),
            row_views(rows@) == r0 + bundles_rows(cell@, all.take(k as int), q@),
        decreases items@.len() - k,
    {
        let it = &items[k];
        proof {
            let t = all.take(k + 1);
            assert(t.drop_last() =~= all.take(k as int));
            assert(t.last() == it@);
        }
        if matches_opt(q.pin, it.name.as_str()) {
            append_arcs_rows(cell, it.name.as_str(), &it.timing_arcs, q, rows);
        }
        append_pins_rows(cell, &it.pins, q, rows);
        proof {
            assert(row_views(rows@) =~= r0 + bundles_rows(cell@, all.take(k + 1), q@));
        }
        k = k + 1;
    }
    assert(all.take(k as int) =~= all);
}

fn append_timing_rows(items: &Vec<CellData>, q: &TableQuery, rows: &mut Vec<TableRow>)
    ensures
        row_views(final(rows)@) == row_views(old(rows)@) + timing_rows(cells(items@), q@),
{
    let ghost r0 = row_views(rows@);
    let ghost all = cells(items@);
    let mut k: usize = 0;
    assert(r0 + timing_rows(all.take(0), q@) =~= r0);
    while k < items.len()
        invariant
            k <= items@.len(),
            all == cells(items@),
            row_views(rows@) == r0 + timing_rows(all.take(k as int), q@),
        decreases items@.len() - k,
    {
        let it = &items[k];
        proof {
            let t = all.take(k + 1);
            assert(t.drop_last() =~= all.take(k as int));
            assert(t.last() == it@);
        }
        if matches_opt(q.cell, it.name.as_str()) {
            append_pins_rows(it.name.as_str(), &it.pins, q, rows);
            append_buses_rows(it.name.as_str(), &it.buses, q, rows);
            append_bundles_rows(it.name.as_str(), &it.bundles, q, rows);
        }
        proof {
            assert(row_views(rows@) =~= r0 + timing_rows(all.take(k + 1), q@));
        }
        k = k + 1;
    }
    assert(all.take(k as int) =~= all);
}

fn append_powers_rows(cell: &str, pin: &str, items: &Vec<InternalPowerData>, q: &TableQuery, rows: &mut Vec<TableRow>)
    ensures
        row_views(final(rows)@) == row_views(old(rows)@) + powers_rows(cell@, pin@, powers(items@), q@),
{
    let ghost r0 = row_views(rows@);
    let ghost all = powers(items@);
    let mut k: usize = 0;
    assert(r0 + powers_rows(cell@, pin@, all.take(0), q@) =~= r0);
    while k < items.len()
        invariant
            k <= items@.len(),
            all == powers(items@),
            row_views(rows@) == r0 + powers_rows(cell@, pin@, all.take(k as int), q@),
        decreases items@.len() - k,
    {
        let it = &items[k];
        proof {
            let t = all.take(k + 1);
            assert(t.drop_last() =~= all.take(k as int));
            assert(t.last() == it@);
        }
        if matches_opt_opt(q.related_pin, &it.related_pin) && matches_opt_opt(q.related_pg_pin, &it.related_pg_pin)
            && q.when.matches(&it.when) {
            let keys = RowKeys {
                cell: string_of(cell),
                pin: string_of(pin),
                related_pin: clone_opt(&it.related_pin),
                timing_type: None,
                related_pg_pin: clone_opt(&it.related_pg_pin),
                when: clone_opt(&it.when),
            };
            append_tables_rows(&keys, &it.tables, q, rows);
        }
        proof {
            assert(row_views(rows@) =~= r0 + powers_rows(cell@, pin@, all.take(k + 1), q@));
        }
        k = k + 1;
    }
    assert(all.take(k as int) =~= all);
}

fn append_power_pins_rows(cell: &str, items: &Vec<PinData>, q: &TableQuery, rows: &mut Vec<TableRow>)
    ensures
        row_views(final(rows)@) == row_views(old(rows)@) + power_pins_rows(cell@, pins(items@), q@),
{
    let ghost r0 = row_views(rows@);
    let ghost all = pins(items@);
    let mut k: usize = 0;
    assert(r0 + power_pins_rows(cell@, all.take(0), q@) =~= r0);
    while k < items.len()
        invariant
            k <= items@.len(),
            all == pins(items@),
            row_views(rows@) == r0 + power_pins_rows(cell@, all.take(k as int), q@),
        decreases items@.len() - k,
    {
        let it = &items[k];
        proof {
            let t = all.take(k + 1);
            assert(t.drop_last() =~= all.take(k as int));
            assert(t.last() == it@);
        }
        if matches_opt(q.pin, it.name.as_str()) {
            append_powers_rows(cell, it.name.as_str(), &it.internal_powers, q, rows);
        }
        proof {
            assert(row_views(rows@) =~= r0 + power_pins_rows(cell@, all.take(k + 1), q@));
        }
        k = k + 1;
    }
    assert(all.take(k as int) =~= all);
}

fn append_power_buses_rows(cell: &str, items: &Vec<BusData>, q: &TableQuery, rows: &mut Vec<TableRow>)
    ensures
        row_views(final(rows)@) == row_views(old(rows)@) + power_buses_rows(cell@, buses(items@), q@),
{
    let ghost r0 = row_views(rows@);
    let ghost all = buses(items@);
    let mut k: usize = 0;
    assert(r0 + power_buses_rows(cell@, all.take(0), q@) =~= r0);
    while k < items.len()
        invariant
            k <= items@.len(),
            all == buses(items@),
            row_views(rows@) == r0 + power_buses_rows(cell@, all.take(k as int), q@),
        decreases items@.len() - k,
    {
        let it = &items[k];
        proof {
            let t = all.take(k + 1);
            assert(t.drop_last() =~= all.take(k as int));
            assert(t.last() == it@);
        }
        append_power_pins_rows(cell, &it.pins, q, rows);
        proof {
            assert(row_views(rows@) =~= r0 + power_buses_rows(cell@, all.take(k + 1), q@));
        }
        k = k + 1;
    }
    assert(all.take(k as int) =~= all);
}

fn append_power_bundles_rows(cell: &str, items: &Vec<BundleData>, q: &TableQuery, rows: &mut Vec<TableRow>)
    ensures
        row_views(final(rows)@) == row_views(old(rows)@) + power_bundles_rows(cell@, bundles(items@), q@),
{
    let ghost r0 = row_views(rows@);
    let ghost all = bundles(items@);
    let mut k: usize = 0;
    assert(r0 + power_bundles_rows(cell@, all.take(0), q@) =~= r0);
    while k < items.len()
        invariant
            k <= items@.len(),
            all == bundles(items@),
            row_views(rows@) == r0 + power_bundles_rows(cell@, all.take(k as int), q@),
        decreases items@.len() - k,
    {
        let it = &items[k];
        proof {
            let t = all.take(k + 1);
            assert(t.drop_last() =~= all.take(k as int));
            assert(t.last() == it@);
        }
        append_power_pins_rows(cell, &it.pins, q, rows);
        proof {
            assert(row_views(rows@) =~= r0 + power_bundles_rows(cell@, all.take(k + 1), q@));
        }
        k = k + 1;
    }
    assert(all.take(k as int) =~= all);
}

fn append_power_rows(items: &Vec<CellData>, q: &TableQuery, rows: &mut Vec<TableRow>)
    ensures
        row_views(final(rows)@) == row_views(old(rows)@) + power_rows(cells(items@), q@),
{
    let ghost r0 = row_views(rows@);
    let ghost all = cells(items@);
    let mut k: usize = 0;
    assert(r0 + power_rows(all.take(0), q@) =~= r0);
    while k < items.len()
        invariant
            k <= items@.len(),
            all == cells(items@),
            row_views(rows@) == r0 + power_rows(all.take(k as int), q@),
        decreases items@.len() - k,
    {
        let it = &items[k];
        proof {
            let t = all.take(k + 1);
            assert(t.drop_last() =~= all.take(k as int));
            assert(t.last() == it@);
        }
        if matches_opt(q.cell, it.name.as_str()) {
            append_power_pins_rows(it.name.as_str(), &it.pins, q, rows);
            append_power_buses_rows(it.name.as_str(), &it.buses, q, rows);
            append_power_bundles_rows(it.name.as_str(), &it.bundles, q, rows);
        }
        proof {
            assert(row_views(rows@) =~= r0 + power_rows(all.take(k + 1), q@));
        }
        k = k + 1;
    }
    assert(all.take(k as int) =~= all);
}

// ---- every row answers the query ----

/// A row that answers the query: each filter holds of it.
pub open spec fn row_ok(q: SpecQuery, r: SpecRow) -> bool {
    &&& spec_matches(q.cell, r.cell)
    &&& spec_matches(q.pin, r.pin)
    &&& spec_matches(q.table, r.table)
    &&& spec_matches_opt(q.related_pin, r.related_pin)
    &&& spec_matches_opt(q.timing_type, r.timing_type)
    &&& spec_matches_opt(q.related_pg_pin, r.related_pg_pin)
    &&& when_matches(q.when, r.when)
}

pub open spec fn rows_ok(q: SpecQuery, s: Seq<SpecRow>) -> bool {
    forall|i: int| 0 <= i < s.len() ==> row_ok(q, #[trigger] s[i])
}

/// Keys under which every row of a table the query allows answers it.
pub open spec fn keys_ok(q: SpecQuery, k: SpecKeys) -> bool {
    &&& spec_matches(q.cell, k.cell)
    &&& spec_matches(q.pin, k.pin)
    &&& spec_matches_opt(q.related_pin, k.related_pin)
    &&& spec_matches_opt(q.timing_type, k.timing_type)
    &&& spec_matches_opt(q.related_pg_pin, k.related_pg_pin)
    &&& when_matches(q.when, k.when)
}

proof fn lemma_rows_ok_concat(q: SpecQuery, a: Seq<SpecRow>, b: Seq<SpecRow>)
    requires
        rows_ok(q, a),
        rows_ok(q, b),
    ensures
        rows_ok(q, a + b),
{
    assert forall|i: int| 0 <= i < (a + b).len() implies row_ok(q, #[trigger] (a + b)[i]) by {
        if i < a.len() {
            assert((a + b)[i] == a[i]);
        } else {
            assert((a + b)[i] == b[i - a.len()]);
        }
    }
}

proof fn lemma_table_rows_ok(q: SpecQuery, k: SpecKeys, t: SpecTable)
    requires
        keys_ok(q, k),
        spec_matches(q.table, t.name),
    ensures
        rows_ok(q, spec_table_rows(k, t)),
{
}

proof fn lemma_tables_rows_ok(k: SpecKeys, s: Seq<SpecTable>, q: SpecQuery)
    requires
        keys_ok(q, k),
    ensures
        rows_ok(q, tables_rows(k, s, q)),
    decreases s.len(),
{
    if s.len() > 0 {
        let x = s.last();
        lemma_tables_rows_ok(k, s.drop_last(), q);
        if spec_matches(q.table, x.name) {
                lemma_table_rows_ok(q, k, x);
            }
        lemma_rows_ok_concat(
            q,
            tables_rows(k, s.drop_last(), q),
            if spec_matches(q.table, x.name) {
                spec_table_rows(k, x)
            } else {
                Seq::empty()
            },
        );
    }
}

proof fn lemma_arcs_rows_ok(cell: Text, pin: Text, s: Seq<SpecArc>, q: SpecQuery)
    requires
        spec_matches(q.cell, cell),
        spec_matches(q.pin, pin),
        q.related_pg_pin is None,
    ensures
        rows_ok(q, arcs_rows(cell, pin, s, q)),
    decreases s.len(),
{
    if s.len() > 0 {
        let x = s.last();
        lemma_arcs_rows_ok(cell, pin, s.drop_last(), q);
        if arc_selected(q.related_pin, q.timing_type, q.when, x) {
                lemma_tables_rows_ok(arc_keys(cell, pin, x), x.tables, q);
            }
        lemma_rows_ok_concat(
            q,
            arcs_rows(cell, pin, s.drop_last(), q),
            if arc_selected(q.related_pin, q.timing_type, q.when, x) {
                tables_rows(arc_keys(cell, pin, x), x.tables, q)
            } else {
                Seq::empty()
            },
        );
    }
}

proof fn lemma_pins_rows_ok(cell: Text, s: Seq<SpecPin>, q: SpecQuery)
    requires
        spec_matches(q.cell, cell),
        q.related_pg_pin is None,
    ensures
        rows_ok(q, pins_rows(cell, s, q)),
    decreases s.len(),
{
    if s.len() > 0 {
        let x = s.last();
        lemma_pins_rows_ok(cell, s.drop_last(), q);
        if spec_matches(q.pin, x.name) {
                lemma_arcs_rows_ok(cell, x.name, x.timing_arcs, q);
            }
        lemma_rows_ok_concat(
            q,
            pins_rows(cell, s.drop_last(), q),
            if spec_matches(q.pin, x.name) {
                arcs_rows(cell, x.name, x.timing_arcs, q)
            } else {
                Seq::empty()
            },
        );
    }
}

proof fn lemma_buses_rows_ok(cell: Text, s: Seq<SpecBus>, q: SpecQuery)
    requires
        spec_matches(q.cell, cell),
        q.related_pg_pin is None,
    ensures
        rows_ok(q, buses_rows(cell, s, q)),
    decreases s.len(),
{
    if s.len() > 0 {
        let x = s.last();
        lemma_buses_rows_ok(cell, s.drop_last(), q);
        if spec_matches(q.pin, x.name) {
                lemma_arcs_rows_ok(cell, x.name, x.timing_arcs, q);
            }
            lemma_pins_rows_ok(cell, x.pins, q);
            lemma_rows_ok_concat(
                q,
                if spec_matches(q.pin, x.name) {
                    arcs_rows(cell, x.name, x.timing_arcs, q)
                } else {
                    Seq::empty()
                },
                pins_rows(cell, x.pins, q),
            );
        lemma_rows_ok_concat(
            q,
            buses_rows(cell, s.drop_last(), q),
            (if spec_matches(q.pin, x.name) {
                arcs_rows(cell, x.name, x.timing_arcs, q)
            } else {
                Seq::empty()
            }) + pins_rows(cell, x.pins, q),
        );
    }
}

proof fn lemma_bundles_rows_ok(cell: Text, s: Seq<SpecBundle>, q: SpecQuery)
    requires
        spec_matches(q.cell, cell),
        q.related_pg_pin is None,
    ensures
        rows_ok(q, bundles_rows(cell, s, q)),
    decreases s.len(),
{
    if s.len() > 0 {
        let x = s.last();
        lemma_bundles_rows_ok(cell, s.drop_last(), q);
        if spec_matches(q.pin, x.name) {
                lemma_arcs_rows_ok(cell, x.name, x.timing_arcs, q);
            }
            lemma_pins_rows_ok(cell, x.pins, q);
            lemma_rows_ok_concat(
                q,
                if spec_matches(q.pin, x.name) {
                    arcs_rows(cell, x.name, x.timing_arcs, q)
                } else {
                    Seq::empty()
                },
                pins_rows(cell, x.pins, q),
            );
        lemma_rows_ok_concat(
            q,
            bundles_rows(cell, s.drop_last(), q),
            (if spec_matches(q.pin, x.name) {
                arcs_rows(cell, x.name, x.timing_arcs, q)
            } else {
                Seq::empty()
            }) + pins_rows(cell, x.pins, q),
        );
    }
}

proof fn lemma_timing_rows_ok(s: Seq<SpecCell>, q: SpecQuery)
    requires
        q.related_pg_pin is None,
    ensures
        rows_ok(q, timing_rows(s, q)),
    decreases s.len(),
{
    if s.len() > 0 {
        let x = s.last();
        lemma_timing_rows_ok(s.drop_last(), q);
        if spec_matches(q.cell, x.name) {
                lemma_pins_rows_ok(x.name, x.pins, q);
                lemma_buses_rows_ok(x.name, x.buses, q);
                lemma_bundles_rows_ok(x.name, x.bundles, q);
                lemma_rows_ok_concat(q, pins_rows(x.name, x.pins, q), buses_rows(x.name, x.buses, q));
                lemma_rows_ok_concat(
                    q,
                    pins_rows(x.name, x.pins, q) + buses_rows(x.name, x.buses, q),
                    bundles_rows(x.name, x.bundles, q),
                );
            }
        lemma_rows_ok_concat(
            q,
            timing_rows(s.drop_last(), q),
            if spec_matches(q.cell, x.name) {
                pins_rows(x.name, x.pins, q) + buses_rows(x.name, x.buses, q) + bundles_rows(x.name, x.bundles, q)
            } else {
                Seq::empty()
            },
        );
    }
}

proof fn lemma_powers_rows_ok(cell: Text, pin: Text, s: Seq<SpecPower>, q: SpecQuery)
    requires
        spec_matches(q.cell, cell),
        spec_matches(q.pin, pin),
        q.timing_type is None,
    ensures
        rows_ok(q, powers_rows(cell, pin, s, q)),
    decreases s.len(),
{
    if s.len() > 0 {
        let x = s.last();
        lemma_powers_rows_ok(cell, pin, s.drop_last(), q);
        if power_selected(q.related_pin, q.related_pg_pin, q.when, x) {
                lemma_tables_rows_ok(power_keys(cell, pin, x), x.tables, q);
            }
        lemma_rows_ok_concat(
            q,
            powers_rows(cell, pin, s.drop_last(), q),
            if power_selected(q.related_pin, q.related_pg_pin, q.when, x) {
                tables_rows(power_keys(cell, pin, x), x.tables, q)
            } else {
                Seq::empty()
            },
        );
    }
}

proof fn lemma_power_pins_rows_ok(cell: Text, s: Seq<SpecPin>, q: SpecQuery)
    requires
        spec_matches(q.cell, cell),
        q.timing_type is None,
    ensures
        rows_ok(q, power_pins_rows(cell, s, q)),
    decreases s.len(),
{
    if s.len() > 0 {
        let x = s.last();
        lemma_power_pins_rows_ok(cell, s.drop_last(), q);
        if spec_matches(q.pin, x.name) {
                lemma_powers_rows_ok(cell, x.name, x.internal_powers, q);
            }
        lemma_rows_ok_concat(
            q,
            power_pins_rows(cell, s.drop_last(), q),
            if spec_matches(q.pin, x.name) {
                powers_rows(cell, x.name, x.internal_powers, q)
            } else {
                Seq::empty()
            },
        );
    }
}

proof fn lemma_power_buses_rows_ok(cell: Text, s: Seq<SpecBus>, q: SpecQuery)
    requires
        spec_matches(q.cell, cell),
        q.timing_type is None,
    ensures
        rows_ok(q, power_buses_rows(cell, s, q)),
    decreases s.len(),
{
    if s.len() > 0 {
        let x = s.last();
        lemma_power_buses_rows_ok(cell, s.drop_last(), q);
        lemma_power_pins_rows_ok(cell, x.pins, q);
        lemma_rows_ok_concat(
            q,
            power_buses_rows(cell, s.drop_last(), q),
            power_pins_rows(cell, x.pins, q),
        );
    }
}

proof fn lemma_power_bundles_rows_ok(cell: Text, s: Seq<SpecBundle>, q: SpecQuery)
    requires
        spec_matches(q.cell, cell),
        q.timing_type is None,
    ensures
        rows_ok(q, power_bundles_rows(cell, s, q)),
    decreases s.len(),
{
    if s.len() > 0 {
        let x = s.last();
        lemma_power_bundles_rows_ok(cell, s.drop_last(), q);
        lemma_power_pins_rows_ok(cell, x.pins, q);
        lemma_rows_ok_concat(
            q,
            power_bundles_rows(cell, s.drop_last(), q),
            power_pins_rows(cell, x.pins, q),
        );
    }
}

proof fn lemma_power_rows_ok(s: Seq<SpecCell>, q: SpecQuery)
    requires
        q.timing_type is None,
    ensures
        rows_ok(q, power_rows(s, q)),
    decreases s.len(),
{
    if s.len() > 0 {
        let x = s.last();
        lemma_power_rows_ok(s.drop_last(), q);
        if spec_matches(q.cell, x.name) {
                lemma_power_pins_rows_ok(x.name, x.pins, q);
                lemma_power_buses_rows_ok(x.name, x.buses, q);
                lemma_power_bundles_rows_ok(x.name, x.bundles, q);
                lemma_rows_ok_concat(
                    q,
                    power_pins_rows(x.name, x.pins, q),
                    power_buses_rows(x.name, x.buses, q),
                );
                lemma_rows_ok_concat(
                    q,
                    power_pins_rows(x.name, x.pins, q) + power_buses_rows(x.name, x.buses, q),
                    power_bundles_rows(x.name, x.bundles, q),
                );
            }
        lemma_rows_ok_concat(
            q,
            power_rows(s.drop_last(), q),
            if spec_matches(q.cell, x.name) {
                power_pins_rows(x.name, x.pins, q) + power_buses_rows(x.name, x.buses, q)
                    + power_bundles_rows(x.name, x.bundles, q)
            } else {
                Seq::empty()
            },
        );
    }
}

/// Every row that `Document::timing_tables` gives answers the query: its
/// cell, pin and table pass the name filters, its `related_pin` and
/// `timing_type` equal the filters given, and its `when` condition implies the
/// `when` query.
pub proof fn lemma_timing_rows_answer_query(cs: Seq<SpecCell>, q: SpecQuery)
    requires
        q.related_pg_pin is None,
    ensures
        forall|i: int|
            0 <= i < timing_rows(cs, q).len() ==> row_ok(q, #[trigger] timing_rows(cs, q)[i]),
{
    lemma_timing_rows_ok(cs, q);
}

/// Every row that `Document::internal_power_tables` gives answers the query in
/// the same way, with `related_pg_pin` in place of `timing_type`.
pub proof fn lemma_power_rows_answer_query(cs: Seq<SpecCell>, q: SpecQuery)
    requires
        q.timing_type is None,
    ensures
        forall|i: int|
            0 <= i < power_rows(cs, q).len() ==> row_ok(q, #[trigger] power_rows(cs, q)[i]),
{
    lemma_power_rows_ok(cs, q);
}

/// The query of `Document::timing_tables`.
pub open spec fn timing_query(
    cell: Option<Text>,
    pin: Option<Text>,
    related_pin: Option<Text>,
    timing_type: Option<Text>,
    when: Option<SpecBool>,
    table: Option<Text>,
) -> SpecQuery {
    SpecQuery { cell, pin, related_pin, timing_type, related_pg_pin: None, when, table }
}

/// The query of `Document::internal_power_tables`.
pub open spec fn power_query(
    cell: Option<Text>,
    pin: Option<Text>,
    related_pin: Option<Text>,
    related_pg_pin: Option<Text>,
    when: Option<SpecBool>,
    table: Option<Text>,
) -> SpecQuery {
    SpecQuery { cell, pin, related_pin, timing_type: None, related_pg_pin, when, table }
}

impl Document {
    /// The rows of every timing table that the filters select; an invalid
    /// `when` query is an error.
    pub fn timing_tables(
        &self,
        cell: Option<&str>,
        pin: Option<&str>,
        related_pin: Option<&str>,
        timing_type: Option<&str>,
        when: Option<&str>,
        table: Option<&str>,
    ) -> (r: Result<Vec<TableRow>, String>)
        ensures
            match spec_when_filter(opt_str(when)) {
                Err(m) => r is Err && r->Err_0@ == m,
                Ok(w) => r is Ok && row_views(r->Ok_0@) == timing_rows(
                    cells(self.cells@),
                    timing_query(
                        opt_str(cell),
                        opt_str(pin),
                        opt_str(related_pin),
                        opt_str(timing_type),
                        w,
                        opt_str(table),
                    ),
                ),
            },
    {
        let wf = match WhenFilter::new(when) {
            Ok(f) => f,
            Err(m) => {
                return Err(m);
            },
        };
        let q = TableQuery {
            cell,
            pin,
            related_pin,
            timing_type,
            related_pg_pin: None,
            when: wf,
            table,
        };
        let mut rows: Vec<TableRow> = Vec::new();
        append_timing_rows(&self.cells, &q, &mut rows);
        assert(row_views(Seq::<TableRow>::empty()) =~= Seq::<SpecRow>::empty());
        Ok(rows)
    }

    /// The rows of every `internal_power` table that the filters select; an
    /// invalid `when` query is an error.
    pub fn internal_power_tables(
        &self,
        cell: Option<&str>,
        pin: Option<&str>,
        related_pin: Option<&str>,
        related_pg_pin: Option<&str>,
        when: Option<&str>,
        table: Option<&str>,
    ) -> (r: Result<Vec<TableRow>, String>)
        ensures
            match spec_when_filter(opt_str(when)) {
                Err(m) => r is Err && r->Err_0@ == m,
                Ok(w) => r is Ok && row_views(r->Ok_0@) == power_rows(
                    cells(self.cells@),
                    power_query(
                        opt_str(cell),
                        opt_str(pin),
                        opt_str(related_pin),
                        opt_str(related_pg_pin),
                        w,
                        opt_str(table),
                    ),
                ),
            },
    {
        let wf = match WhenFilter::new(when) {
            Ok(f) => f,
            Err(m) => {
                return Err(m);
            },
        };
        let q = TableQuery {
            cell,
            pin,
            related_pin,
            timing_type: None,
            related_pg_pin,
            when: wf,
            table,
        };
        let mut rows: Vec<TableRow> = Vec::new();
        append_power_rows(&self.cells, &q, &mut rows);
        assert(row_views(Seq::<TableRow>::empty()) =~= Seq::<SpecRow>::empty());
        Ok(rows)
    }
}

} // verus!
