//! Which rows the table queries give: a row is in the rows of a query exactly
//! when it is a row of a table that the query selects, of an arc or
//! `internal_power` group that the query selects, of a pin, bus, bus member
//! pin, bundle or bundle member pin (for power: a pin, bus member pin or
//! bundle member pin) whose name the query allows, of a cell whose name the
//! query allows.
use vstd::prelude::*;
use crate::data::{Text, SpecCell, SpecPin, SpecBus, SpecBundle, SpecArc, SpecPower, SpecTable};
use crate::query::{spec_matches, arc_selected, power_selected};
use crate::rows::{SpecKeys, SpecRow, spec_table_rows};
use crate::tables::{
    SpecQuery, arc_keys, power_keys, tables_rows, arcs_rows, pins_rows, buses_rows, bundles_rows,
    timing_rows, powers_rows, power_pins_rows, power_buses_rows, power_bundles_rows, power_rows,
};

verus! {

proof fn lemma_concat_contains(a: Seq<SpecRow>, b: Seq<SpecRow>, r: SpecRow)
    ensures
        (a + b).contains(r) <==> a.contains(r) || b.contains(r),
{
    if (a + b).contains(r) {
        let i = choose|i: int| 0 <= i < (a + b).len() && (a + b)[i] == r;
        if i < a.len() {
            assert(a[i] == r);
        } else {
            assert(b[i - a.len()] == r);
        }
    }
    if a.contains(r) {
        let i = choose|i: int| 0 <= i < a.len() && a[i] == r;
        assert((a + b)[i] == r);
    }
    if b.contains(r) {
        let i = choose|i: int| 0 <= i < b.len() && b[i] == r;
        assert((a + b)[a.len() + i] == r);
    }
}

proof fn lemma_empty_contains(r: SpecRow)
    ensures
        !Seq::<SpecRow>::empty().contains(r),
{
}

/// `r` is a row of table `t`, whose name the query allows, under keys `k`.
pub open spec fn table_gives(k: SpecKeys, t: SpecTable, q: SpecQuery, r: SpecRow) -> bool {
    spec_matches(q.table, t.name) && spec_table_rows(k, t).contains(r)
}

/// `r` is a row of one of the tables `s` that the query allows.
pub open spec fn tables_give(k: SpecKeys, s: Seq<SpecTable>, q: SpecQuery, r: SpecRow) -> bool {
    exists|j: int| 0 <= j < s.len() && #[trigger] table_gives(k, s[j], q, r)
}

/// `r` comes from arc `a` of pin `pin`: the query selects the arc and the
/// table.
pub open spec fn arc_gives(cell: Text, pin: Text, a: SpecArc, q: SpecQuery, r: SpecRow) -> bool {
    arc_selected(q.related_pin, q.timing_type, q.when, a) && tables_give(arc_keys(cell, pin, a), a.tables, q, r)
}

pub open spec fn arcs_give(cell: Text, pin: Text, s: Seq<SpecArc>, q: SpecQuery, r: SpecRow) -> bool {
    exists|j: int| 0 <= j < s.len() && #[trigger] arc_gives(cell, pin, s[j], q, r)
}

/// `r` comes from an arc of pin `p`, whose name the query allows.
pub open spec fn pin_gives(cell: Text, p: SpecPin, q: SpecQuery, r: SpecRow) -> bool {
    spec_matches(q.pin, p.name) && arcs_give(cell, p.name, p.timing_arcs, q, r)
}

pub open spec fn pins_give(cell: Text, s: Seq<SpecPin>, q: SpecQuery, r: SpecRow) -> bool {
    exists|j: int| 0 <= j < s.len() && #[trigger] pin_gives(cell, s[j], q, r)
}

/// `r` comes from bus `b`: from its own arcs when the query allows its name,
/// or from one of its member pins.
pub open spec fn bus_gives(cell: Text, b: SpecBus, q: SpecQuery, r: SpecRow) -> bool {
    (spec_matches(q.pin, b.name) && arcs_give(cell, b.name, b.timing_arcs, q, r)) || pins_give(
        cell,
        b.pins,
        q,
        r,
    )
}

pub open spec fn buses_give(cell: Text, s: Seq<SpecBus>, q: SpecQuery, r: SpecRow) -> bool {
    exists|j: int| 0 <= j < s.len() && #[trigger] bus_gives(cell, s[j], q, r)
}

/// `r` comes from bundle `b`: from its own arcs when the query allows its
/// name, or from one of its member pins.
pub open spec fn bundle_gives(cell: Text, b: SpecBundle, q: SpecQuery, r: SpecRow) -> bool {
    (spec_matches(q.pin, b.name) && arcs_give(cell, b.name, b.timing_arcs, q, r)) || pins_give(
        cell,
        b.pins,
        q,
        r,
    )
}

pub open spec fn bundles_give(cell: Text, s: Seq<SpecBundle>, q: SpecQuery, r: SpecRow) -> bool {
    exists|j: int| 0 <= j < s.len() && #[trigger] bundle_gives(cell, s[j], q, r)
}

/// `r` is a timing row of cell `c`, whose name the query allows: from one of
/// its pins, buses or bundles.
pub open spec fn cell_timing_gives(c: SpecCell, q: SpecQuery, r: SpecRow) -> bool {
    spec_matches(q.cell, c.name) && (pins_give(c.name, c.pins, q, r) || buses_give(
        c.name,
        c.buses,
        q,
        r,
    ) || bundles_give(c.name, c.bundles, q, r))
}

/// `r` comes from `internal_power` group `g` of pin `pin`: the query selects
/// the group and the table.
pub open spec fn power_gives(cell: Text, pin: Text, g: SpecPower, q: SpecQuery, r: SpecRow) -> bool {
    power_selected(q.related_pin, q.related_pg_pin, q.when, g) && tables_give(
        power_keys(cell, pin, g),
        g.tables,
        q,
        r,
    )
}

pub open spec fn powers_give(cell: Text, pin: Text, s: Seq<SpecPower>, q: SpecQuery, r: SpecRow) -> bool {
    exists|j: int| 0 <= j < s.len() && #[trigger] power_gives(cell, pin, s[j], q, r)
}

/// `r` comes from an `internal_power` group of pin `p`, whose name the query
/// allows.
pub open spec fn power_pin_gives(cell: Text, p: SpecPin, q: SpecQuery, r: SpecRow) -> bool {
    spec_matches(q.pin, p.name) && powers_give(cell, p.name, p.internal_powers, q, r)
}

pub open spec fn power_pins_give(cell: Text, s: Seq<SpecPin>, q: SpecQuery, r: SpecRow) -> bool {
    exists|j: int| 0 <= j < s.len() && #[trigger] power_pin_gives(cell, s[j], q, r)
}

pub open spec fn bus_power_gives(cell: Text, b: SpecBus, q: SpecQuery, r: SpecRow) -> bool {
    power_pins_give(cell, b.pins, q, r)
}

pub open spec fn buses_power_give(cell: Text, s: Seq<SpecBus>, q: SpecQuery, r: SpecRow) -> bool {
    exists|j: int| 0 <= j < s.len() && #[trigger] bus_power_gives(cell, s[j], q, r)
}

pub open spec fn bundle_power_gives(cell: Text, b: SpecBundle, q: SpecQuery, r: SpecRow) -> bool {
    power_pins_give(cell, b.pins, q, r)
}

pub open spec fn bundles_power_give(cell: Text, s: Seq<SpecBundle>, q: SpecQuery, r: SpecRow) -> bool {
    exists|j: int| 0 <= j < s.len() && #[trigger] bundle_power_gives(cell, s[j], q, r)
}

/// `r` is a power row of cell `c`, whose name the query allows: from one of
/// its pins, or of the member pins of its buses or bundles.
pub open spec fn cell_power_gives(c: SpecCell, q: SpecQuery, r: SpecRow) -> bool {
    spec_matches(q.cell, c.name) && (power_pins_give(c.name, c.pins, q, r) || buses_power_give(
        c.name,
        c.buses,
        q,
        r,
    ) || bundles_power_give(c.name, c.bundles, q, r))
}

proof fn lemma_tables_rows(k: SpecKeys, s: Seq<SpecTable>, q: SpecQuery, r: SpecRow)
    ensures
        tables_rows(k, s, q).contains(r) <==> tables_give(k, s, q, r),
    decreases s.len(),
{
    if s.len() > 0 {
        let x = s.last();
        let p = s.drop_last();
        lemma_tables_rows(k, p, q, r);
        
        lemma_concat_contains(tables_rows(k, p, q), (if spec_matches(q.table, x.name) { spec_table_rows(k, x) } else { Seq::empty() }), r);
        assert(tables_rows(k, s, q) == tables_rows(k, p, q) + (if spec_matches(q.table, x.name) { spec_table_rows(k, x) } else { Seq::empty() }));
        if tables_give(k, p, q, r) {
            let i = choose|i: int| 0 <= i < p.len() && #[trigger] table_gives(k, p[i], q, r);
            assert(s[i] == p[i]);
        }
        if table_gives(k, x, q, r) {
            assert(s[s.len() - 1] == x);
        }
        if tables_give(k, s, q, r) {
            let i = choose|i: int| 0 <= i < s.len() && #[trigger] table_gives(k, s[i], q, r);
            if i < p.len() {
                assert(p[i] == s[i]);
            }
        }
    }
}

proof fn lemma_arcs_rows(cell: Text, pin: Text, s: Seq<SpecArc>, q: SpecQuery, r: SpecRow)
    ensures
        arcs_rows(cell, pin, s, q).contains(r) <==> arcs_give(cell, pin, s, q, r),
    decreases s.len(),
{
    if s.len() > 0 {
        let x = s.last();
        let p = s.drop_last();
        lemma_arcs_rows(cell, pin, p, q, r);
        lemma_tables_rows(arc_keys(cell, pin, x), x.tables, q, r);
        lemma_concat_contains(arcs_rows(cell, pin, p, q), (if arc_selected(q.related_pin, q.timing_type, q.when, x) { tables_rows(arc_keys(cell, pin, x), x.tables, q) } else { Seq::empty() }), r);
        assert(arcs_rows(cell, pin, s, q) == arcs_rows(cell, pin, p, q) + (if arc_selected(q.related_pin, q.timing_type, q.when, x) { tables_rows(arc_keys(cell, pin, x), x.tables, q) } else { Seq::empty() }));
        if arcs_give(cell, pin, p, q, r) {
            let i = choose|i: int| 0 <= i < p.len() && #[trigger] arc_gives(cell, pin, p[i], q, r);
            assert(s[i] == p[i]);
        }
        if arc_gives(cell, pin, x, q, r) {
            assert(s[s.len() - 1] == x);
        }
        if arcs_give(cell, pin, s, q, r) {
            let i = choose|i: int| 0 <= i < s.len() && #[trigger] arc_gives(cell, pin, s[i], q, r);
            if i < p.len() {
                assert(p[i] == s[i]);
            }
        }
    }
}

proof fn lemma_pins_rows(cell: Text, s: Seq<SpecPin>, q: SpecQuery, r: SpecRow)
    ensures
        pins_rows(cell, s, q).contains(r) <==> pins_give(cell, s, q, r),
    decreases s.len(),
{
    if s.len() > 0 {
        let x = s.last();
        let p = s.drop_last();
        lemma_pins_rows(cell, p, q, r);
        lemma_arcs_rows(cell, x.name, x.timing_arcs, q, r);
        lemma_concat_contains(pins_rows(cell, p, q), (if spec_matches(q.pin, x.name) { arcs_rows(cell, x.name, x.timing_arcs, q) } else { Seq::empty() }), r);
        assert(pins_rows(cell, s, q) == pins_rows(cell, p, q) + (if spec_matches(q.pin, x.name) { arcs_rows(cell, x.name, x.timing_arcs, q) } else { Seq::empty() }));
        if pins_give(cell, p, q, r) {
            let i = choose|i: int| 0 <= i < p.len() && #[trigger] pin_gives(cell, p[i], q, r);
            assert(s[i] == p[i]);
        }
        if pin_gives(cell, x, q, r) {
            assert(s[s.len() - 1] == x);
        }
        if pins_give(cell, s, q, r) {
            let i = choose|i: int| 0 <= i < s.len() && #[trigger] pin_gives(cell, s[i], q, r);
            if i < p.len() {
                assert(p[i] == s[i]);
            }
        }
    }
}

proof fn lemma_buses_rows(cell: Text, s: Seq<SpecBus>, q: SpecQuery, r: SpecRow)
    ensures
        buses_rows(cell, s, q).contains(r) <==> buses_give(cell, s, q, r),
    decreases s.len(),
{
    if s.len() > 0 {
        let x = s.last();
        let p = s.drop_last();
        lemma_buses_rows(cell, p, q, r);
        lemma_arcs_rows(cell, x.name, x.timing_arcs, q, r);
        lemma_pins_rows(cell, x.pins, q, r);
        lemma_concat_contains(if spec_matches(q.pin, x.name) { arcs_rows(cell, x.name, x.timing_arcs, q) } else { Seq::empty() }, pins_rows(cell, x.pins, q), r);
        lemma_concat_contains(buses_rows(cell, p, q), ((if spec_matches(q.pin, x.name) { arcs_rows(cell, x.name, x.timing_arcs, q) } else { Seq::empty() }) + pins_rows(cell, x.pins, q)), r);
        assert(buses_rows(cell, s, q) == buses_rows(cell, p, q) + ((if spec_matches(q.pin, x.name) { arcs_rows(cell, x.name, x.timing_arcs, q) } else { Seq::empty() }) + pins_rows(cell, x.pins, q)));
        if buses_give(cell, p, q, r) {
            let i = choose|i: int| 0 <= i < p.len() && #[trigger] bus_gives(cell, p[i], q, r);
            assert(s[i] == p[i]);
        }
        if bus_gives(cell, x, q, r) {
            assert(s[s.len() - 1] == x);
        }
        if buses_give(cell, s, q, r) {
            let i = choose|i: int| 0 <= i < s.len() && #[trigger] bus_gives(cell, s[i], q, r);
            if i < p.len() {
                assert(p[i] == s[i]);
            }
        }
    }
}

proof fn lemma_bundles_rows(cell: Text, s: Seq<SpecBundle>, q: SpecQuery, r: SpecRow)
    ensures
        bundles_rows(cell, s, q).contains(r) <==> bundles_give(cell, s, q, r),
    decreases s.len(),
{
    if s.len() > 0 {
        let x = s.last();
        let p = s.drop_last();
        lemma_bundles_rows(cell, p, q, r);
        lemma_arcs_rows(cell, x.name, x.timing_arcs, q, r);
        lemma_pins_rows(cell, x.pins, q, r);
        lemma_concat_contains(if spec_matches(q.pin, x.name) { arcs_rows(cell, x.name, x.timing_arcs, q) } else { Seq::empty() }, pins_rows(cell, x.pins, q), r);
        lemma_concat_contains(bundles_rows(cell, p, q), ((if spec_matches(q.pin, x.name) { arcs_rows(cell, x.name, x.timing_arcs, q) } else { Seq::empty() }) + pins_rows(cell, x.pins, q)), r);
        assert(bundles_rows(cell, s, q) == bundles_rows(cell, p, q) + ((if spec_matches(q.pin, x.name) { arcs_rows(cell, x.name, x.timing_arcs, q) } else { Seq::empty() }) + pins_rows(cell, x.pins, q)));
        if bundles_give(cell, p, q, r) {
            let i = choose|i: int| 0 <= i < p.len() && #[trigger] bundle_gives(cell, p[i], q, r);
            assert(s[i] == p[i]);
        }
        if bundle_gives(cell, x, q, r) {
            assert(s[s.len() - 1] == x);
        }
        if bundles_give(cell, s, q, r) {
            let i = choose|i: int| 0 <= i < s.len() && #[trigger] bundle_gives(cell, s[i], q, r);
            if i < p.len() {
                assert(p[i] == s[i]);
            }
        }
    }
}

proof fn lemma_powers_rows(cell: Text, pin: Text, s: Seq<SpecPower>, q: SpecQuery, r: SpecRow)
    ensures
        powers_rows(cell, pin, s, q).contains(r) <==> powers_give(cell, pin, s, q, r),
    decreases s.len(),
{
    if s.len() > 0 {
        let x = s.last();
        let p = s.drop_last();
        lemma_powers_rows(cell, pin, p, q, r);
        lemma_tables_rows(power_keys(cell, pin, x), x.tables, q, r);
        lemma_concat_contains(powers_rows(cell, pin, p, q), (if power_selected(q.related_pin, q.related_pg_pin, q.when, x) { tables_rows(power_keys(cell, pin, x), x.tables, q) } else { Seq::empty() }), r);
        assert(powers_rows(cell, pin, s, q) == powers_rows(cell, pin, p, q) + (if power_selected(q.related_pin, q.related_pg_pin, q.when, x) { tables_rows(power_keys(cell, pin, x), x.tables, q) } else { Seq::empty() }));
        if powers_give(cell, pin, p, q, r) {
            let i = choose|i: int| 0 <= i < p.len() && #[trigger] power_gives(cell, pin, p[i], q, r);
            assert(s[i] == p[i]);
        }
        if power_gives(cell, pin, x, q, r) {
            assert(s[s.len() - 1] == x);
        }
        if powers_give(cell, pin, s, q, r) {
            let i = choose|i: int| 0 <= i < s.len() && #[trigger] power_gives(cell, pin, s[i], q, r);
            if i < p.len() {
                assert(p[i] == s[i]);
            }
        }
    }
}

proof fn lemma_power_pins_rows(cell: Text, s: Seq<SpecPin>, q: SpecQuery, r: SpecRow)
    ensures
        power_pins_rows(cell, s, q).contains(r) <==> power_pins_give(cell, s, q, r),
    decreases s.len(),
{
    if s.len() > 0 {
        let x = s.last();
        let p = s.drop_last();
        lemma_power_pins_rows(cell, p, q, r);
        lemma_powers_rows(cell, x.name, x.internal_powers, q, r);
        lemma_concat_contains(power_pins_rows(cell, p, q), (if spec_matches(q.pin, x.name) { powers_rows(cell, x.name, x.internal_powers, q) } else { Seq::empty() }), r);
        assert(power_pins_rows(cell, s, q) == power_pins_rows(cell, p, q) + (if spec_matches(q.pin, x.name) { powers_rows(cell, x.name, x.internal_powers, q) } else { Seq::empty() }));
        if power_pins_give(cell, p, q, r) {
            let i = choose|i: int| 0 <= i < p.len() && #[trigger] power_pin_gives(cell, p[i], q, r);
            assert(s[i] == p[i]);
        }
        if power_pin_gives(cell, x, q, r) {
            assert(s[s.len() - 1] == x);
        }
        if power_pins_give(cell, s, q, r) {
            let i = choose|i: int| 0 <= i < s.len() && #[trigger] power_pin_gives(cell, s[i], q, r);
            if i < p.len() {
                assert(p[i] == s[i]);
            }
        }
    }
}

proof fn lemma_power_buses_rows(cell: Text, s: Seq<SpecBus>, q: SpecQuery, r: SpecRow)
    ensures
        power_buses_rows(cell, s, q).contains(r) <==> buses_power_give(cell, s, q, r),
    decreases s.len(),
{
    if s.len() > 0 {
        let x = s.last();
        let p = s.drop_last();
        lemma_power_buses_rows(cell, p, q, r);
        lemma_power_pins_rows(cell, x.pins, q, r);
        lemma_concat_contains(power_buses_rows(cell, p, q), (power_pins_rows(cell, x.pins, q)), r);
        assert(power_buses_rows(cell, s, q) == power_buses_rows(cell, p, q) + (power_pins_rows(cell, x.pins, q)));
        if buses_power_give(cell, p, q, r) {
            let i = choose|i: int| 0 <= i < p.len() && #[trigger] bus_power_gives(cell, p[i], q, r);
            assert(s[i] == p[i]);
        }
        if bus_power_gives(cell, x, q, r) {
            assert(s[s.len() - 1] == x);
        }
        if buses_power_give(cell, s, q, r) {
            let i = choose|i: int| 0 <= i < s.len() && #[trigger] bus_power_gives(cell, s[i], q, r);
            if i < p.len() {
                assert(p[i] == s[i]);
            }
        }
    }
}

proof fn lemma_power_bundles_rows(cell: Text, s: Seq<SpecBundle>, q: SpecQuery, r: SpecRow)
    ensures
        power_bundles_rows(cell, s, q).contains(r) <==> bundles_power_give(cell, s, q, r),
    decreases s.len(),
{
    if s.len() > 0 {
        let x = s.last();
        let p = s.drop_last();
        lemma_power_bundles_rows(cell, p, q, r);
        lemma_power_pins_rows(cell, x.pins, q, r);
        lemma_concat_contains(power_bundles_rows(cell, p, q), (power_pins_rows(cell, x.pins, q)), r);
        assert(power_bundles_rows(cell, s, q) == power_bundles_rows(cell, p, q) + (power_pins_rows(cell, x.pins, q)));
        if bundles_power_give(cell, p, q, r) {
            let i = choose|i: int| 0 <= i < p.len() && #[trigger] bundle_power_gives(cell, p[i], q, r);
            assert(s[i] == p[i]);
        }
        if bundle_power_gives(cell, x, q, r) {
            assert(s[s.len() - 1] == x);
        }
        if bundles_power_give(cell, s, q, r) {
            let i = choose|i: int| 0 <= i < s.len() && #[trigger] bundle_power_gives(cell, s[i], q, r);
            if i < p.len() {
                assert(p[i] == s[i]);
            }
        }
    }
}

/// A row is among the rows that `timing_tables` gives for a query exactly
/// when it is a row of a table the query allows, of a timing arc the query
/// selects, of a pin, bus, bus member pin, bundle or bundle member pin whose
/// name the query allows, of a cell whose name the query allows.
pub proof fn lemma_timing_rows_are_the_selected_tables(s: Seq<SpecCell>, q: SpecQuery, r: SpecRow)
    ensures
        timing_rows(s, q).contains(r) <==> exists|i: int| 0 <= i < s.len() && #[trigger] cell_timing_gives(s[i], q, r),
    decreases s.len(),
{
    if s.len() > 0 {
        let x = s.last();
        let p = s.drop_last();
        lemma_timing_rows_are_the_selected_tables(p, q, r);
        lemma_pins_rows(x.name, x.pins, q, r);
        lemma_buses_rows(x.name, x.buses, q, r);
        lemma_bundles_rows(x.name, x.bundles, q, r);
        let a = pins_rows(x.name, x.pins, q);
        let b = buses_rows(x.name, x.buses, q);
        let c = bundles_rows(x.name, x.bundles, q);
        lemma_concat_contains(a, b, r);
        lemma_concat_contains(a + b, c, r);
        let g = if spec_matches(q.cell, x.name) { a + b + c } else { Seq::empty() };
        lemma_concat_contains(timing_rows(p, q), g, r);
        assert(timing_rows(s, q) == timing_rows(p, q) + g);
        if exists|i: int| 0 <= i < p.len() && #[trigger] cell_timing_gives(p[i], q, r) {
            let i = choose|i: int| 0 <= i < p.len() && #[trigger] cell_timing_gives(p[i], q, r);
            assert(s[i] == p[i]);
        }
        if cell_timing_gives(x, q, r) {
            assert(s[s.len() - 1] == x);
        }
        if exists|i: int| 0 <= i < s.len() && #[trigger] cell_timing_gives(s[i], q, r) {
            let i = choose|i: int| 0 <= i < s.len() && #[trigger] cell_timing_gives(s[i], q, r);
            if i < p.len() {
                assert(p[i] == s[i]);
            }
        }
    }
}

/// A row is among the rows that `internal_power_tables` gives for a query
/// exactly when it is a row of a table the query allows, of an
/// `internal_power` group the query selects, of a pin, bus member pin or
/// bundle member pin whose name the query allows, of a cell whose name the
/// query allows.
pub proof fn lemma_power_rows_are_the_selected_tables(s: Seq<SpecCell>, q: SpecQuery, r: SpecRow)
    ensures
        power_rows(s, q).contains(r) <==> exists|i: int| 0 <= i < s.len() && #[trigger] cell_power_gives(s[i], q, r),
    decreases s.len(),
{
    if s.len() > 0 {
        let x = s.last();
        let p = s.drop_last();
        lemma_power_rows_are_the_selected_tables(p, q, r);
        lemma_power_pins_rows(x.name, x.pins, q, r);
        lemma_power_buses_rows(x.name, x.buses, q, r);
        lemma_power_bundles_rows(x.name, x.bundles, q, r);
        let a = power_pins_rows(x.name, x.pins, q);
        let b = power_buses_rows(x.name, x.buses, q);
        let c = power_bundles_rows(x.name, x.bundles, q);
        lemma_concat_contains(a, b, r);
        lemma_concat_contains(a + b, c, r);
        let g = if spec_matches(q.cell, x.name) { a + b + c } else { Seq::empty() };
        lemma_concat_contains(power_rows(p, q), g, r);
        assert(power_rows(s, q) == power_rows(p, q) + g);
        if exists|i: int| 0 <= i < p.len() && #[trigger] cell_power_gives(p[i], q, r) {
            let i = choose|i: int| 0 <= i < p.len() && #[trigger] cell_power_gives(p[i], q, r);
            assert(s[i] == p[i]);
        }
        if cell_power_gives(x, q, r) {
            assert(s[s.len() - 1] == x);
        }
        if exists|i: int| 0 <= i < s.len() && #[trigger] cell_power_gives(s[i], q, r) {
            let i = choose|i: int| 0 <= i < s.len() && #[trigger] cell_power_gives(s[i], q, r);
            if i < p.len() {
                assert(p[i] == s[i]);
            }
        }
    }
}

} // verus!
