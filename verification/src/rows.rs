//! Long-form rows of lookup tables: one row per value, with the value's
//! coordinates and the index entries it stands at.
use vstd::prelude::*;
use vstd::arithmetic::div_mod::{lemma_fundamental_div_mod, lemma_mod_breakdown, lemma_small_mod,
    lemma_basic_div_specific_divisor};
use vstd::arithmetic::mul::lemma_mul_is_commutative;
use crate::data::{Text, TimingTableData, SpecTable, opt_text, clone_opt};

verus! {

/// Where the value at `idx` of a table stands, given the lengths of its
/// three index lists: (row, column, depth). Values run row-major; a table
/// with no `index_2` counts one column per plane, and a table with no index
/// at all lays its values out along the columns.
pub open spec fn spec_table_position(n1: int, n2: int, n3: int, idx: int) -> (int, int, int) {
    if n3 > 0 {
        let m2 = if n2 > 1 {
            n2
        } else {
            1
        };
        let plane = m2 * n3;
        (idx / plane, (idx % plane) / n3, idx % n3)
    } else if n2 > 0 {
        (idx / n2, idx % n2, 0)
    } else if n1 > 0 {
        (idx, 0, 0)
    } else {
        (0, idx, 0)
    }
}

/// The position of the value at `idx` of `t`.
pub fn table_position(t: &TimingTableData, idx: usize) -> (r: (usize, usize, usize))
    ensures
        (r.0 as int, r.1 as int, r.2 as int) == spec_table_position(
            t.index_1@.len() as int,
            t.index_2@.len() as int,
            t.index_3@.len() as int,
            idx as int,
        ),
{
    let n2 = t.index_2.len();
    let n3 = t.index_3.len();
    if n3 > 0 {
        let m2 = if n2 > 1 {
            n2
        } else {
            1
        };
        assert(m2 * n3 >= 1) by (nonlinear_arith)
            requires
                m2 >= 1,
                n3 >= 1,
        ;
        match m2.checked_mul(n3) {
            Some(plane) => (idx / plane, (idx % plane) / n3, idx % n3),
            None => {
                proof {
                    let plane = m2 * n3;
                    assert(idx < plane);
                    lemma_basic_div_specific_divisor(plane);
                    lemma_small_mod(idx as nat, plane as nat);
                }
                (0, idx / n3, idx % n3)
            },
        }
    } else if n2 > 0 {
        (idx / n2, idx % n2, 0)
    } else if t.index_1.len() > 0 {
        (idx, 0, 0)
    } else {
        (0, idx, 0)
    }
}

/// A table with two or three index lists stores its values row-major: the
/// value at `idx` sits at (row, column, depth) with
/// `(row * n2 + column) * n3 + depth == idx` (`n3` read as 1 for a 2-D table).
pub proof fn lemma_table_position_row_major(n1: int, n2: int, n3: int, idx: int)
    requires
        0 <= idx,
        0 < n2,
        0 <= n3,
    ensures
        ({
            let (i, j, k) = spec_table_position(n1, n2, n3, idx);
            let m3 = if n3 > 0 {
                n3
            } else {
                1
            };
            &&& (i * n2 + j) * m3 + k == idx
            &&& 0 <= j < n2
            &&& 0 <= k < m3
            &&& 0 <= i
        }),
{
    if n3 > 0 {
        let plane = n2 * n3;
        assert(plane > 0) by (nonlinear_arith)
            requires
                plane == n2 * n3,
                n2 > 0,
                n3 > 0,
        ;
        lemma_fundamental_div_mod(idx, plane);
        lemma_mod_breakdown(idx, n3, n2);
        lemma_mul_is_commutative(n3, n2);
        let i = idx / plane;
        let r = idx % plane;
        let q = (idx / n3) % n2;
        let k = idx % n3;
        assert(r == n3 * q + k);
        assert(0 <= q < n2);
        assert(0 <= k < n3);
        lemma_fundamental_div_mod(r, n3);
        let j = r / n3;
        assert(j == q) by (nonlinear_arith)
            requires
                r == n3 * q + k,
                r == n3 * j + r % n3,
                0 <= k < n3,
                0 <= r % n3 < n3,
                n3 > 0,
        ;
        assert(0 <= i) by (nonlinear_arith)
            requires
                i == idx / plane,
                idx >= 0,
                plane > 0,
        ;
        assert((i * n2 + j) * n3 + k == idx) by (nonlinear_arith)
            requires
                idx == plane * i + r,
                plane == n2 * n3,
                r == n3 * q + k,
                j == q,
        ;
    } else {
        lemma_fundamental_div_mod(idx, n2);
        assert(0 <= idx / n2) by (nonlinear_arith)
            requires
                idx >= 0,
                n2 > 0,
        ;
        assert((idx / n2) * n2 + idx % n2 == idx) by (nonlinear_arith)
            requires
                idx == n2 * (idx / n2) + idx % n2,
        ;
    }
}

/// What a row says besides its place in its table: the cell and pin, and the
/// keys of the group that holds the table (`timing_type` for a timing arc,
/// `related_pg_pin` for an `internal_power` group; the other is `None`).
pub struct RowKeys {
    pub cell: String,
    pub pin: String,
    pub related_pin: Option<String>,
    pub timing_type: Option<String>,
    pub related_pg_pin: Option<String>,
    pub when: Option<String>,
}

pub struct SpecKeys {
    pub cell: Text,
    pub pin: Text,
    pub related_pin: Option<Text>,
    pub timing_type: Option<Text>,
    pub related_pg_pin: Option<Text>,
    pub when: Option<Text>,
}

impl View for RowKeys {
    type V = SpecKeys;

    open spec fn view(&self) -> SpecKeys {
        SpecKeys {
            cell: self.cell@,
            pin: self.pin@,
            related_pin: opt_text(self.related_pin),
            timing_type: opt_text(self.timing_type),
            related_pg_pin: opt_text(self.related_pg_pin),
            when: opt_text(self.when),
        }
    }
}

/// One value of a table, with its keys, its (row, column, depth) position,
/// and the index entries at that position (`None` past an index's end).
#[derive(Clone, Debug)]
pub struct TableRow {
    pub cell: String,
    pub pin: String,
    pub related_pin: Option<String>,
    pub timing_type: Option<String>,
    pub related_pg_pin: Option<String>,
    pub when: Option<String>,
    pub table: String,
    pub index_1: Option<String>,
    pub index_2: Option<String>,
    pub index_3: Option<String>,
    pub row: usize,
    pub col: usize,
    pub depth: usize,
    pub value: String,
}

pub struct SpecRow {
    pub cell: Text,
    pub pin: Text,
    pub related_pin: Option<Text>,
    pub timing_type: Option<Text>,
    pub related_pg_pin: Option<Text>,
    pub when: Option<Text>,
    pub table: Text,
    pub index_1: Option<Text>,
    pub index_2: Option<Text>,
    pub index_3: Option<Text>,
    pub row: int,
    pub col: int,
    pub depth: int,
    pub value: Text,
}

impl View for TableRow {
    type V = SpecRow;

    open spec fn view(&self) -> SpecRow {
        SpecRow {
            cell: self.cell@,
            pin: self.pin@,
            related_pin: opt_text(self.related_pin),
            timing_type: opt_text(self.timing_type),
            related_pg_pin: opt_text(self.related_pg_pin),
            when: opt_text(self.when),
            table: self.table@,
            index_1: opt_text(self.index_1),
            index_2: opt_text(self.index_2),
            index_3: opt_text(self.index_3),
            row: self.row as int,
            col: self.col as int,
            depth: self.depth as int,
            value: self.value@,
        }
    }
}

pub open spec fn row_views(v: Seq<TableRow>) -> Seq<SpecRow> {
    v.map_values(|r: TableRow| r@)
}

/// The item at `i`, if there is one.
pub open spec fn item_at(s: Seq<Text>, i: int) -> Option<Text> {
    if 0 <= i < s.len() {
        Some(s[i])
    } else {
        None
    }
}

/// The row of the value at `idx` of `t`.
pub open spec fn table_row(k: SpecKeys, t: SpecTable, idx: int) -> SpecRow {
    let (i, j, l) = spec_table_position(
        t.index_1.len() as int,
        t.index_2.len() as int,
        t.index_3.len() as int,
        idx,
    );
    SpecRow {
        cell: k.cell,
        pin: k.pin,
        related_pin: k.related_pin,
        timing_type: k.timing_type,
        related_pg_pin: k.related_pg_pin,
        when: k.when,
        table: t.name,
        index_1: item_at(t.index_1, i),
        index_2: item_at(t.index_2, j),
        index_3: item_at(t.index_3, l),
        row: i,
        col: j,
        depth: l,
        value: t.values[idx],
    }
}

/// The rows of `t`, one per value, in value order.
pub open spec fn spec_table_rows(k: SpecKeys, t: SpecTable) -> Seq<SpecRow> {
    Seq::new(t.values.len(), |idx: int| table_row(k, t, idx))
}

fn item_at_exec(v: &Vec<String>, i: usize) -> (r: Option<String>)
    ensures
        opt_text(r) == item_at(crate::text::texts(v@), i as int),
{
    if i < v.len() {
        Some(v[i].clone())
    } else {
        None
    }
}

/// Appends the rows of `t` under `keys`.
pub fn append_table_rows(keys: &RowKeys, t: &TimingTableData, rows: &mut Vec<TableRow>)
    ensures
        row_views(final(rows)@) == row_views(old(rows)@) + spec_table_rows(keys@, t@),
{
    let ghost r0 = row_views(rows@);
    let ghost all = spec_table_rows(keys@, t@);
    let mut idx: usize = 0;
    assert(r0 + all.take(0) =~= r0);
    while idx < t.values.len()
        invariant
            idx <= t.values@.len(),
            all == spec_table_rows(keys@, t@),
            row_views(rows@) == r0 + all.take(idx as int),
        decreases t.values@.len() - idx,
    {
        let (i, j, l) = table_position(t, idx);
        let row = TableRow {
            cell: keys.cell.clone(),
            pin: keys.pin.clone(),
            related_pin: clone_opt(&keys.related_pin),
            timing_type: clone_opt(&keys.timing_type),
            related_pg_pin: clone_opt(&keys.related_pg_pin),
            when: clone_opt(&keys.when),
            table: t.name.clone(),
            index_1: item_at_exec(&t.index_1, i),
            index_2: item_at_exec(&t.index_2, j),
            index_3: item_at_exec(&t.index_3, l),
            row: i,
            col: j,
            depth: l,
            value: t.values[idx].clone(),
        };
        let ghost before = rows@;
        rows.push(row);
        proof {
            assert(row@ == table_row(keys@, t@, idx as int));
            assert(row_views(rows@) =~= row_views(before).push(row@));
            assert(all.take(idx + 1) =~= all.take(idx as int).push(all[idx as int]));
        }
        idx = idx + 1;
    }
    assert(all.take(idx as int) =~= all);
}

impl TimingTableData {
    /// The rows of this table alone: empty cell and pin, no group keys.
    pub fn rows(&self) -> (r: Vec<TableRow>)
        ensures
            row_views(r@) == spec_table_rows(
                SpecKeys {
                    cell: Seq::empty(),
                    pin: Seq::empty(),
                    related_pin: None,
                    timing_type: None,
                    related_pg_pin: None,
                    when: None,
                },
                self@,
            ),
    {
        let keys = RowKeys {
            cell: String::new(),
            pin: String::new(),
            related_pin: None,
            timing_type: None,
            related_pg_pin: None,
            when: None,
        };
        let mut r: Vec<TableRow> = Vec::new();
        append_table_rows(&keys, self, &mut r);
        assert(row_views(Seq::<TableRow>::empty()) =~= Seq::<SpecRow>::empty());
        r
    }
}

} // verus!
