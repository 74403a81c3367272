//! Narrowing a table query keeps a subsequence of its rows: a filter that is
//! added (or a `None` made a value) only removes rows, never adds or reorders
//! them.
use vstd::prelude::*;
use crate::data::{Text, SpecCell, SpecPin, SpecBus, SpecBundle, SpecArc, SpecPower, SpecTable};
use crate::query::{spec_matches, arc_selected, power_selected};
use crate::rows::{SpecKeys, SpecRow, spec_table_rows};
use crate::tables::{
    SpecQuery, arc_keys, power_keys, tables_rows, arcs_rows, pins_rows, buses_rows, bundles_rows,
    timing_rows, powers_rows, power_pins_rows, power_buses_rows, power_bundles_rows, power_rows,
};

verus! {

/// `f` embeds `a` in `b`: it maps the positions of `a`, in increasing order,
/// to positions of `b` holding the same items.
pub open spec fn embeds<A>(a: Seq<A>, b: Seq<A>, f: spec_fn(int) -> int) -> bool {
    &&& forall|i: int| 0 <= i < a.len() ==> 0 <= #[trigger] f(i) < b.len() && b[f(i)] == a[i]
    &&& forall|i: int, j: int| 0 <= i < j < a.len() ==> #[trigger] f(i) < #[trigger] f(j)
}

/// `a` is a subsequence of `b`: its items occur in `b` in the same order.
pub open spec fn is_subseq<A>(a: Seq<A>, b: Seq<A>) -> bool {
    exists|f: spec_fn(int) -> int| embeds(a, b, f)
}

/// A filter that is the same or narrower: none before, or the same value.
pub open spec fn narrows<T>(narrow: Option<T>, wide: Option<T>) -> bool {
    wide is None || narrow == wide
}

/// Query `q2` narrows `q1`: each of its filters is the same as in `q1` or set
/// where `q1` has none.
pub open spec fn query_narrows(q2: SpecQuery, q1: SpecQuery) -> bool {
    &&& narrows(q2.cell, q1.cell)
    &&& narrows(q2.pin, q1.pin)
    &&& narrows(q2.related_pin, q1.related_pin)
    &&& narrows(q2.timing_type, q1.timing_type)
    &&& narrows(q2.related_pg_pin, q1.related_pg_pin)
    &&& narrows(q2.when, q1.when)
    &&& narrows(q2.table, q1.table)
}

proof fn lemma_subseq_empty<A>(b: Seq<A>)
    ensures
        is_subseq(Seq::<A>::empty(), b),
{
    let f = |i: int| i;
    assert(embeds(Seq::<A>::empty(), b, f));
}

proof fn lemma_subseq_refl<A>(a: Seq<A>)
    ensures
        is_subseq(a, a),
{
    let f = |i: int| i;
    assert(embeds(a, a, f));
}

proof fn lemma_subseq_concat<A>(a1: Seq<A>, a2: Seq<A>, b1: Seq<A>, b2: Seq<A>)
    requires
        is_subseq(a1, b1),
        is_subseq(a2, b2),
    ensures
        is_subseq(a1 + a2, b1 + b2),
{
    let f1 = choose|f: spec_fn(int) -> int| embeds(a1, b1, f);
    let f2 = choose|f: spec_fn(int) -> int| embeds(a2, b2, f);
    let a = a1 + a2;
    let b = b1 + b2;
    let f = |i: int| if i < a1.len() { f1(i) } else { b1.len() + f2(i - a1.len()) };
    assert forall|i: int| 0 <= i < a.len() implies 0 <= #[trigger] f(i) < b.len() && b[f(i)] == a[i] by {
        if i < a1.len() {
            assert(0 <= f1(i) < b1.len() && b1[f1(i)] == a1[i]);
        } else {
            let k = i - a1.len();
            assert(0 <= f2(k) < b2.len() && b2[f2(k)] == a2[k]);
        }
    }
    assert forall|i: int, j: int| 0 <= i < j < a.len() implies #[trigger] f(i) < #[trigger] f(j) by {
        if j < a1.len() {
            assert(f1(i) < f1(j));
        } else if i < a1.len() {
            assert(0 <= f1(i) < b1.len());
            assert(0 <= f2(j - a1.len()));
        } else {
            assert(f2(i - a1.len()) < f2(j - a1.len()));
        }
    }
    assert(embeds(a, b, f));
}

proof fn lemma_narrow_matches(q2: SpecQuery, q1: SpecQuery, x: SpecArc)
    requires
        query_narrows(q2, q1),
    ensures
        arc_selected(q2.related_pin, q2.timing_type, q2.when, x) ==> arc_selected(
            q1.related_pin,
            q1.timing_type,
            q1.when,
            x,
        ),
{
}

proof fn lemma_narrow_power(q2: SpecQuery, q1: SpecQuery, x: SpecPower)
    requires
        query_narrows(q2, q1),
    ensures
        power_selected(q2.related_pin, q2.related_pg_pin, q2.when, x) ==> power_selected(
            q1.related_pin,
            q1.related_pg_pin,
            q1.when,
            x,
        ),
{
}

proof fn lemma_tables_narrow(k: SpecKeys, s: Seq<SpecTable>, q1: SpecQuery, q2: SpecQuery)
    requires
        query_narrows(q2, q1),
    ensures
        is_subseq(tables_rows(k, s, q2), tables_rows(k, s, q1)),
    decreases s.len(),
{
    if s.len() == 0 {
        lemma_subseq_empty(tables_rows(k, s, q1));
    } else {
        let x = s.last();
        lemma_tables_narrow(k, s.drop_last(), q1, q2);
        assert(is_subseq((if spec_matches(q2.table, x.name) {
                spec_table_rows(k, x)
            } else {
                Seq::empty()
            }), (if spec_matches(q1.table, x.name) {
                spec_table_rows(k, x)
            } else {
                Seq::empty()
            }))) by {
            if spec_matches(q2.table, x.name) {
                lemma_subseq_refl(spec_table_rows(k, x));
            } else {
                lemma_subseq_empty((if spec_matches(q1.table, x.name) {
                spec_table_rows(k, x)
            } else {
                Seq::empty()
            }));
            }
        }
        lemma_subseq_concat(
            tables_rows(k, s.drop_last(), q2),
            (if spec_matches(q2.table, x.name) {
                spec_table_rows(k, x)
            } else {
                Seq::empty()
            }),
            tables_rows(k, s.drop_last(), q1),
            (if spec_matches(q1.table, x.name) {
                spec_table_rows(k, x)
            } else {
                Seq::empty()
            }),
        );
    }
}

proof fn lemma_arcs_narrow(cell: Text, pin: Text, s: Seq<SpecArc>, q1: SpecQuery, q2: SpecQuery)
    requires
        query_narrows(q2, q1),
    ensures
        is_subseq(arcs_rows(cell, pin, s, q2), arcs_rows(cell, pin, s, q1)),
    decreases s.len(),
{
    if s.len() == 0 {
        lemma_subseq_empty(arcs_rows(cell, pin, s, q1));
    } else {
        let x = s.last();
        lemma_arcs_narrow(cell, pin, s.drop_last(), q1, q2);
        assert(is_subseq((if arc_selected(q2.related_pin, q2.timing_type, q2.when, x) {
                tables_rows(arc_keys(cell, pin, x), x.tables, q2)
            } else {
                Seq::empty()
            }), (if arc_selected(q1.related_pin, q1.timing_type, q1.when, x) {
                tables_rows(arc_keys(cell, pin, x), x.tables, q1)
            } else {
                Seq::empty()
            }))) by {
            lemma_narrow_matches(q2, q1, x);
            if arc_selected(q2.related_pin, q2.timing_type, q2.when, x) {
                lemma_tables_narrow(arc_keys(cell, pin, x), x.tables, q1, q2);
            } else {
                lemma_subseq_empty((if arc_selected(q1.related_pin, q1.timing_type, q1.when, x) {
                tables_rows(arc_keys(cell, pin, x), x.tables, q1)
            } else {
                Seq::empty()
            }));
            }
        }
        lemma_subseq_concat(
            arcs_rows(cell, pin, s.drop_last(), q2),
            (if arc_selected(q2.related_pin, q2.timing_type, q2.when, x) {
                tables_rows(arc_keys(cell, pin, x), x.tables, q2)
            } else {
                Seq::empty()
            }),
            arcs_rows(cell, pin, s.drop_last(), q1),
            (if arc_selected(q1.related_pin, q1.timing_type, q1.when, x) {
                tables_rows(arc_keys(cell, pin, x), x.tables, q1)
            } else {
                Seq::empty()
            }),
        );
    }
}

proof fn lemma_pins_narrow(cell: Text, s: Seq<SpecPin>, q1: SpecQuery, q2: SpecQuery)
    requires
        query_narrows(q2, q1),
    ensures
        is_subseq(pins_rows(cell, s, q2), pins_rows(cell, s, q1)),
    decreases s.len(),
{
    if s.len() == 0 {
        lemma_subseq_empty(pins_rows(cell, s, q1));
    } else {
        let x = s.last();
        lemma_pins_narrow(cell, s.drop_last(), q1, q2);
        assert(is_subseq((if spec_matches(q2.pin, x.name) {
                arcs_rows(cell, x.name, x.timing_arcs, q2)
            } else {
                Seq::empty()
            }), (if spec_matches(q1.pin, x.name) {
                arcs_rows(cell, x.name, x.timing_arcs, q1)
            } else {
                Seq::empty()
            }))) by {
            if spec_matches(q2.pin, x.name) {
                lemma_arcs_narrow(cell, x.name, x.timing_arcs, q1, q2);
            } else {
                lemma_subseq_empty((if spec_matches(q1.pin, x.name) {
                arcs_rows(cell, x.name, x.timing_arcs, q1)
            } else {
                Seq::empty()
            }));
            }
        }
        lemma_subseq_concat(
            pins_rows(cell, s.drop_last(), q2),
            (if spec_matches(q2.pin, x.name) {
                arcs_rows(cell, x.name, x.timing_arcs, q2)
            } else {
                Seq::empty()
            }),
            pins_rows(cell, s.drop_last(), q1),
            (if spec_matches(q1.pin, x.name) {
                arcs_rows(cell, x.name, x.timing_arcs, q1)
            } else {
                Seq::empty()
            }),
        );
    }
}

proof fn lemma_buses_narrow(cell: Text, s: Seq<SpecBus>, q1: SpecQuery, q2: SpecQuery)
    requires
        query_narrows(q2, q1),
    ensures
        is_subseq(buses_rows(cell, s, q2), buses_rows(cell, s, q1)),
    decreases s.len(),
{
    if s.len() == 0 {
        lemma_subseq_empty(buses_rows(cell, s, q1));
    } else {
        let x = s.last();
        lemma_buses_narrow(cell, s.drop_last(), q1, q2);
        assert(is_subseq(((if spec_matches(q2.pin, x.name) {
                arcs_rows(cell, x.name, x.timing_arcs, q2)
            } else {
                Seq::empty()
            }) + pins_rows(cell, x.pins, q2)), ((if spec_matches(q1.pin, x.name) {
                arcs_rows(cell, x.name, x.timing_arcs, q1)
            } else {
                Seq::empty()
            }) + pins_rows(cell, x.pins, q1)))) by {
            if spec_matches(q2.pin, x.name) {
                lemma_arcs_narrow(cell, x.name, x.timing_arcs, q1, q2);
            } else {
                lemma_subseq_empty((if spec_matches(q1.pin, x.name) {
                arcs_rows(cell, x.name, x.timing_arcs, q1)
            } else {
                Seq::empty()
            }));
            }
            lemma_pins_narrow(cell, x.pins, q1, q2);
            lemma_subseq_concat((if spec_matches(q2.pin, x.name) {
                arcs_rows(cell, x.name, x.timing_arcs, q2)
            } else {
                Seq::empty()
            }), pins_rows(cell, x.pins, q2), (if spec_matches(q1.pin, x.name) {
                arcs_rows(cell, x.name, x.timing_arcs, q1)
            } else {
                Seq::empty()
            }), pins_rows(cell, x.pins, q1));
        }
        lemma_subseq_concat(
            buses_rows(cell, s.drop_last(), q2),
            ((if spec_matches(q2.pin, x.name) {
                arcs_rows(cell, x.name, x.timing_arcs, q2)
            } else {
                Seq::empty()
            }) + pins_rows(cell, x.pins, q2)),
            buses_rows(cell, s.drop_last(), q1),
            ((if spec_matches(q1.pin, x.name) {
                arcs_rows(cell, x.name, x.timing_arcs, q1)
            } else {
                Seq::empty()
            }) + pins_rows(cell, x.pins, q1)),
        );
    }
}

proof fn lemma_bundles_narrow(cell: Text, s: Seq<SpecBundle>, q1: SpecQuery, q2: SpecQuery)
    requires
        query_narrows(q2, q1),
    ensures
        is_subseq(bundles_rows(cell, s, q2), bundles_rows(cell, s, q1)),
    decreases s.len(),
{
    if s.len() == 0 {
        lemma_subseq_empty(bundles_rows(cell, s, q1));
    } else {
        let x = s.last();
        lemma_bundles_narrow(cell, s.drop_last(), q1, q2);
        assert(is_subseq(((if spec_matches(q2.pin, x.name) {
                arcs_rows(cell, x.name, x.timing_arcs, q2)
            } else {
                Seq::empty()
            }) + pins_rows(cell, x.pins, q2)), ((if spec_matches(q1.pin, x.name) {
                arcs_rows(cell, x.name, x.timing_arcs, q1)
            } else {
                Seq::empty()
            }) + pins_rows(cell, x.pins, q1)))) by {
            if spec_matches(q2.pin, x.name) {
                lemma_arcs_narrow(cell, x.name, x.timing_arcs, q1, q2);
            } else {
                lemma_subseq_empty((if spec_matches(q1.pin, x.name) {
                arcs_rows(cell, x.name, x.timing_arcs, q1)
            } else {
                Seq::empty()
            }));
            }
            lemma_pins_narrow(cell, x.pins, q1, q2);
            lemma_subseq_concat((if spec_matches(q2.pin, x.name) {
                arcs_rows(cell, x.name, x.timing_arcs, q2)
            } else {
                Seq::empty()
            }), pins_rows(cell, x.pins, q2), (if spec_matches(q1.pin, x.name) {
                arcs_rows(cell, x.name, x.timing_arcs, q1)
            } else {
                Seq::empty()
            }), pins_rows(cell, x.pins, q1));
        }
        lemma_subseq_concat(
            bundles_rows(cell, s.drop_last(), q2),
            ((if spec_matches(q2.pin, x.name) {
                arcs_rows(cell, x.name, x.timing_arcs, q2)
            } else {
                Seq::empty()
            }) + pins_rows(cell, x.pins, q2)),
            bundles_rows(cell, s.drop_last(), q1),
            ((if spec_matches(q1.pin, x.name) {
                arcs_rows(cell, x.name, x.timing_arcs, q1)
            } else {
                Seq::empty()
            }) + pins_rows(cell, x.pins, q1)),
        );
    }
}

proof fn lemma_timing_narrow(s: Seq<SpecCell>, q1: SpecQuery, q2: SpecQuery)
    requires
        query_narrows(q2, q1),
    ensures
        is_subseq(timing_rows(s, q2), timing_rows(s, q1)),
    decreases s.len(),
{
    if s.len() == 0 {
        lemma_subseq_empty(timing_rows(s, q1));
    } else {
        let x = s.last();
        lemma_timing_narrow(s.drop_last(), q1, q2);
        assert(is_subseq((if spec_matches(q2.cell, x.name) {
                pins_rows(x.name, x.pins, q2) + buses_rows(x.name, x.buses, q2) + bundles_rows(x.name, x.bundles, q2)
            } else {
                Seq::empty()
            }), (if spec_matches(q1.cell, x.name) {
                pins_rows(x.name, x.pins, q1) + buses_rows(x.name, x.buses, q1) + bundles_rows(x.name, x.bundles, q1)
            } else {
                Seq::empty()
            }))) by {
            if spec_matches(q2.cell, x.name) {
                lemma_pins_narrow(x.name, x.pins, q1, q2);
                lemma_buses_narrow(x.name, x.buses, q1, q2);
                lemma_bundles_narrow(x.name, x.bundles, q1, q2);
                lemma_subseq_concat(pins_rows(x.name, x.pins, q2), buses_rows(x.name, x.buses, q2),
                    pins_rows(x.name, x.pins, q1), buses_rows(x.name, x.buses, q1));
                lemma_subseq_concat(
                    pins_rows(x.name, x.pins, q2) + buses_rows(x.name, x.buses, q2),
                    bundles_rows(x.name, x.bundles, q2),
                    pins_rows(x.name, x.pins, q1) + buses_rows(x.name, x.buses, q1),
                    bundles_rows(x.name, x.bundles, q1),
                );
            } else {
                lemma_subseq_empty((if spec_matches(q1.cell, x.name) {
                pins_rows(x.name, x.pins, q1) + buses_rows(x.name, x.buses, q1) + bundles_rows(x.name, x.bundles, q1)
            } else {
                Seq::empty()
            }));
            }
        }
        lemma_subseq_concat(
            timing_rows(s.drop_last(), q2),
            (if spec_matches(q2.cell, x.name) {
                pins_rows(x.name, x.pins, q2) + buses_rows(x.name, x.buses, q2) + bundles_rows(x.name, x.bundles, q2)
            } else {
                Seq::empty()
            }),
            timing_rows(s.drop_last(), q1),
            (if spec_matches(q1.cell, x.name) {
                pins_rows(x.name, x.pins, q1) + buses_rows(x.name, x.buses, q1) + bundles_rows(x.name, x.bundles, q1)
            } else {
                Seq::empty()
            }),
        );
    }
}

proof fn lemma_powers_narrow(cell: Text, pin: Text, s: Seq<SpecPower>, q1: SpecQuery, q2: SpecQuery)
    requires
        query_narrows(q2, q1),
    ensures
        is_subseq(powers_rows(cell, pin, s, q2), powers_rows(cell, pin, s, q1)),
    decreases s.len(),
{
    if s.len() == 0 {
        lemma_subseq_empty(powers_rows(cell, pin, s, q1));
    } else {
        let x = s.last();
        lemma_powers_narrow(cell, pin, s.drop_last(), q1, q2);
        assert(is_subseq((if power_selected(q2.related_pin, q2.related_pg_pin, q2.when, x) {
                tables_rows(power_keys(cell, pin, x), x.tables, q2)
            } else {
                Seq::empty()
            }), (if power_selected(q1.related_pin, q1.related_pg_pin, q1.when, x) {
                tables_rows(power_keys(cell, pin, x), x.tables, q1)
            } else {
                Seq::empty()
            }))) by {
            lemma_narrow_power(q2, q1, x);
            if power_selected(q2.related_pin, q2.related_pg_pin, q2.when, x) {
                lemma_tables_narrow(power_keys(cell, pin, x), x.tables, q1, q2);
            } else {
                lemma_subseq_empty((if power_selected(q1.related_pin, q1.related_pg_pin, q1.when, x) {
                tables_rows(power_keys(cell, pin, x), x.tables, q1)
            } else {
                Seq::empty()
            }));
            }
        }
        lemma_subseq_concat(
            powers_rows(cell, pin, s.drop_last(), q2),
            (if power_selected(q2.related_pin, q2.related_pg_pin, q2.when, x) {
                tables_rows(power_keys(cell, pin, x), x.tables, q2)
            } else {
                Seq::empty()
            }),
            powers_rows(cell, pin, s.drop_last(), q1),
            (if power_selected(q1.related_pin, q1.related_pg_pin, q1.when, x) {
                tables_rows(power_keys(cell, pin, x), x.tables, q1)
            } else {
                Seq::empty()
            }),
        );
    }
}

proof fn lemma_power_pins_narrow(cell: Text, s: Seq<SpecPin>, q1: SpecQuery, q2: SpecQuery)
    requires
        query_narrows(q2, q1),
    ensures
        is_subseq(power_pins_rows(cell, s, q2), power_pins_rows(cell, s, q1)),
    decreases s.len(),
{
    if s.len() == 0 {
        lemma_subseq_empty(power_pins_rows(cell, s, q1));
    } else {
        let x = s.last();
        lemma_power_pins_narrow(cell, s.drop_last(), q1, q2);
        assert(is_subseq((if spec_matches(q2.pin, x.name) {
                powers_rows(cell, x.name, x.internal_powers, q2)
            } else {
                Seq::empty()
            }), (if spec_matches(q1.pin, x.name) {
                powers_rows(cell, x.name, x.internal_powers, q1)
            } else {
                Seq::empty()
            }))) by {
            if spec_matches(q2.pin, x.name) {
                lemma_powers_narrow(cell, x.name, x.internal_powers, q1, q2);
            } else {
                lemma_subseq_empty((if spec_matches(q1.pin, x.name) {
                powers_rows(cell, x.name, x.internal_powers, q1)
            } else {
                Seq::empty()
            }));
            }
        }
        lemma_subseq_concat(
            power_pins_rows(cell, s.drop_last(), q2),
            (if spec_matches(q2.pin, x.name) {
                powers_rows(cell, x.name, x.internal_powers, q2)
            } else {
                Seq::empty()
            }),
            power_pins_rows(cell, s.drop_last(), q1),
            (if spec_matches(q1.pin, x.name) {
                powers_rows(cell, x.name, x.internal_powers, q1)
            } else {
                Seq::empty()
            }),
        );
    }
}

proof fn lemma_power_buses_narrow(cell: Text, s: Seq<SpecBus>, q1: SpecQuery, q2: SpecQuery)
    requires
        query_narrows(q2, q1),
    ensures
        is_subseq(power_buses_rows(cell, s, q2), power_buses_rows(cell, s, q1)),
    decreases s.len(),
{
    if s.len() == 0 {
        lemma_subseq_empty(power_buses_rows(cell, s, q1));
    } else {
        let x = s.last();
        lemma_power_buses_narrow(cell, s.drop_last(), q1, q2);
        assert(is_subseq((power_pins_rows(cell, x.pins, q2)), (power_pins_rows(cell, x.pins, q1)))) by {
            lemma_power_pins_narrow(cell, x.pins, q1, q2);
        }
        lemma_subseq_concat(
            power_buses_rows(cell, s.drop_last(), q2),
            (power_pins_rows(cell, x.pins, q2)),
            power_buses_rows(cell, s.drop_last(), q1),
            (power_pins_rows(cell, x.pins, q1)),
        );
    }
}

proof fn lemma_power_bundles_narrow(cell: Text, s: Seq<SpecBundle>, q1: SpecQuery, q2: SpecQuery)
    requires
        query_narrows(q2, q1),
    ensures
        is_subseq(power_bundles_rows(cell, s, q2), power_bundles_rows(cell, s, q1)),
    decreases s.len(),
{
    if s.len() == 0 {
        lemma_subseq_empty(power_bundles_rows(cell, s, q1));
    } else {
        let x = s.last();
        lemma_power_bundles_narrow(cell, s.drop_last(), q1, q2);
        assert(is_subseq((power_pins_rows(cell, x.pins, q2)), (power_pins_rows(cell, x.pins, q1)))) by {
            lemma_power_pins_narrow(cell, x.pins, q1, q2);
        }
        lemma_subseq_concat(
            power_bundles_rows(cell, s.drop_last(), q2),
            (power_pins_rows(cell, x.pins, q2)),
            power_bundles_rows(cell, s.drop_last(), q1),
            (power_pins_rows(cell, x.pins, q1)),
        );
    }
}

proof fn lemma_power_narrow(s: Seq<SpecCell>, q1: SpecQuery, q2: SpecQuery)
    requires
        query_narrows(q2, q1),
    ensures
        is_subseq(power_rows(s, q2), power_rows(s, q1)),
    decreases s.len(),
{
    if s.len() == 0 {
        lemma_subseq_empty(power_rows(s, q1));
    } else {
        let x = s.last();
        lemma_power_narrow(s.drop_last(), q1, q2);
        assert(is_subseq((if spec_matches(q2.cell, x.name) {
                power_pins_rows(x.name, x.pins, q2) + power_buses_rows(x.name, x.buses, q2)
                    + power_bundles_rows(x.name, x.bundles, q2)
            } else {
                Seq::empty()
            }), (if spec_matches(q1.cell, x.name) {
                power_pins_rows(x.name, x.pins, q1) + power_buses_rows(x.name, x.buses, q1)
                    + power_bundles_rows(x.name, x.bundles, q1)
            } else {
                Seq::empty()
            }))) by {
            if spec_matches(q2.cell, x.name) {
                lemma_power_pins_narrow(x.name, x.pins, q1, q2);
                lemma_power_buses_narrow(x.name, x.buses, q1, q2);
                lemma_power_bundles_narrow(x.name, x.bundles, q1, q2);
                lemma_subseq_concat(
                    power_pins_rows(x.name, x.pins, q2),
                    power_buses_rows(x.name, x.buses, q2),
                    power_pins_rows(x.name, x.pins, q1),
                    power_buses_rows(x.name, x.buses, q1),
                );
                lemma_subseq_concat(
                    power_pins_rows(x.name, x.pins, q2) + power_buses_rows(x.name, x.buses, q2),
                    power_bundles_rows(x.name, x.bundles, q2),
                    power_pins_rows(x.name, x.pins, q1) + power_buses_rows(x.name, x.buses, q1),
                    power_bundles_rows(x.name, x.bundles, q1),
                );
            } else {
                lemma_subseq_empty((if spec_matches(q1.cell, x.name) {
                power_pins_rows(x.name, x.pins, q1) + power_buses_rows(x.name, x.buses, q1)
                    + power_bundles_rows(x.name, x.bundles, q1)
            } else {
                Seq::empty()
            }));
            }
        }
        lemma_subseq_concat(
            power_rows(s.drop_last(), q2),
            (if spec_matches(q2.cell, x.name) {
                power_pins_rows(x.name, x.pins, q2) + power_buses_rows(x.name, x.buses, q2)
                    + power_bundles_rows(x.name, x.bundles, q2)
            } else {
                Seq::empty()
            }),
            power_rows(s.drop_last(), q1),
            (if spec_matches(q1.cell, x.name) {
                power_pins_rows(x.name, x.pins, q1) + power_buses_rows(x.name, x.buses, q1)
                    + power_bundles_rows(x.name, x.bundles, q1)
            } else {
                Seq::empty()
            }),
        );
    }
}

/// Narrowing a timing-table query (adding a filter, or giving a value where
/// there was none) keeps a subsequence of its rows: rows are only removed,
/// never added or reordered.
pub proof fn lemma_narrower_timing_query_keeps_subsequence(
    cs: Seq<SpecCell>,
    q1: SpecQuery,
    q2: SpecQuery,
)
    requires
        query_narrows(q2, q1),
    ensures
        is_subseq(timing_rows(cs, q2), timing_rows(cs, q1)),
{
    lemma_timing_narrow(cs, q1, q2);
}

/// Narrowing an `internal_power` table query keeps a subsequence of its rows.
pub proof fn lemma_narrower_power_query_keeps_subsequence(
    cs: Seq<SpecCell>,
    q1: SpecQuery,
    q2: SpecQuery,
)
    requires
        query_narrows(q2, q1),
    ensures
        is_subseq(power_rows(cs, q2), power_rows(cs, q1)),
{
    lemma_power_narrow(cs, q1, q2);
}

} // verus!
