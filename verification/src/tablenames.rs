//! Laws of the timing tables of an arc: the groups that are kept as tables,
//! and the rise/fall pairing of their names.
use vstd::prelude::*;
use crate::data::Text;
use crate::data::SpecArc;
use crate::parser::{
    is_timing_table_name, Input, SpecHead, spec_head, spec_consume, spec_timing_item,
    spec_timing_items, spec_table_body, first_opt, is_sym,
};

verus! {

/// `s` with every `rise` written `fall` and every `fall` written `rise`,
/// reading from the left.
pub open spec fn swap_rise_fall(s: Seq<char>) -> Seq<char>
    decreases s.len(),
{
    if s.len() >= 4 && s[0] == 'r' && s[1] == 'i' && s[2] == 's' && s[3] == 'e' {
        seq!['f', 'a', 'l', 'l'] + swap_rise_fall(s.subrange(4, s.len() as int))
    } else if s.len() >= 4 && s[0] == 'f' && s[1] == 'a' && s[2] == 'l' && s[3] == 'l' {
        seq!['r', 'i', 's', 'e'] + swap_rise_fall(s.subrange(4, s.len() as int))
    } else if s.len() == 0 {
        s
    } else {
        seq![s[0]] + swap_rise_fall(s.subrange(1, s.len() as int))
    }
}

proof fn lemma_twin_cell_rise()
    ensures
        swap_rise_fall("cell_rise"@) == "cell_fall"@,
{
    reveal_strlit("cell_rise");
    reveal_strlit("cell_fall");
    reveal_with_fuel(swap_rise_fall, 30);
    assert(swap_rise_fall("cell_rise"@) =~= "cell_fall"@);
}

proof fn lemma_twin_cell_fall()
    ensures
        swap_rise_fall("cell_fall"@) == "cell_rise"@,
{
    reveal_strlit("cell_fall");
    reveal_strlit("cell_rise");
    reveal_with_fuel(swap_rise_fall, 30);
    assert(swap_rise_fall("cell_fall"@) =~= "cell_rise"@);
}

proof fn lemma_twin_rise_transition()
    ensures
        swap_rise_fall("rise_transition"@) == "fall_transition"@,
{
    reveal_strlit("rise_transition");
    reveal_strlit("fall_transition");
    reveal_with_fuel(swap_rise_fall, 30);
    assert(swap_rise_fall("rise_transition"@) =~= "fall_transition"@);
}

proof fn lemma_twin_fall_transition()
    ensures
        swap_rise_fall("fall_transition"@) == "rise_transition"@,
{
    reveal_strlit("fall_transition");
    reveal_strlit("rise_transition");
    reveal_with_fuel(swap_rise_fall, 30);
    assert(swap_rise_fall("fall_transition"@) =~= "rise_transition"@);
}

proof fn lemma_twin_rise_constraint()
    ensures
        swap_rise_fall("rise_constraint"@) == "fall_constraint"@,
{
    reveal_strlit("rise_constraint");
    reveal_strlit("fall_constraint");
    reveal_with_fuel(swap_rise_fall, 30);
    assert(swap_rise_fall("rise_constraint"@) =~= "fall_constraint"@);
}

proof fn lemma_twin_fall_constraint()
    ensures
        swap_rise_fall("fall_constraint"@) == "rise_constraint"@,
{
    reveal_strlit("fall_constraint");
    reveal_strlit("rise_constraint");
    reveal_with_fuel(swap_rise_fall, 30);
    assert(swap_rise_fall("fall_constraint"@) =~= "rise_constraint"@);
}

proof fn lemma_twin_cell_degradation()
    ensures
        swap_rise_fall("cell_degradation"@) == "cell_degradation"@,
{
    reveal_strlit("cell_degradation");
    reveal_with_fuel(swap_rise_fall, 30);
    assert(swap_rise_fall("cell_degradation"@) =~= "cell_degradation"@);
}

proof fn lemma_twin_retaining_rise()
    ensures
        swap_rise_fall("retaining_rise"@) == "retaining_fall"@,
{
    reveal_strlit("retaining_rise");
    reveal_strlit("retaining_fall");
    reveal_with_fuel(swap_rise_fall, 30);
    assert(swap_rise_fall("retaining_rise"@) =~= "retaining_fall"@);
}

proof fn lemma_twin_retaining_fall()
    ensures
        swap_rise_fall("retaining_fall"@) == "retaining_rise"@,
{
    reveal_strlit("retaining_fall");
    reveal_strlit("retaining_rise");
    reveal_with_fuel(swap_rise_fall, 30);
    assert(swap_rise_fall("retaining_fall"@) =~= "retaining_rise"@);
}

proof fn lemma_twin_retain_rise_slew()
    ensures
        swap_rise_fall("retain_rise_slew"@) == "retain_fall_slew"@,
{
    reveal_strlit("retain_rise_slew");
    reveal_strlit("retain_fall_slew");
    reveal_with_fuel(swap_rise_fall, 30);
    assert(swap_rise_fall("retain_rise_slew"@) =~= "retain_fall_slew"@);
}

proof fn lemma_twin_retain_fall_slew()
    ensures
        swap_rise_fall("retain_fall_slew"@) == "retain_rise_slew"@,
{
    reveal_strlit("retain_fall_slew");
    reveal_strlit("retain_rise_slew");
    reveal_with_fuel(swap_rise_fall, 30);
    assert(swap_rise_fall("retain_fall_slew"@) =~= "retain_rise_slew"@);
}

proof fn lemma_twin_output_current_rise()
    ensures
        swap_rise_fall("output_current_rise"@) == "output_current_fall"@,
{
    reveal_strlit("output_current_rise");
    reveal_strlit("output_current_fall");
    reveal_with_fuel(swap_rise_fall, 30);
    assert(swap_rise_fall("output_current_rise"@) =~= "output_current_fall"@);
}

proof fn lemma_twin_output_current_fall()
    ensures
        swap_rise_fall("output_current_fall"@) == "output_current_rise"@,
{
    reveal_strlit("output_current_fall");
    reveal_strlit("output_current_rise");
    reveal_with_fuel(swap_rise_fall, 30);
    assert(swap_rise_fall("output_current_fall"@) =~= "output_current_rise"@);
}

proof fn lemma_twin_ccst_rise()
    ensures
        swap_rise_fall("ccst_rise"@) == "ccst_fall"@,
{
    reveal_strlit("ccst_rise");
    reveal_strlit("ccst_fall");
    reveal_with_fuel(swap_rise_fall, 30);
    assert(swap_rise_fall("ccst_rise"@) =~= "ccst_fall"@);
}

proof fn lemma_twin_ccst_fall()
    ensures
        swap_rise_fall("ccst_fall"@) == "ccst_rise"@,
{
    reveal_strlit("ccst_fall");
    reveal_strlit("ccst_rise");
    reveal_with_fuel(swap_rise_fall, 30);
    assert(swap_rise_fall("ccst_fall"@) =~= "ccst_rise"@);
}

proof fn lemma_twin_ccsp_rise()
    ensures
        swap_rise_fall("ccsp_rise"@) == "ccsp_fall"@,
{
    reveal_strlit("ccsp_rise");
    reveal_strlit("ccsp_fall");
    reveal_with_fuel(swap_rise_fall, 30);
    assert(swap_rise_fall("ccsp_rise"@) =~= "ccsp_fall"@);
}

proof fn lemma_twin_ccsp_fall()
    ensures
        swap_rise_fall("ccsp_fall"@) == "ccsp_rise"@,
{
    reveal_strlit("ccsp_fall");
    reveal_strlit("ccsp_rise");
    reveal_with_fuel(swap_rise_fall, 30);
    assert(swap_rise_fall("ccsp_fall"@) =~= "ccsp_rise"@);
}

proof fn lemma_twin_ccsn_first_stage()
    ensures
        swap_rise_fall("ccsn_first_stage"@) == "ccsn_first_stage"@,
{
    reveal_strlit("ccsn_first_stage");
    reveal_with_fuel(swap_rise_fall, 30);
    assert(swap_rise_fall("ccsn_first_stage"@) =~= "ccsn_first_stage"@);
}

proof fn lemma_twin_ccsn_last_stage()
    ensures
        swap_rise_fall("ccsn_last_stage"@) == "ccsn_last_stage"@,
{
    reveal_strlit("ccsn_last_stage");
    reveal_with_fuel(swap_rise_fall, 30);
    assert(swap_rise_fall("ccsn_last_stage"@) =~= "ccsn_last_stage"@);
}

proof fn lemma_twin_ccsn_rise_first_stage()
    ensures
        swap_rise_fall("ccsn_rise_first_stage"@) == "ccsn_fall_first_stage"@,
{
    reveal_strlit("ccsn_rise_first_stage");
    reveal_strlit("ccsn_fall_first_stage");
    reveal_with_fuel(swap_rise_fall, 30);
    assert(swap_rise_fall("ccsn_rise_first_stage"@) =~= "ccsn_fall_first_stage"@);
}

proof fn lemma_twin_ccsn_rise_last_stage()
    ensures
        swap_rise_fall("ccsn_rise_last_stage"@) == "ccsn_fall_last_stage"@,
{
    reveal_strlit("ccsn_rise_last_stage");
    reveal_strlit("ccsn_fall_last_stage");
    reveal_with_fuel(swap_rise_fall, 30);
    assert(swap_rise_fall("ccsn_rise_last_stage"@) =~= "ccsn_fall_last_stage"@);
}

proof fn lemma_twin_ccsn_fall_first_stage()
    ensures
        swap_rise_fall("ccsn_fall_first_stage"@) == "ccsn_rise_first_stage"@,
{
    reveal_strlit("ccsn_fall_first_stage");
    reveal_strlit("ccsn_rise_first_stage");
    reveal_with_fuel(swap_rise_fall, 30);
    assert(swap_rise_fall("ccsn_fall_first_stage"@) =~= "ccsn_rise_first_stage"@);
}

proof fn lemma_twin_ccsn_fall_last_stage()
    ensures
        swap_rise_fall("ccsn_fall_last_stage"@) == "ccsn_rise_last_stage"@,
{
    reveal_strlit("ccsn_fall_last_stage");
    reveal_strlit("ccsn_rise_last_stage");
    reveal_with_fuel(swap_rise_fall, 30);
    assert(swap_rise_fall("ccsn_fall_last_stage"@) =~= "ccsn_rise_last_stage"@);
}

proof fn lemma_twin_receiver_capacitance1_rise()
    ensures
        swap_rise_fall("receiver_capacitance1_rise"@) == "receiver_capacitance1_fall"@,
{
    reveal_strlit("receiver_capacitance1_rise");
    reveal_strlit("receiver_capacitance1_fall");
    reveal_with_fuel(swap_rise_fall, 30);
    assert(swap_rise_fall("receiver_capacitance1_rise"@) =~= "receiver_capacitance1_fall"@);
}

proof fn lemma_twin_receiver_capacitance1_fall()
    ensures
        swap_rise_fall("receiver_capacitance1_fall"@) == "receiver_capacitance1_rise"@,
{
    reveal_strlit("receiver_capacitance1_fall");
    reveal_strlit("receiver_capacitance1_rise");
    reveal_with_fuel(swap_rise_fall, 30);
    assert(swap_rise_fall("receiver_capacitance1_fall"@) =~= "receiver_capacitance1_rise"@);
}

proof fn lemma_twin_receiver_capacitance2_rise()
    ensures
        swap_rise_fall("receiver_capacitance2_rise"@) == "receiver_capacitance2_fall"@,
{
    reveal_strlit("receiver_capacitance2_rise");
    reveal_strlit("receiver_capacitance2_fall");
    reveal_with_fuel(swap_rise_fall, 30);
    assert(swap_rise_fall("receiver_capacitance2_rise"@) =~= "receiver_capacitance2_fall"@);
}

proof fn lemma_twin_receiver_capacitance2_fall()
    ensures
        swap_rise_fall("receiver_capacitance2_fall"@) == "receiver_capacitance2_rise"@,
{
    reveal_strlit("receiver_capacitance2_fall");
    reveal_strlit("receiver_capacitance2_rise");
    reveal_with_fuel(swap_rise_fall, 30);
    assert(swap_rise_fall("receiver_capacitance2_fall"@) =~= "receiver_capacitance2_rise"@);
}

/// The timing tables come in rise/fall pairs: when a group in a timing arc is
/// kept as a table, so is the group named as its rise/fall twin
/// (`cell_rise` and `cell_fall`, `rise_transition` and `fall_transition`,
/// `retain_rise_slew` and `retain_fall_slew`, ...; a name with neither word
/// is its own twin).
pub proof fn lemma_timing_tables_pair_rise_and_fall(n: Text)
    ensures
        is_timing_table_name(n) ==> is_timing_table_name(swap_rise_fall(n)),
{
    if is_timing_table_name(n) {
        if n == "cell_rise"@ {
            lemma_twin_cell_rise();
        }
        if n == "cell_fall"@ {
            lemma_twin_cell_fall();
        }
        if n == "rise_transition"@ {
            lemma_twin_rise_transition();
        }
        if n == "fall_transition"@ {
            lemma_twin_fall_transition();
        }
        if n == "rise_constraint"@ {
            lemma_twin_rise_constraint();
        }
        if n == "fall_constraint"@ {
            lemma_twin_fall_constraint();
        }
        if n == "cell_degradation"@ {
            lemma_twin_cell_degradation();
        }
        if n == "retaining_rise"@ {
            lemma_twin_retaining_rise();
        }
        if n == "retaining_fall"@ {
            lemma_twin_retaining_fall();
        }
        if n == "retain_rise_slew"@ {
            lemma_twin_retain_rise_slew();
        }
        if n == "retain_fall_slew"@ {
            lemma_twin_retain_fall_slew();
        }
        if n == "output_current_rise"@ {
            lemma_twin_output_current_rise();
        }
        if n == "output_current_fall"@ {
            lemma_twin_output_current_fall();
        }
        if n == "ccst_rise"@ {
            lemma_twin_ccst_rise();
        }
        if n == "ccst_fall"@ {
            lemma_twin_ccst_fall();
        }
        if n == "ccsp_rise"@ {
            lemma_twin_ccsp_rise();
        }
        if n == "ccsp_fall"@ {
            lemma_twin_ccsp_fall();
        }
        if n == "ccsn_first_stage"@ {
            lemma_twin_ccsn_first_stage();
        }
        if n == "ccsn_last_stage"@ {
            lemma_twin_ccsn_last_stage();
        }
        if n == "ccsn_rise_first_stage"@ {
            lemma_twin_ccsn_rise_first_stage();
        }
        if n == "ccsn_rise_last_stage"@ {
            lemma_twin_ccsn_rise_last_stage();
        }
        if n == "ccsn_fall_first_stage"@ {
            lemma_twin_ccsn_fall_first_stage();
        }
        if n == "ccsn_fall_last_stage"@ {
            lemma_twin_ccsn_fall_last_stage();
        }
        if n == "receiver_capacitance1_rise"@ {
            lemma_twin_receiver_capacitance1_rise();
        }
        if n == "receiver_capacitance1_fall"@ {
            lemma_twin_receiver_capacitance1_fall();
        }
        if n == "receiver_capacitance2_rise"@ {
            lemma_twin_receiver_capacitance2_rise();
        }
        if n == "receiver_capacitance2_fall"@ {
            lemma_twin_receiver_capacitance2_fall();
        }
    }
}

proof fn lemma_timing_item_keeps_tables(inp: Input, i: int, acc: SpecArc)
    ensures
        spec_timing_item(inp, i, acc) matches Ok((a, _)) ==> acc.tables.len() <= a.tables.len()
            && a.tables.take(acc.tables.len() as int) == acc.tables,
{
    reveal(spec_head);
    if let Ok((a, _)) = spec_timing_item(inp, i, acc) {
        if a.tables.len() > acc.tables.len() {
            assert(a.tables.take(acc.tables.len() as int) =~= acc.tables);
        } else {
            assert(a.tables =~= acc.tables);
        }
    }
}

proof fn lemma_timing_items_keep_tables(inp: Input, i: int, acc: SpecArc)
    ensures
        spec_timing_items(inp, i, acc) matches Ok((a, _)) ==> acc.tables.len() <= a.tables.len()
            && a.tables.take(acc.tables.len() as int) == acc.tables,
    decreases inp.toks.len() - i,
{
    if let Ok((false, _)) = spec_consume(inp, i, 0x7d) {
        lemma_timing_item_keeps_tables(inp, i, acc);
        if let Ok((a1, j)) = spec_timing_item(inp, i, acc) {
            if i < j <= inp.toks.len() {
                lemma_timing_items_keep_tables(inp, j, a1);
                if let Ok((a, _)) = spec_timing_items(inp, j, a1) {
                    assert(a.tables.take(acc.tables.len() as int) =~= a.tables.take(
                        a1.tables.len() as int,
                    ).take(acc.tables.len() as int));
                }
            }
        }
    }
}

/// A group inside a timing group whose name is a timing table name is kept:
/// where the timing group's items from that group on parse, the arc's next
/// table is that group's body parsed as a table named after it, after the tables
/// before it, which stay as they were.
pub proof fn lemma_timing_table_groups_are_kept(inp: Input, i: int, acc: SpecArc)
    requires
        !is_sym(inp, i, 0x7d),
        spec_head(inp, i) matches Ok((SpecHead::Group(n, _), _)) && is_timing_table_name(n),
    ensures
        spec_timing_items(inp, i, acc) matches Ok((a, _)) ==> {
            &&& spec_head(inp, i) matches Ok((SpecHead::Group(n, args), j))
            &&& spec_table_body(inp, j, n, first_opt(args)) matches Ok((t, _))
            &&& acc.tables.len() < a.tables.len()
            &&& a.tables.take(acc.tables.len() as int) == acc.tables
            &&& a.tables[acc.tables.len() as int] == t
        },
{
    reveal(spec_head);
    if let Ok((a, _)) = spec_timing_items(inp, i, acc) {
        if let Ok((SpecHead::Group(n, args), j)) = spec_head(inp, i) {
            if let Ok((a1, k)) = spec_timing_item(inp, i, acc) {
                lemma_timing_items_keep_tables(inp, k, a1);
                if let Ok((t, _)) = spec_table_body(inp, j, n, first_opt(args)) {
                    assert(a1.tables == acc.tables.push(t));
                    if let Ok((a2, _)) = spec_timing_items(inp, k, a1) {
                        assert(a2.tables[acc.tables.len() as int] == a2.tables.take(
                            a1.tables.len() as int,
                        )[acc.tables.len() as int]);
                        assert(a2.tables.take(acc.tables.len() as int) =~= a2.tables.take(
                            a1.tables.len() as int,
                        ).take(acc.tables.len() as int));
                    }
                }
            }
        }
    }
}

} // verus!
