//! A parse depends on the token stream alone: two inputs whose tokens are the
//! same, wherever they stand in the text, give the same document, or errors
//! with the same message (the line and column may differ).
use vstd::prelude::*;
use crate::data::{
    Text, SpecTable, SpecArc, SpecPower, SpecPin, SpecBus, SpecBundle, SpecBusType, SpecTemplate,
    SpecPgCurrent, SpecSwitching, SpecDynamic, SpecCell, SpecDoc,
};
use crate::lexer::{SpecError, SpecKind, SpecToken, spec_lex, token_code};
use crate::parser::{
    Input, SpecHead, spec_advance, spec_consume, spec_expect, spec_take_word,
    spec_read_value, spec_args_from, spec_read_args, allows_spaces, token_text, spec_value_from,
    spec_skip_group, spec_head, skipped, first_or_empty,
    first_opt, new_table, new_pin, spec_table_item, spec_table_items,
    spec_table_body, spec_timing_item, spec_timing_items, spec_timing_body, spec_power_item,
    spec_power_items, spec_power_body, spec_pin_item, spec_pin_items, spec_pin_body,
    spec_bus_item, spec_bus_items, spec_bus_body, spec_bundle_item, spec_bundle_items,
    spec_bundle_body, spec_bus_type_item, spec_bus_type_items, spec_bus_type_body,
    spec_template_item, spec_template_items, spec_template_body, spec_pg_item, spec_pg_items,
    spec_pg_body, spec_switching_item, spec_switching_items, spec_switching_body,
    spec_dynamic_item, spec_dynamic_items, spec_dynamic_body, spec_cell_item, spec_cell_items,
    spec_cell_body, spec_library_item, spec_library_items, spec_doc_loop, spec_parse_tokens,
    spec_parse_bytes, input_of_bytes, empty_doc,
};

verus! {

/// Two token streams with the same tokens in the same order, both lexed to
/// the end without error.
pub open spec fn same_kinds(a: Input, b: Input) -> bool {
    &&& a.toks.len() == b.toks.len()
    &&& forall|k: int| 0 <= k < a.toks.len() ==> (#[trigger] a.toks[k]).kind == b.toks[k].kind
    &&& a.err is None
    &&& b.err is None
}

/// Two outcomes that agree: the same value, or errors with the same message.
pub open spec fn same_outcome<T>(r1: Result<T, SpecError>, r2: Result<T, SpecError>) -> bool {
    match r1 {
        Ok(v) => r2 == Ok::<T, SpecError>(v),
        Err(e) => r2 is Err && r2->Err_0.message == e.message,
    }
}

proof fn lemma_consume(a: Input, b: Input, i: int, s: u8)
    requires
        same_kinds(a, b),
    ensures
        spec_consume(a, i, s) == spec_consume(b, i, s),
{
    if 0 <= i < a.toks.len() {
        assert(a.toks[i].kind == b.toks[i].kind);
    }
}

proof fn lemma_expect(a: Input, b: Input, i: int, s: u8)
    requires
        same_kinds(a, b),
    ensures
        same_outcome(spec_expect(a, i, s), spec_expect(b, i, s)),
{
    lemma_consume(a, b, i, s);
}

proof fn lemma_take_word(a: Input, b: Input, i: int)
    requires
        same_kinds(a, b),
    ensures
        same_outcome(spec_take_word(a, i), spec_take_word(b, i)),
{
    if 0 <= i < a.toks.len() {
        assert(a.toks[i].kind == b.toks[i].kind);
    }
}

proof fn lemma_read_value(a: Input, b: Input, i: int)
    requires
        same_kinds(a, b),
    ensures
        same_outcome(spec_read_value(a, i), spec_read_value(b, i)),
{
    lemma_take_word(a, b, i);
    if let Ok((w, j)) = spec_take_word(a, i) {
        lemma_consume(a, b, j, 0x5b);
        if let Ok((true, k)) = spec_consume(a, j, 0x5b) {
            lemma_take_word(a, b, k);
            if let Ok((sel, m)) = spec_take_word(a, k) {
                lemma_expect(a, b, m, 0x5d);
            }
        }
    }
}

proof fn lemma_args_from(a: Input, b: Input, i: int, allow: bool, acc: Seq<Text>)
    requires
        same_kinds(a, b),
    ensures
        same_outcome(spec_args_from(a, i, allow, acc), spec_args_from(b, i, allow, acc)),
    decreases a.toks.len() - i,
{
    lemma_consume(a, b, i, 0x29);
    lemma_read_value(a, b, i);
    if let Ok((v, k)) = spec_read_value(a, i) {
        lemma_consume(a, b, k, 0x29);
        lemma_consume(a, b, k, 0x2c);
        lemma_expect(a, b, k, 0x2c);
        let next = if allow {
            match spec_consume(a, k, 0x2c) {
                Ok((_, p)) => Ok(p),
                Err(e) => Err(e),
            }
        } else {
            spec_expect(a, k, 0x2c)
        };
        if let Ok(p) = next {
            if i < p <= a.toks.len() {
                lemma_args_from(a, b, p, allow, acc.push(v));
            }
        }
    }
}

proof fn lemma_value_from(a: Input, b: Input, i: int, parts: Seq<Text>)
    requires
        same_kinds(a, b),
    ensures
        same_outcome(spec_value_from(a, i, parts), spec_value_from(b, i, parts)),
    decreases a.toks.len() - i,
{
    lemma_consume(a, b, i, 0x3b);
    if 0 <= i < a.toks.len() {
        assert(a.toks[i].kind == b.toks[i].kind);
        assert(token_text(a.toks[i]) == token_text(b.toks[i]));
        if let Ok(k) = spec_advance(a, i) {
            if i < k <= a.toks.len() {
                lemma_value_from(a, b, k, parts.push(token_text(a.toks[i])));
            }
        }
    }
}

proof fn lemma_skip_group(a: Input, b: Input, i: int, depth: nat)
    requires
        same_kinds(a, b),
    ensures
        same_outcome(spec_skip_group(a, i, depth), spec_skip_group(b, i, depth)),
    decreases a.toks.len() - i,
{
    if 0 <= i < a.toks.len() {
        assert(a.toks[i].kind == b.toks[i].kind);
        if let Ok(j) = spec_advance(a, i) {
            if i < j <= a.toks.len() {
                lemma_skip_group(a, b, j, depth + 1);
                if depth > 1 {
                    lemma_skip_group(a, b, j, (depth - 1) as nat);
                }
                lemma_skip_group(a, b, j, depth);
            }
        }
    }
}

proof fn lemma_head(a: Input, b: Input, i: int)
    requires
        same_kinds(a, b),
    ensures
        same_outcome(spec_head(a, i), spec_head(b, i)),
{
    reveal(spec_head);
    lemma_take_word(a, b, i);
    if let Ok((name, j)) = spec_take_word(a, i) {
        lemma_consume(a, b, j, 0x28);
        lemma_consume(a, b, j, 0x3a);
        if let Ok((true, k)) = spec_consume(a, j, 0x28) {
            lemma_args_from(a, b, k, allows_spaces(name), Seq::empty());
            if let Ok((args, k2)) = spec_read_args(a, k, name) {
                lemma_consume(a, b, k2, 0x7b);
            }
        }
        if let Ok((true, m)) = spec_consume(a, j, 0x3a) {
            lemma_value_from(a, b, m, Seq::empty());
        }
    }
}

proof fn lemma_skipped<T>(a: Input, b: Input, j: int, acc: T)
    requires
        same_kinds(a, b),
    ensures
        same_outcome(skipped(a, j, acc), skipped(b, j, acc)),
{
    lemma_skip_group(a, b, j, 1);
}

// ---- groups ----

proof fn lemma_table_item(a: Input, b: Input, i: int, acc: SpecTable)
    requires
        same_kinds(a, b),
    ensures
        same_outcome(spec_table_item(a, i, acc), spec_table_item(b, i, acc)),
    decreases a.toks.len() - i, 1int,
{
    lemma_head(a, b, i);
    if let Ok((h, j)) = spec_head(a, i) {
        lemma_consume(a, b, j, 0x3b);
        if i < j <= a.toks.len() {
            if let SpecHead::Group(name, args) = h {
                lemma_table_body(a, b, j, name, first_opt(args));
                lemma_skipped(a, b, j, acc);
            }
        }
    }
}

proof fn lemma_table_items(a: Input, b: Input, i: int, acc: SpecTable)
    requires
        same_kinds(a, b),
    ensures
        same_outcome(spec_table_items(a, i, acc), spec_table_items(b, i, acc)),
    decreases a.toks.len() - i, 2int,
{
    lemma_consume(a, b, i, 0x7d);
    lemma_table_item(a, b, i, acc);
    if let Ok((acc2, j)) = spec_table_item(a, i, acc) {
        if i < j <= a.toks.len() {
            lemma_table_items(a, b, j, acc2);
        }
    }
}

proof fn lemma_table_body(a: Input, b: Input, i: int, name: Text, template: Option<Text>)
    requires
        same_kinds(a, b),
    ensures
        same_outcome(spec_table_body(a, i, name, template), spec_table_body(b, i, name, template)),
    decreases a.toks.len() - i, 3int,
{
    lemma_table_items(a, b, i, new_table(name, template));
}

proof fn lemma_timing_item(a: Input, b: Input, i: int, acc: SpecArc)
    requires
        same_kinds(a, b),
    ensures
        same_outcome(spec_timing_item(a, i, acc), spec_timing_item(b, i, acc)),
{
    lemma_head(a, b, i);
    if let Ok((h, j)) = spec_head(a, i) {
        lemma_consume(a, b, j, 0x3b);
        if let SpecHead::Group(name, args) = h {
                lemma_table_body(a, b, j, name, first_opt(args));
            lemma_skipped(a, b, j, acc);
        }
    }
}

proof fn lemma_timing_items(a: Input, b: Input, i: int, acc: SpecArc)
    requires
        same_kinds(a, b),
    ensures
        same_outcome(spec_timing_items(a, i, acc), spec_timing_items(b, i, acc)),
    decreases a.toks.len() - i,
{
    lemma_consume(a, b, i, 0x7d);
    lemma_timing_item(a, b, i, acc);
    if let Ok((acc2, j)) = spec_timing_item(a, i, acc) {
        if i < j <= a.toks.len() {
            lemma_timing_items(a, b, j, acc2);
        }
    }
}

proof fn lemma_timing_body(a: Input, b: Input, i: int)
    requires
        same_kinds(a, b),
    ensures
        same_outcome(spec_timing_body(a, i), spec_timing_body(b, i)),
{
    lemma_timing_items(a, b, i, SpecArc { related_pin: None, timing_type: None, when: None, tables: Seq::empty() });
}

proof fn lemma_power_item(a: Input, b: Input, i: int, acc: SpecPower)
    requires
        same_kinds(a, b),
    ensures
        same_outcome(spec_power_item(a, i, acc), spec_power_item(b, i, acc)),
{
    lemma_head(a, b, i);
    if let Ok((h, j)) = spec_head(a, i) {
        lemma_consume(a, b, j, 0x3b);
        if let SpecHead::Group(name, args) = h {
                lemma_table_body(a, b, j, name, first_opt(args));
            lemma_skipped(a, b, j, acc);
        }
    }
}

proof fn lemma_power_items(a: Input, b: Input, i: int, acc: SpecPower)
    requires
        same_kinds(a, b),
    ensures
        same_outcome(spec_power_items(a, i, acc), spec_power_items(b, i, acc)),
    decreases a.toks.len() - i,
{
    lemma_consume(a, b, i, 0x7d);
    lemma_power_item(a, b, i, acc);
    if let Ok((acc2, j)) = spec_power_item(a, i, acc) {
        if i < j <= a.toks.len() {
            lemma_power_items(a, b, j, acc2);
        }
    }
}

proof fn lemma_power_body(a: Input, b: Input, i: int)
    requires
        same_kinds(a, b),
    ensures
        same_outcome(spec_power_body(a, i), spec_power_body(b, i)),
{
    lemma_power_items(a, b, i, SpecPower { related_pin: None, related_pg_pin: None, when: None, tables: Seq::empty() });
}

proof fn lemma_pin_item(a: Input, b: Input, i: int, acc: SpecPin)
    requires
        same_kinds(a, b),
    ensures
        same_outcome(spec_pin_item(a, i, acc), spec_pin_item(b, i, acc)),
{
    lemma_head(a, b, i);
    if let Ok((h, j)) = spec_head(a, i) {
        lemma_consume(a, b, j, 0x3b);
        if let SpecHead::Group(name, args) = h {
                lemma_timing_body(a, b, j);
                lemma_power_body(a, b, j);
            lemma_skipped(a, b, j, acc);
        }
    }
}

proof fn lemma_pin_items(a: Input, b: Input, i: int, acc: SpecPin)
    requires
        same_kinds(a, b),
    ensures
        same_outcome(spec_pin_items(a, i, acc), spec_pin_items(b, i, acc)),
    decreases a.toks.len() - i,
{
    lemma_consume(a, b, i, 0x7d);
    lemma_pin_item(a, b, i, acc);
    if let Ok((acc2, j)) = spec_pin_item(a, i, acc) {
        if i < j <= a.toks.len() {
            lemma_pin_items(a, b, j, acc2);
        }
    }
}

proof fn lemma_pin_body(a: Input, b: Input, i: int, name: Text)
    requires
        same_kinds(a, b),
    ensures
        same_outcome(spec_pin_body(a, i, name), spec_pin_body(b, i, name)),
{
    lemma_pin_items(a, b, i, new_pin(name, None));
}

proof fn lemma_bus_item(a: Input, b: Input, i: int, acc: SpecBus)
    requires
        same_kinds(a, b),
    ensures
        same_outcome(spec_bus_item(a, i, acc), spec_bus_item(b, i, acc)),
{
    lemma_head(a, b, i);
    if let Ok((h, j)) = spec_head(a, i) {
        lemma_consume(a, b, j, 0x3b);
        if let SpecHead::Group(name, args) = h {
                lemma_pin_body(a, b, j, first_or_empty(args));
                lemma_timing_body(a, b, j);
            lemma_skipped(a, b, j, acc);
        }
    }
}

proof fn lemma_bus_items(a: Input, b: Input, i: int, acc: SpecBus)
    requires
        same_kinds(a, b),
    ensures
        same_outcome(spec_bus_items(a, i, acc), spec_bus_items(b, i, acc)),
    decreases a.toks.len() - i,
{
    lemma_consume(a, b, i, 0x7d);
    lemma_bus_item(a, b, i, acc);
    if let Ok((acc2, j)) = spec_bus_item(a, i, acc) {
        if i < j <= a.toks.len() {
            lemma_bus_items(a, b, j, acc2);
        }
    }
}

proof fn lemma_bus_body(a: Input, b: Input, i: int, name: Text)
    requires
        same_kinds(a, b),
    ensures
        same_outcome(spec_bus_body(a, i, name), spec_bus_body(b, i, name)),
{
    lemma_bus_items(a, b, i, SpecBus { name, direction: None, function: None, bus_type: None, pins: Seq::empty(), timing_arcs: Seq::empty() });
}

proof fn lemma_bundle_item(a: Input, b: Input, i: int, acc: SpecBundle)
    requires
        same_kinds(a, b),
    ensures
        same_outcome(spec_bundle_item(a, i, acc), spec_bundle_item(b, i, acc)),
{
    lemma_head(a, b, i);
    if let Ok((h, j)) = spec_head(a, i) {
        lemma_consume(a, b, j, 0x3b);
        if let SpecHead::Group(name, args) = h {
                lemma_pin_body(a, b, j, first_or_empty(args));
                lemma_timing_body(a, b, j);
            lemma_skipped(a, b, j, acc);
        }
    }
}

proof fn lemma_bundle_items(a: Input, b: Input, i: int, acc: SpecBundle)
    requires
        same_kinds(a, b),
    ensures
        same_outcome(spec_bundle_items(a, i, acc), spec_bundle_items(b, i, acc)),
    decreases a.toks.len() - i,
{
    lemma_consume(a, b, i, 0x7d);
    lemma_bundle_item(a, b, i, acc);
    if let Ok((acc2, j)) = spec_bundle_item(a, i, acc) {
        if i < j <= a.toks.len() {
            lemma_bundle_items(a, b, j, acc2);
        }
    }
}

proof fn lemma_bundle_body(a: Input, b: Input, i: int, name: Text)
    requires
        same_kinds(a, b),
    ensures
        same_outcome(spec_bundle_body(a, i, name), spec_bundle_body(b, i, name)),
{
    lemma_bundle_items(a, b, i, SpecBundle { name, direction: None, function: None, members: Seq::empty(), pins: Seq::empty(), timing_arcs: Seq::empty() });
}

proof fn lemma_bus_type_item(a: Input, b: Input, i: int, acc: SpecBusType)
    requires
        same_kinds(a, b),
    ensures
        same_outcome(spec_bus_type_item(a, i, acc), spec_bus_type_item(b, i, acc)),
{
    lemma_head(a, b, i);
    if let Ok((h, j)) = spec_head(a, i) {
        lemma_consume(a, b, j, 0x3b);
        if let SpecHead::Group(name, args) = h {
            lemma_skipped(a, b, j, acc);
        }
    }
}

proof fn lemma_bus_type_items(a: Input, b: Input, i: int, acc: SpecBusType)
    requires
        same_kinds(a, b),
    ensures
        same_outcome(spec_bus_type_items(a, i, acc), spec_bus_type_items(b, i, acc)),
    decreases a.toks.len() - i,
{
    lemma_consume(a, b, i, 0x7d);
    lemma_bus_type_item(a, b, i, acc);
    if let Ok((acc2, j)) = spec_bus_type_item(a, i, acc) {
        if i < j <= a.toks.len() {
            lemma_bus_type_items(a, b, j, acc2);
        }
    }
}

proof fn lemma_bus_type_body(a: Input, b: Input, i: int, name: Text)
    requires
        same_kinds(a, b),
    ensures
        same_outcome(spec_bus_type_body(a, i, name), spec_bus_type_body(b, i, name)),
{
    lemma_bus_type_items(a, b, i, SpecBusType { name, attributes: Seq::empty() });
}

proof fn lemma_template_item(a: Input, b: Input, i: int, acc: SpecTemplate)
    requires
        same_kinds(a, b),
    ensures
        same_outcome(spec_template_item(a, i, acc), spec_template_item(b, i, acc)),
{
    lemma_head(a, b, i);
    if let Ok((h, j)) = spec_head(a, i) {
        lemma_consume(a, b, j, 0x3b);
        if let SpecHead::Group(name, args) = h {
            lemma_skipped(a, b, j, acc);
        }
    }
}

proof fn lemma_template_items(a: Input, b: Input, i: int, acc: SpecTemplate)
    requires
        same_kinds(a, b),
    ensures
        same_outcome(spec_template_items(a, i, acc), spec_template_items(b, i, acc)),
    decreases a.toks.len() - i,
{
    lemma_consume(a, b, i, 0x7d);
    lemma_template_item(a, b, i, acc);
    if let Ok((acc2, j)) = spec_template_item(a, i, acc) {
        if i < j <= a.toks.len() {
            lemma_template_items(a, b, j, acc2);
        }
    }
}

proof fn lemma_template_body(a: Input, b: Input, i: int)
    requires
        same_kinds(a, b),
    ensures
        same_outcome(spec_template_body(a, i), spec_template_body(b, i)),
{
    lemma_template_items(a, b, i, SpecTemplate { variable_1: None, variable_2: None, variable_3: None });
}

proof fn lemma_pg_item(a: Input, b: Input, i: int, acc: SpecPgCurrent)
    requires
        same_kinds(a, b),
    ensures
        same_outcome(spec_pg_item(a, i, acc), spec_pg_item(b, i, acc)),
{
    lemma_head(a, b, i);
    if let Ok((h, j)) = spec_head(a, i) {
        lemma_consume(a, b, j, 0x3b);
        if let SpecHead::Group(name, args) = h {
                lemma_table_body(a, b, j, name, first_opt(args));
            lemma_skipped(a, b, j, acc);
        }
    }
}

proof fn lemma_pg_items(a: Input, b: Input, i: int, acc: SpecPgCurrent)
    requires
        same_kinds(a, b),
    ensures
        same_outcome(spec_pg_items(a, i, acc), spec_pg_items(b, i, acc)),
    decreases a.toks.len() - i,
{
    lemma_consume(a, b, i, 0x7d);
    lemma_pg_item(a, b, i, acc);
    if let Ok((acc2, j)) = spec_pg_item(a, i, acc) {
        if i < j <= a.toks.len() {
            lemma_pg_items(a, b, j, acc2);
        }
    }
}

proof fn lemma_pg_body(a: Input, b: Input, i: int, pg_pin: Option<Text>)
    requires
        same_kinds(a, b),
    ensures
        same_outcome(spec_pg_body(a, i, pg_pin), spec_pg_body(b, i, pg_pin)),
{
    lemma_pg_items(a, b, i, SpecPgCurrent { pg_pin, vectors: Seq::empty() });
}

proof fn lemma_switching_item(a: Input, b: Input, i: int, acc: SpecSwitching)
    requires
        same_kinds(a, b),
    ensures
        same_outcome(spec_switching_item(a, i, acc), spec_switching_item(b, i, acc)),
{
    lemma_head(a, b, i);
    if let Ok((h, j)) = spec_head(a, i) {
        lemma_consume(a, b, j, 0x3b);
        if let SpecHead::Group(name, args) = h {
                lemma_pg_body(a, b, j, first_opt(args));
            lemma_skipped(a, b, j, acc);
        }
    }
}

proof fn lemma_switching_items(a: Input, b: Input, i: int, acc: SpecSwitching)
    requires
        same_kinds(a, b),
    ensures
        same_outcome(spec_switching_items(a, i, acc), spec_switching_items(b, i, acc)),
    decreases a.toks.len() - i,
{
    lemma_consume(a, b, i, 0x7d);
    lemma_switching_item(a, b, i, acc);
    if let Ok((acc2, j)) = spec_switching_item(a, i, acc) {
        if i < j <= a.toks.len() {
            lemma_switching_items(a, b, j, acc2);
        }
    }
}

proof fn lemma_switching_body(a: Input, b: Input, i: int)
    requires
        same_kinds(a, b),
    ensures
        same_outcome(spec_switching_body(a, i), spec_switching_body(b, i)),
{
    lemma_switching_items(a, b, i, SpecSwitching { input_switching_condition: None, output_switching_condition: None, pg_currents: Seq::empty() });
}

proof fn lemma_dynamic_item(a: Input, b: Input, i: int, acc: SpecDynamic)
    requires
        same_kinds(a, b),
    ensures
        same_outcome(spec_dynamic_item(a, i, acc), spec_dynamic_item(b, i, acc)),
{
    lemma_head(a, b, i);
    if let Ok((h, j)) = spec_head(a, i) {
        lemma_consume(a, b, j, 0x3b);
        if let SpecHead::Group(name, args) = h {
                lemma_switching_body(a, b, j);
            lemma_skipped(a, b, j, acc);
        }
    }
}

proof fn lemma_dynamic_items(a: Input, b: Input, i: int, acc: SpecDynamic)
    requires
        same_kinds(a, b),
    ensures
        same_outcome(spec_dynamic_items(a, i, acc), spec_dynamic_items(b, i, acc)),
    decreases a.toks.len() - i,
{
    lemma_consume(a, b, i, 0x7d);
    lemma_dynamic_item(a, b, i, acc);
    if let Ok((acc2, j)) = spec_dynamic_item(a, i, acc) {
        if i < j <= a.toks.len() {
            lemma_dynamic_items(a, b, j, acc2);
        }
    }
}

proof fn lemma_dynamic_body(a: Input, b: Input, i: int)
    requires
        same_kinds(a, b),
    ensures
        same_outcome(spec_dynamic_body(a, i), spec_dynamic_body(b, i)),
{
    lemma_dynamic_items(a, b, i, SpecDynamic { related_inputs: None, related_outputs: None, when: None, switching_groups: Seq::empty() });
}

proof fn lemma_cell_item(a: Input, b: Input, i: int, acc: SpecCell)
    requires
        same_kinds(a, b),
    ensures
        same_outcome(spec_cell_item(a, i, acc), spec_cell_item(b, i, acc)),
{
    lemma_head(a, b, i);
    if let Ok((h, j)) = spec_head(a, i) {
        lemma_consume(a, b, j, 0x3b);
        if let SpecHead::Group(name, args) = h {
                lemma_pin_body(a, b, j, first_or_empty(args));
                lemma_bus_body(a, b, j, first_or_empty(args));
                lemma_bundle_body(a, b, j, first_or_empty(args));
                lemma_dynamic_body(a, b, j);
            lemma_skipped(a, b, j, acc);
        }
    }
}

proof fn lemma_cell_items(a: Input, b: Input, i: int, acc: SpecCell)
    requires
        same_kinds(a, b),
    ensures
        same_outcome(spec_cell_items(a, i, acc), spec_cell_items(b, i, acc)),
    decreases a.toks.len() - i,
{
    lemma_consume(a, b, i, 0x7d);
    lemma_cell_item(a, b, i, acc);
    if let Ok((acc2, j)) = spec_cell_item(a, i, acc) {
        if i < j <= a.toks.len() {
            lemma_cell_items(a, b, j, acc2);
        }
    }
}

proof fn lemma_cell_body(a: Input, b: Input, i: int, name: Text)
    requires
        same_kinds(a, b),
    ensures
        same_outcome(spec_cell_body(a, i, name), spec_cell_body(b, i, name)),
{
    lemma_cell_items(a, b, i, SpecCell { name, area: None, pins: Seq::empty(), buses: Seq::empty(), bundles: Seq::empty(), attributes: Seq::empty(), dynamic_currents: Seq::empty() });
}

proof fn lemma_library_item(a: Input, b: Input, i: int, acc: SpecDoc, filter: Option<Seq<Text>>)
    requires
        same_kinds(a, b),
    ensures
        same_outcome(spec_library_item(a, i, acc, filter), spec_library_item(b, i, acc, filter)),
{
    lemma_head(a, b, i);
    if let Ok((h, j)) = spec_head(a, i) {
        lemma_consume(a, b, j, 0x3b);
        if let SpecHead::Group(name, args) = h {
            lemma_cell_body(a, b, j, first_or_empty(args));
            lemma_bus_type_body(a, b, j, first_or_empty(args));
            lemma_template_body(a, b, j);
            lemma_table_body(a, b, j, Seq::empty(), first_opt(args));
            lemma_skipped(a, b, j, acc);
        }
    }
}

proof fn lemma_library_items(a: Input, b: Input, i: int, acc: SpecDoc, filter: Option<Seq<Text>>)
    requires
        same_kinds(a, b),
    ensures
        same_outcome(spec_library_items(a, i, acc, filter), spec_library_items(b, i, acc, filter)),
    decreases a.toks.len() - i,
{
    lemma_consume(a, b, i, 0x7d);
    lemma_library_item(a, b, i, acc, filter);
    if let Ok((acc2, j)) = spec_library_item(a, i, acc, filter) {
        if i < j <= a.toks.len() {
            lemma_library_items(a, b, j, acc2, filter);
        }
    }
}

proof fn lemma_doc_loop(a: Input, b: Input, i: int, acc: SpecDoc, filter: Option<Seq<Text>>)
    requires
        same_kinds(a, b),
    ensures
        same_outcome(spec_doc_loop(a, i, acc, filter), spec_doc_loop(b, i, acc, filter)),
    decreases a.toks.len() - i,
{
    if 0 <= i < a.toks.len() {
        assert(a.toks[i].kind == b.toks[i].kind);
    }
    lemma_take_word(a, b, i);
    if let Ok((name, j)) = spec_take_word(a, i) {
        lemma_consume(a, b, j, 0x28);
        if let Ok((open, k)) = spec_consume(a, j, 0x28) {
            lemma_args_from(a, b, k, allows_spaces(name), Seq::empty());
            let ar = if open {
                spec_read_args(a, k, name)
            } else {
                Ok((Seq::empty(), k))
            };
            if let Ok((args, k2)) = ar {
                lemma_expect(a, b, k2, 0x7b);
                if let Ok(m) = spec_expect(a, k2, 0x7b) {
                    let acc1 = SpecDoc { library_name: first_or_empty(args), ..acc };
                    lemma_library_items(a, b, m, acc1, filter);
                    if let Ok((acc2, m2)) = spec_library_items(a, m, acc1, filter) {
                        lemma_consume(a, b, m2, 0x3b);
                        if let Ok((_, m3)) = spec_consume(a, m2, 0x3b) {
                            if i < m3 <= a.toks.len() {
                                lemma_doc_loop(a, b, m3, acc2, filter);
                            }
                        }
                    }
                }
            }
        }
    }
}

/// Two token streams that agree token by token give the same parse.
pub proof fn lemma_same_tokens_same_parse(a: Input, b: Input, filter: Option<Seq<Text>>)
    requires
        same_kinds(a, b),
    ensures
        same_outcome(spec_parse_tokens(a, filter), spec_parse_tokens(b, filter)),
{
    if let Ok(i) = spec_advance(a, -1) {
        lemma_doc_loop(a, b, i, empty_doc(), filter);
    }
}

proof fn lemma_code_determines_kind(t1: SpecToken, t2: SpecToken)
    requires
        token_code(t1) == token_code(t2),
    ensures
        t1.kind == t2.kind,
{
    reveal_strlit("W");
    reveal_strlit("S");
    let c1 = token_code(t1);
    let c2 = token_code(t2);
    assert(c1[0] == c2[0]);
    match t1.kind {
        SpecKind::Word(w1) => match t2.kind {
            SpecKind::Word(w2) => {
                assert(w1 =~= c1.subrange(1, c1.len() as int));
                assert(w2 =~= c2.subrange(1, c2.len() as int));
            },
            SpecKind::Symbol(_) => {
                assert(c1[0] == 'W');
                assert(c2[0] == 'S');
            },
        },
        SpecKind::Symbol(s1) => match t2.kind {
            SpecKind::Word(_) => {
                assert(c1[0] == 'S');
                assert(c2[0] == 'W');
            },
            SpecKind::Symbol(s2) => {
                assert(c1[1] == s1 as char);
                assert(c2[1] == s2 as char);
                assert(s1 as char as u32 == s1 as u32);
                assert(s2 as char as u32 == s2 as u32);
            },
        },
    }
}

/// Two files whose token streams (as `lex_all` encodes them) are equal parse
/// alike: comments and whitespace make no difference. Both give the same
/// document, or both fail with the same message.
pub proof fn lemma_equal_token_streams_parse_alike(
    d1: Seq<u8>,
    d2: Seq<u8>,
    filter: Option<Seq<Text>>,
)
    requires
        spec_lex(d1).1 is None,
        spec_lex(d2).1 is None,
        spec_lex(d1).0.len() == spec_lex(d2).0.len(),
        forall|k: int|
            0 <= k < spec_lex(d1).0.len() ==> #[trigger] token_code(spec_lex(d1).0[k]) == token_code(
                spec_lex(d2).0[k],
            ),
    ensures
        same_outcome(spec_parse_bytes(d1, filter), spec_parse_bytes(d2, filter)),
{
    let a = input_of_bytes(d1);
    let b = input_of_bytes(d2);
    assert forall|k: int| 0 <= k < a.toks.len() implies (#[trigger] a.toks[k]).kind == b.toks[k].kind by {
        assert(token_code(spec_lex(d1).0[k]) == token_code(spec_lex(d2).0[k]));
        lemma_code_determines_kind(a.toks[k], b.toks[k]);
    }
    lemma_same_tokens_same_parse(a, b, filter);
}

} // verus!
