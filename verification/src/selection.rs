//! What a selective parse keeps: only the cells that its filter names, and,
//! where skipping a cell group ends where parsing it does, exactly the full
//! parse's cells of those names with everything else as the full parse.
use vstd::prelude::*;
use crate::data::{Text, SpecCell, SpecDoc};
use crate::parser::{
    Input, SpecHead, spec_head, spec_cell_item, spec_cell_items, spec_library_item,
    spec_library_items, spec_doc_loop, spec_parse_bytes, spec_advance,
    cell_allowed, first_or_empty, empty_doc, spec_consume, spec_take_word, spec_read_args,
    spec_expect, spec_cell_body, spec_skip_group, cur, input_of_bytes,
};
use crate::lexer::{SpecKind, SpecError};

verus! {

/// Every cell in `cells` is one that `filter` allows.
pub open spec fn cells_allowed(filter: Option<Seq<Text>>, cells: Seq<SpecCell>) -> bool {
    forall|k: int| 0 <= k < cells.len() ==> cell_allowed(filter, #[trigger] cells[k].name)
}

proof fn lemma_cell_item_keeps_name(inp: Input, i: int, acc: SpecCell)
    ensures
        spec_cell_item(inp, i, acc) matches Ok((c, _)) ==> c.name == acc.name,
{
}

proof fn lemma_cell_items_keep_name(inp: Input, i: int, acc: SpecCell)
    ensures
        spec_cell_items(inp, i, acc) matches Ok((c, _)) ==> c.name == acc.name,
    decreases inp.toks.len() - i,
{
    lemma_cell_item_keeps_name(inp, i, acc);
    if let Ok((a, j)) = spec_cell_item(inp, i, acc) {
        if i < j <= inp.toks.len() {
            lemma_cell_items_keep_name(inp, j, a);
        }
    }
}

proof fn lemma_library_item_allowed(inp: Input, i: int, acc: SpecDoc, filter: Option<Seq<Text>>)
    requires
        cells_allowed(filter, acc.cells),
    ensures
        spec_library_item(inp, i, acc, filter) matches Ok((d, _)) ==> cells_allowed(filter, d.cells),
{
    if let Ok((SpecHead::Group(name, args), j)) = spec_head(inp, i) {
        let cell0 = SpecCell {
            name: first_or_empty(args),
            area: None,
            pins: Seq::empty(),
            buses: Seq::empty(),
            bundles: Seq::empty(),
            attributes: Seq::empty(),
            dynamic_currents: Seq::empty(),
        };
        lemma_cell_items_keep_name(inp, j, cell0);
        if let Ok((d, _)) = spec_library_item(inp, i, acc, filter) {
            assert forall|k: int| 0 <= k < d.cells.len() implies cell_allowed(
                filter,
                #[trigger] d.cells[k].name,
            ) by {
                if k < acc.cells.len() {
                    assert(cell_allowed(filter, acc.cells[k].name));
                }
            }
        }
    }
}

proof fn lemma_library_items_allowed(
    inp: Input,
    i: int,
    acc: SpecDoc,
    filter: Option<Seq<Text>>,
)
    requires
        cells_allowed(filter, acc.cells),
    ensures
        spec_library_items(inp, i, acc, filter) matches Ok((d, _)) ==> cells_allowed(filter, d.cells),
    decreases inp.toks.len() - i,
{
    lemma_library_item_allowed(inp, i, acc, filter);
    if let Ok((a, j)) = spec_library_item(inp, i, acc, filter) {
        if i < j <= inp.toks.len() {
            lemma_library_items_allowed(inp, j, a, filter);
        }
    }
}

proof fn lemma_doc_loop_allowed(inp: Input, i: int, acc: SpecDoc, filter: Option<Seq<Text>>)
    requires
        cells_allowed(filter, acc.cells),
    ensures
        spec_doc_loop(inp, i, acc, filter) matches Ok(d) ==> cells_allowed(filter, d.cells),
    decreases inp.toks.len() - i,
{
    if let Ok((name, j)) = spec_take_word(inp, i) {
        if let Ok((open, k)) = spec_consume(inp, j, 0x28) {
            let a = if open {
                spec_read_args(inp, k, name)
            } else {
                Ok((Seq::empty(), k))
            };
            if let Ok((args, k2)) = a {
                if let Ok(m) = spec_expect(inp, k2, 0x7b) {
                    let acc1 = SpecDoc { library_name: first_or_empty(args), ..acc };
                    lemma_library_items_allowed(inp, m, acc1, filter);
                    if let Ok((acc2, m2)) = spec_library_items(inp, m, acc1, filter) {
                        if let Ok((_, m3)) = spec_consume(inp, m2, 0x3b) {
                            if i < m3 <= inp.toks.len() {
                                lemma_doc_loop_allowed(inp, m3, acc2, filter);
                            }
                        }
                    }
                }
            }
        }
    }
}

/// A selective parse keeps only named cells: every cell of the document that
/// parsing `d` with the filter `names` gives is named in `names`.
pub proof fn lemma_selective_parse_keeps_named_cells(d: Seq<u8>, names: Seq<Text>)
    ensures
        spec_parse_bytes(d, Some(names)) matches Ok(doc) ==> forall|k: int|
            0 <= k < doc.cells.len() ==> names.contains(#[trigger] doc.cells[k].name),
{
    let inp = crate::parser::input_of_bytes(d);
    if let Ok(i) = spec_advance(inp, -1) {
        lemma_doc_loop_allowed(inp, i, empty_doc(), Some(names));
    }
    if let Ok(doc) = spec_parse_bytes(d, Some(names)) {
        assert forall|k: int| 0 <= k < doc.cells.len() implies names.contains(
            #[trigger] doc.cells[k].name,
        ) by {
            assert(cell_allowed(Some(names), doc.cells[k].name));
        }
    }
}

/// The cells among `cells` whose names `names` holds, in order.
pub open spec fn keep_cells(cells: Seq<SpecCell>, names: Seq<Text>) -> Seq<SpecCell>
    decreases cells.len(),
{
    if cells.len() == 0 {
        Seq::empty()
    } else {
        let r = keep_cells(cells.drop_last(), names);
        if names.contains(cells.last().name) {
            r.push(cells.last())
        } else {
            r
        }
    }
}

/// `doc` with only the cells whose names `names` holds.
pub open spec fn restrict(doc: SpecDoc, names: Seq<Text>) -> SpecDoc {
    SpecDoc { cells: keep_cells(doc.cells, names), ..doc }
}

/// Where the item at `i` is a `cell` group that parses, skipping its body
/// with balanced braces ends where parsing it does.
pub open spec fn cell_skip_matches(inp: Input, i: int) -> bool {
    match spec_head(inp, i) {
        Ok((SpecHead::Group(name, args), j)) => name == "cell"@ ==> match spec_cell_body(
            inp,
            j,
            first_or_empty(args),
        ) {
            Ok((_, k)) => spec_skip_group(inp, j, 1) == Ok::<int, SpecError>(k),
            Err(_) => true,
        },
        _ => true,
    }
}

/// Along the full parse of library items from `i`, every cell group that
/// parses skips alike.
pub open spec fn skips_match_items(inp: Input, i: int, acc: SpecDoc) -> bool
    decreases inp.toks.len() - i,
{
    match spec_consume(inp, i, 0x7d) {
        Ok((false, _)) => cell_skip_matches(inp, i) && match spec_library_item(inp, i, acc, None) {
            Ok((a, j)) => i < j <= inp.toks.len() ==> skips_match_items(inp, j, a),
            Err(_) => true,
        },
        _ => true,
    }
}

/// Along the full parse of the top-level groups from `i`, every cell group
/// that parses skips alike.
pub open spec fn skips_match_doc(inp: Input, i: int, acc: SpecDoc) -> bool
    decreases inp.toks.len() - i,
{
    match cur(inp, i) {
        None => true,
        Some(t) => t.kind == SpecKind::Symbol(0x7d) || match spec_take_word(inp, i) {
            Err(_) => true,
            Ok((name, j)) => match spec_consume(inp, j, 0x28) {
                Err(_) => true,
                Ok((open, k)) => match if open {
                    spec_read_args(inp, k, name)
                } else {
                    Ok((Seq::empty(), k))
                } {
                    Err(_) => true,
                    Ok((args, k2)) => match spec_expect(inp, k2, 0x7b) {
                        Err(_) => true,
                        Ok(m) => name == "library"@ ==> {
                            let acc1 = SpecDoc { library_name: first_or_empty(args), ..acc };
                            &&& skips_match_items(inp, m, acc1)
                            &&& match spec_library_items(inp, m, acc1, None) {
                                Err(_) => true,
                                Ok((acc2, m2)) => match spec_consume(inp, m2, 0x3b) {
                                    Err(_) => true,
                                    Ok((_, m3)) => i < m3 <= inp.toks.len() ==> skips_match_doc(
                                        inp,
                                        m3,
                                        acc2,
                                    ),
                                },
                            }
                        },
                    },
                },
            },
        },
    }
}

/// In the file `d`, every top-level cell group that parses ends, when its
/// body is skipped with balanced braces, where parsing it ends.
pub open spec fn cells_skip_alike(d: Seq<u8>) -> bool {
    let inp = input_of_bytes(d);
    match spec_advance(inp, -1) {
        Ok(i) => skips_match_doc(inp, i, empty_doc()),
        Err(_) => true,
    }
}

proof fn lemma_keep_push(cells: Seq<SpecCell>, c: SpecCell, names: Seq<Text>)
    ensures
        keep_cells(cells.push(c), names) == if names.contains(c.name) {
            keep_cells(cells, names).push(c)
        } else {
            keep_cells(cells, names)
        },
{
    assert(cells.push(c).drop_last() =~= cells);
    assert(cells.push(c).last() == c);
}

proof fn lemma_item_filtered(inp: Input, i: int, acc: SpecDoc, names: Seq<Text>)
    requires
        cell_skip_matches(inp, i),
        spec_library_item(inp, i, acc, None) is Ok,
    ensures
        spec_library_item(inp, i, restrict(acc, names), Some(names)) == match spec_library_item(
            inp,
            i,
            acc,
            None,
        ) {
            Ok((a, j)) => Ok::<(SpecDoc, int), SpecError>((restrict(a, names), j)),
            Err(e) => Err(e),
        },
{
    reveal(spec_head);
    if let Ok((SpecHead::Group(name, args), j)) = spec_head(inp, i) {
        if name == "cell"@ {
            let n = first_or_empty(args);
            if let Ok((c, k)) = spec_cell_body(inp, j, n) {
                lemma_cell_items_keep_name(inp, j, SpecCell {
                    name: n,
                    area: None,
                    pins: Seq::empty(),
                    buses: Seq::empty(),
                    bundles: Seq::empty(),
                    attributes: Seq::empty(),
                    dynamic_currents: Seq::empty(),
                });
                assert(c.name == n);
                lemma_keep_push(acc.cells, c, names);
            }
        }
    }
}

proof fn lemma_items_filtered(inp: Input, i: int, acc: SpecDoc, names: Seq<Text>)
    requires
        skips_match_items(inp, i, acc),
        spec_library_items(inp, i, acc, None) is Ok,
    ensures
        spec_library_items(inp, i, restrict(acc, names), Some(names)) == match spec_library_items(
            inp,
            i,
            acc,
            None,
        ) {
            Ok((a, j)) => Ok::<(SpecDoc, int), SpecError>((restrict(a, names), j)),
            Err(e) => Err(e),
        },
    decreases inp.toks.len() - i,
{
    if let Ok((false, _)) = spec_consume(inp, i, 0x7d) {
        lemma_item_filtered(inp, i, acc, names);
        if let Ok((a, j)) = spec_library_item(inp, i, acc, None) {
            if i < j <= inp.toks.len() {
                lemma_items_filtered(inp, j, a, names);
            }
        }
    }
}

proof fn lemma_doc_filtered(inp: Input, i: int, acc: SpecDoc, names: Seq<Text>)
    requires
        skips_match_doc(inp, i, acc),
        spec_doc_loop(inp, i, acc, None) is Ok,
    ensures
        spec_doc_loop(inp, i, restrict(acc, names), Some(names)) == match spec_doc_loop(
            inp,
            i,
            acc,
            None,
        ) {
            Ok(d) => Ok::<SpecDoc, SpecError>(restrict(d, names)),
            Err(e) => Err(e),
        },
    decreases inp.toks.len() - i,
{
    if let Some(t) = cur(inp, i) {
        if t.kind != SpecKind::Symbol(0x7d) {
            if let Ok((name, j)) = spec_take_word(inp, i) {
                if let Ok((open, k)) = spec_consume(inp, j, 0x28) {
                    let a = if open {
                        spec_read_args(inp, k, name)
                    } else {
                        Ok((Seq::empty(), k))
                    };
                    if let Ok((args, k2)) = a {
                        if let Ok(m) = spec_expect(inp, k2, 0x7b) {
                            if name == "library"@ {
                                let acc1 = SpecDoc { library_name: first_or_empty(args), ..acc };
                                assert(restrict(acc1, names) == SpecDoc {
                                    library_name: first_or_empty(args),
                                    ..restrict(acc, names)
                                });
                                lemma_items_filtered(inp, m, acc1, names);
                                if let Ok((acc2, m2)) = spec_library_items(inp, m, acc1, None) {
                                    if let Ok((_, m3)) = spec_consume(inp, m2, 0x3b) {
                                        if i < m3 <= inp.toks.len() {
                                            lemma_doc_filtered(inp, m3, acc2, names);
                                        }
                                    }
                                }
                            }
                        }
                    }
                }
            }
        }
    }
}

/// A selective parse of a file whose full parse succeeds, and whose cell
/// groups end where skipping them with balanced braces ends, succeeds too:
/// it gives the full parse's document with only the cells that `names`
/// holds, in their order, and every other part (library name, units,
/// attributes, templates, driver waveforms, bus types) the same.
pub proof fn lemma_selective_parse_is_filtered_full_parse(d: Seq<u8>, names: Seq<Text>)
    requires
        spec_parse_bytes(d, None) is Ok,
        cells_skip_alike(d),
    ensures
        spec_parse_bytes(d, Some(names)) == Ok::<SpecDoc, SpecError>(
            restrict(spec_parse_bytes(d, None)->Ok_0, names),
        ),
{
    let inp = input_of_bytes(d);
    if let Ok(i) = spec_advance(inp, -1) {
        assert(restrict(empty_doc(), names) == empty_doc());
        lemma_doc_filtered(inp, i, empty_doc(), names);
    }
}

} // verus!
