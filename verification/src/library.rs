//! A Liberty file held in memory together with its cell index: the library
//! header is parsed once, and each cell is parsed on its own when asked for.
use vstd::prelude::*;
use vstd::utf8::encode_utf8;
use crate::text::{string_of, append_str, texts, str_eq};
use crate::lexer::{ParseError, SpecError};
use crate::data::{Text, Document, CellData, SpecDoc};
use crate::parser::spec_parse_bytes;
use crate::input::parse_bytes;
use crate::index::{CellIndex, spec_index_cells, scannable, entry_views, index_cells};
use crate::ranges::{ends_clean, lemma_index_ranges};

verus! {

/// The bytes of a library group named `name` whose body is `body`.
pub open spec fn library_frame(name: Text, body: Seq<u8>) -> Seq<u8> {
    encode_utf8("library ("@ + name + ") {\n"@) + body + encode_utf8("\n}\n"@)
}

/// The error reported for input whose length does not fit the lexer's
/// positions.
pub open spec fn too_large() -> SpecError {
    SpecError { line: 0, column: 0, message: "input too large"@ }
}

/// `body` parsed as the body of a library group named `name`.
pub open spec fn spec_parse_slice(name: Text, body: Seq<u8>) -> Result<SpecDoc, SpecError> {
    let f = library_frame(name, body);
    if f.len() < usize::MAX {
        spec_parse_bytes(f, None)
    } else {
        Err(too_large())
    }
}

fn append_bytes(buf: &mut Vec<u8>, src: &[u8])
    ensures
        final(buf)@ == old(buf)@ + src@,
{
    let ghost b0 = buf@;
    let mut k: usize = 0;
    while k < src.len()
        invariant
            k <= src@.len(),
            buf@ == b0 + src@.subrange(0, k as int),
        decreases src@.len() - k,
    {
        buf.push(src[k]);
        k = k + 1;
        assert(buf@ =~= b0 + src@.subrange(0, k as int));
    }
    assert(src@.subrange(0, k as int) =~= src@);
}

/// Parses `body` as the body of a library group named `name`.
pub fn parse_slice_as_library(name: &str, body: &[u8]) -> (r: Result<Document, ParseError>)
    ensures
        match spec_parse_slice(name@, body@) {
            Ok(d) => r is Ok && r->Ok_0@ == d,
            Err(e) => r is Err && r->Err_0@ == e,
        },
{
    let mut head = string_of("library (");
    append_str(&mut head, name);
    append_str(&mut head, ") {\n");
    let mut buf: Vec<u8> = Vec::new();
    append_bytes(&mut buf, head.as_str().as_bytes());
    append_bytes(&mut buf, body);
    append_bytes(&mut buf, "\n}\n".as_bytes());
    proof {
        assert(buf@ =~= library_frame(name@, body@));
    }
    if buf.len() == usize::MAX {
        return Err(ParseError { line: 0, column: 0, message: string_of("input too large") });
    }
    parse_bytes(buf.as_slice(), &None)
}

/// The first position in `s` whose name is `name`, or `s.len()` when there
/// is none.
pub open spec fn name_position(s: Seq<(Text, int, int)>, name: Text) -> int {
    if exists|k: int| first_with_name(s, name, k) {
        choose|k: int| first_with_name(s, name, k)
    } else {
        s.len() as int
    }
}

pub open spec fn first_with_name(s: Seq<(Text, int, int)>, name: Text, k: int) -> bool {
    &&& 0 <= k < s.len()
    &&& s[k].0 == name
    &&& forall|m: int| 0 <= m < k ==> s[m].0 != name
}

proof fn lemma_name_position(s: Seq<(Text, int, int)>, name: Text, k: int)
    requires
        0 <= k <= s.len(),
        forall|m: int| 0 <= m < k ==> s[m].0 != name,
        k == s.len() || s[k].0 == name,
    ensures
        name_position(s, name) == k,
{
    if k < s.len() {
        assert(first_with_name(s, name, k));
        let c = choose|c: int| first_with_name(s, name, c);
        assert(c == k) by {
            if c < k {
                assert(s[c].0 != name);
            } else if c > k {
                assert(s[k].0 != name);
            }
        }
    } else {
        assert(!exists|c: int| first_with_name(s, name, c)) by {
            if exists|c: int| first_with_name(s, name, c) {
                let c = choose|c: int| first_with_name(s, name, c);
                assert(s[c].0 != name);
            }
        }
    }
}

/// The cells of a file, one entry per name: in the order in which names
/// first appear, each with the range of the last cell of that name.
pub open spec fn merge_cells(cells: Seq<(Text, int, int)>) -> Seq<(Text, int, int)>
    decreases cells.len(),
{
    if cells.len() == 0 {
        Seq::empty()
    } else {
        let prev = merge_cells(cells.drop_last());
        let c = cells.last();
        let k = name_position(prev, c.0);
        if k < prev.len() {
            prev.update(k, c)
        } else {
            prev.push(c)
        }
    }
}

/// Whether some entry of `s` is named `name`.
pub open spec fn has_name(s: Seq<(Text, int, int)>, name: Text) -> bool {
    exists|k: int| 0 <= k < s.len() && #[trigger] s[k].0 == name
}

proof fn lemma_first_exists(s: Seq<(Text, int, int)>, name: Text, m: int)
    requires
        0 <= m < s.len(),
        s[m].0 == name,
    ensures
        exists|k: int| first_with_name(s, name, k),
    decreases m,
{
    if forall|j: int| 0 <= j < m ==> s[j].0 != name {
        assert(first_with_name(s, name, m));
    } else {
        let j = choose|j: int| 0 <= j < m && s[j].0 == name;
        lemma_first_exists(s, name, j);
    }
}

/// What `name_position` is: the first entry of that name, or the length
/// exactly when no entry has it.
proof fn lemma_position_facts(s: Seq<(Text, int, int)>, name: Text)
    ensures
        0 <= name_position(s, name) <= s.len(),
        name_position(s, name) < s.len() ==> first_with_name(s, name, name_position(s, name)),
        name_position(s, name) == s.len() <==> !has_name(s, name),
{
    if has_name(s, name) {
        let m = choose|m: int| 0 <= m < s.len() && #[trigger] s[m].0 == name;
        lemma_first_exists(s, name, m);
    } else {
        if exists|k: int| first_with_name(s, name, k) {
            let k = choose|k: int| first_with_name(s, name, k);
            assert(s[k].0 == name);
        }
    }
}

/// Appending an entry leaves the position of a name already present, and
/// puts a new name at the end.
proof fn lemma_position_push(s: Seq<(Text, int, int)>, x: (Text, int, int), name: Text)
    ensures
        has_name(s, name) ==> name_position(s.push(x), name) == name_position(s, name),
        !has_name(s, name) && x.0 == name ==> name_position(s.push(x), name) == s.len(),
{
    lemma_position_facts(s, name);
    let t = s.push(x);
    if has_name(s, name) {
        let p = name_position(s, name);
        assert forall|m: int| 0 <= m < p implies t[m].0 != name by {
            assert(t[m] == s[m]);
        }
        lemma_name_position(t, name, p);
    } else if x.0 == name {
        assert forall|m: int| 0 <= m < s.len() implies t[m].0 != name by {
            assert(t[m] == s[m]);
            if t[m].0 == name {
                assert(s[m].0 == name);
            }
        }
        lemma_name_position(t, name, s.len() as int);
    }
}

/// The index of a file keeps each cell name once; it holds exactly the names
/// that some cell has; each entry's range is that of the last cell of its
/// name; and entries come in the order in which their names first appear.
pub proof fn lemma_merge_cells(cells: Seq<(Text, int, int)>)
    ensures
        forall|i: int, j: int|
            0 <= i < j < merge_cells(cells).len() ==> #[trigger] merge_cells(cells)[i].0
                != #[trigger] merge_cells(cells)[j].0,
        forall|name: Text| has_name(merge_cells(cells), name) <==> #[trigger] has_name(cells, name),
        forall|k: int|
            0 <= k < merge_cells(cells).len() ==> exists|j: int|
                0 <= j < cells.len() && cells[j] == #[trigger] merge_cells(cells)[k] && forall|
                    l: int,
                | j < l < cells.len() ==> #[trigger] cells[l].0 != cells[j].0,
        forall|i: int, j: int|
            0 <= i < j < merge_cells(cells).len() ==> name_position(
                cells,
                #[trigger] merge_cells(cells)[i].0,
            ) < name_position(cells, #[trigger] merge_cells(cells)[j].0),
    decreases cells.len(),
{
    let m = merge_cells(cells);
    if cells.len() == 0 {
        assert forall|name: Text| has_name(m, name) <==> #[trigger] has_name(cells, name) by {}
    } else {
        let d = cells.drop_last();
        let prev = merge_cells(d);
        let c = cells.last();
        lemma_merge_cells(d);
        lemma_position_facts(prev, c.0);
        let k0 = name_position(prev, c.0);
        assert(cells =~= d.push(c));
        if k0 < prev.len() {
            assert(m == prev.update(k0, c));
            assert(prev[k0].0 == c.0);
            // names unchanged
            assert forall|i: int| 0 <= i < m.len() implies #[trigger] m[i].0 == prev[i].0 by {}
            assert forall|i: int, j: int| 0 <= i < j < m.len() implies #[trigger] m[i].0
                != #[trigger] m[j].0 by {
                assert(m[i].0 == prev[i].0 && m[j].0 == prev[j].0);
            }
            assert forall|name: Text| has_name(m, name) <==> #[trigger] has_name(cells, name) by {
                if has_name(m, name) {
                    let q = choose|q: int| 0 <= q < m.len() && #[trigger] m[q].0 == name;
                    assert(prev[q].0 == name);
                    assert(has_name(d, name));
                    let r = choose|r: int| 0 <= r < d.len() && #[trigger] d[r].0 == name;
                    assert(cells[r] == d[r]);
                }
                if has_name(cells, name) {
                    let r = choose|r: int| 0 <= r < cells.len() && #[trigger] cells[r].0 == name;
                    if r < d.len() {
                        assert(d[r] == cells[r]);
                        assert(has_name(d, name));
                        assert(has_name(prev, name));
                        let q = choose|q: int| 0 <= q < prev.len() && #[trigger] prev[q].0 == name;
                        assert(m[q].0 == name);
                    } else {
                        assert(m[k0].0 == name);
                    }
                }
            }
            assert forall|k: int| 0 <= k < m.len() implies exists|j: int|
                0 <= j < cells.len() && cells[j] == #[trigger] m[k] && forall|l: int|
                    j < l < cells.len() ==> #[trigger] cells[l].0 != cells[j].0 by {
                if k == k0 {
                    let j = cells.len() - 1;
                    assert(cells[j] == m[k]);
                } else {
                    let j = choose|j: int|
                        0 <= j < d.len() && d[j] == #[trigger] prev[k] && forall|l: int|
                            j < l < d.len() ==> #[trigger] d[l].0 != d[j].0;
                    assert(cells[j] == d[j]);
                    assert forall|l: int| j < l < cells.len() implies #[trigger] cells[l].0
                        != cells[j].0 by {
                        if l < d.len() {
                            assert(cells[l] == d[l]);
                        } else {
                            assert(prev[k0].0 != prev[k].0);
                        }
                    }
                }
            }
            assert forall|i: int, j: int| 0 <= i < j < m.len() implies name_position(
                cells,
                #[trigger] m[i].0,
            ) < name_position(cells, #[trigger] m[j].0) by {
                assert(m[i].0 == prev[i].0 && m[j].0 == prev[j].0);
                assert(has_name(prev, prev[i].0));
                assert(has_name(prev, prev[j].0));
                lemma_position_push(d, c, prev[i].0);
                lemma_position_push(d, c, prev[j].0);
            }
        } else {
            assert(m == prev.push(c));
            assert(!has_name(prev, c.0));
            assert(!has_name(d, c.0));
            assert forall|i: int| 0 <= i < prev.len() implies #[trigger] prev[i].0 != c.0 by {
                if prev[i].0 == c.0 {
                    assert(has_name(prev, c.0));
                }
            }
            assert forall|i: int, j: int| 0 <= i < j < m.len() implies #[trigger] m[i].0
                != #[trigger] m[j].0 by {
                assert(m[i] == prev[i]);
                if j < prev.len() {
                    assert(m[j] == prev[j]);
                }
            }
            assert forall|name: Text| has_name(m, name) <==> #[trigger] has_name(cells, name) by {
                if has_name(m, name) {
                    let q = choose|q: int| 0 <= q < m.len() && #[trigger] m[q].0 == name;
                    if q < prev.len() {
                        assert(prev[q].0 == name);
                        assert(has_name(prev, name));
                        assert(has_name(d, name));
                        let r = choose|r: int| 0 <= r < d.len() && #[trigger] d[r].0 == name;
                        assert(cells[r] == d[r]);
                    } else {
                        assert(cells[cells.len() - 1].0 == name);
                    }
                }
                if has_name(cells, name) {
                    let r = choose|r: int| 0 <= r < cells.len() && #[trigger] cells[r].0 == name;
                    if r < d.len() {
                        assert(d[r] == cells[r]);
                        assert(has_name(d, name));
                        assert(has_name(prev, name));
                        let q = choose|q: int| 0 <= q < prev.len() && #[trigger] prev[q].0 == name;
                        assert(m[q].0 == name);
                    } else {
                        assert(m[prev.len() as int].0 == name);
                    }
                }
            }
            assert forall|k: int| 0 <= k < m.len() implies exists|j: int|
                0 <= j < cells.len() && cells[j] == #[trigger] m[k] && forall|l: int|
                    j < l < cells.len() ==> #[trigger] cells[l].0 != cells[j].0 by {
                if k == prev.len() {
                    let j = cells.len() - 1;
                    assert(cells[j] == m[k]);
                } else {
                    assert(m[k] == prev[k]);
                    let j = choose|j: int|
                        0 <= j < d.len() && d[j] == #[trigger] prev[k] && forall|l: int|
                            j < l < d.len() ==> #[trigger] d[l].0 != d[j].0;
                    assert(cells[j] == d[j]);
                    assert forall|l: int| j < l < cells.len() implies #[trigger] cells[l].0
                        != cells[j].0 by {
                        if l < d.len() {
                            assert(cells[l] == d[l]);
                        } else {
                            assert(prev[k].0 != c.0);
                        }
                    }
                }
            }
            assert forall|i: int, j: int| 0 <= i < j < m.len() implies name_position(
                cells,
                #[trigger] m[i].0,
            ) < name_position(cells, #[trigger] m[j].0) by {
                assert(m[i] == prev[i]);
                assert(has_name(prev, prev[i].0));
                lemma_position_push(d, c, prev[i].0);
                lemma_position_facts(d, prev[i].0);
                if j < prev.len() {
                    assert(m[j] == prev[j]);
                    assert(has_name(prev, prev[j].0));
                    lemma_position_push(d, c, prev[j].0);
                } else {
                    lemma_position_push(d, c, c.0);
                }
            }
        }
    }
}

/// Looking a name up in the index of a file: it is unknown exactly when no
/// cell of the file has that name, and otherwise its range is that of the
/// last cell of that name.
pub proof fn lemma_lookup_finds_last_cell(d: Seq<u8>, name: Text)
    ensures
        ({
            let cells = spec_index_cells(d).cells;
            &&& lookup(merge_cells(cells), name) is None <==> !has_name(cells, name)
            &&& lookup(merge_cells(cells), name) matches Some((s, e)) ==> exists|j: int|
                0 <= j < cells.len() && #[trigger] cells[j] == (name, s, e) && forall|l: int|
                    j < l < cells.len() ==> #[trigger] cells[l].0 != name
        }),
{
    let cells = spec_index_cells(d).cells;
    let m = merge_cells(cells);
    lemma_merge_cells(cells);
    lemma_position_facts(m, name);
    assert(has_name(m, name) <==> has_name(cells, name));
    if let Some((s, e)) = lookup(m, name) {
        let k = name_position(m, name);
        assert(m[k] == (name, s, e));
    }
}

/// An index lookup finds nothing exactly for the names that `cell_names`
/// does not list; a listed name is found with the range of the last cell of
/// that name in the file.
pub proof fn lemma_unknown_iff_unlisted(li: &LibraryIndex, name: Text)
    requires
        li.wf(),
    ensures
        ({
            let es = entry_views(li.entries@);
            let cells = spec_index_cells(li.data@).cells;
            &&& lookup(es, name) is None <==> !es.map_values(|e: (Text, int, int)| e.0).contains(name)
            &&& lookup(es, name) matches Some((s, e)) ==> exists|j: int|
                0 <= j < cells.len() && #[trigger] cells[j] == (name, s, e) && forall|l: int|
                    j < l < cells.len() ==> #[trigger] cells[l].0 != name
        }),
{
    let es = entry_views(li.entries@);
    let names = es.map_values(|e: (Text, int, int)| e.0);
    lemma_lookup_finds_last_cell(li.data@, name);
    lemma_position_facts(es, name);
    if has_name(es, name) {
        let m = choose|m: int| 0 <= m < es.len() && #[trigger] es[m].0 == name;
        assert(names[m] == name);
    }
    if names.contains(name) {
        let m = choose|m: int| 0 <= m < names.len() && names[m] == name;
        assert(es[m].0 == name);
    }
}

/// The range that a well-formed index holds for a name starts inside the
/// data and ends after it starts, at most one past the end of the data; unless
/// the data ends in a backslash, it lies within the data.
pub proof fn lemma_lookup_range(li: &LibraryIndex, name: Text)
    requires
        li.wf(),
    ensures
        lookup(entry_views(li.entries@), name) matches Some((s, e)) ==> {
            &&& 0 <= s < e <= li.data@.len() + 1
            &&& s < li.data@.len()
            &&& ends_clean(li.data@) ==> e <= li.data@.len()
        },
{
    let cells = spec_index_cells(li.data@).cells;
    let m = merge_cells(cells);
    lemma_merge_cells(cells);
    lemma_index_ranges(li.data@);
    lemma_position_facts(m, name);
    if let Some((s, e)) = lookup(m, name) {
        let k = name_position(m, name);
        let j = choose|j: int|
            0 <= j < cells.len() && cells[j] == #[trigger] m[k] && forall|l: int|
                j < l < cells.len() ==> #[trigger] cells[l].0 != cells[j].0;
        assert(cells[j].1 < cells[j].2);
    }
}

/// `x`, or `n` where `x` lies past it: a range end held to the data's length.
pub open spec fn capped(x: int, n: int) -> int {
    if x <= n {
        x
    } else {
        n
    }
}

/// The range of the cell named `name` in `entries`, if there is one.
pub open spec fn lookup(entries: Seq<(Text, int, int)>, name: Text) -> Option<(int, int)> {
    let k = name_position(entries, name);
    if k < entries.len() {
        Some((entries[k].1, entries[k].2))
    } else {
        None
    }
}

/// The index of the position of `name` among the entries.
fn find_entry(entries: &Vec<(String, usize, usize)>, name: &str) -> (r: usize)
    ensures
        r as int == name_position(entry_views(entries@), name@),
        r <= entries@.len(),
{
    let ghost s = entry_views(entries@);
    let mut k: usize = 0;
    while k < entries.len()
        invariant
            k <= entries@.len(),
            s == entry_views(entries@),
            forall|m: int| 0 <= m < k ==> s[m].0 != name@,
        decreases entries@.len() - k,
    {
        if str_eq(entries[k].0.as_str(), name) {
            proof {
                lemma_name_position(s, name@, k as int);
            }
            return k;
        }
        k = k + 1;
    }
    proof {
        lemma_name_position(s, name@, k as int);
    }
    k
}

/// Indexes `data` and builds its `LibraryIndex`: the preamble, its range
/// held to the data's length, parsed as the library header, or why that
/// failed.
pub fn open_bytes(data: Vec<u8>) -> (r: Result<LibraryIndex, ParseError>)
    requires
        scannable(data@),
    ensures
        ({
            let idx = spec_index_cells(data@);
            let n = data@.len() as int;
            match spec_parse_slice(
                idx.library_name,
                data@.subrange(capped(idx.preamble_start, n), capped(idx.preamble_end, n)),
            ) {
                Ok(h) => r is Ok && r->Ok_0.wf() && r->Ok_0.data@ == data@ && r->Ok_0.header@ == h,
                Err(e) => r is Err && r->Err_0@ == e,
            }
        }),
{
    let idx = index_cells(data.as_slice());
    LibraryIndex::from_index(data, idx)
}

/// Why a cell could not be had from a `LibraryIndex`.
pub enum CellLookupError {
    /// No cell of that name is indexed.
    Unknown,
    /// The cell's text did not parse.
    Parse(ParseError),
    /// The cell's text parsed but held no cell.
    Missing,
}

/// A Liberty file in memory with its cell index. `entries` holds one
/// (name, start, end) per cell name; `header` is the library parsed without
/// its cells.
pub struct LibraryIndex {
    pub data: Vec<u8>,
    pub library_name: String,
    pub entries: Vec<(String, usize, usize)>,
    pub header: Document,
}

impl LibraryIndex {
    /// The index was built from `data`: its entries merge the file's cells and
    /// its header is the parsed preamble.
    pub open spec fn wf(&self) -> bool {
        let idx = spec_index_cells(self.data@);
        &&& scannable(self.data@)
        &&& self.library_name@ == idx.library_name
        &&& entry_views(self.entries@) == merge_cells(idx.cells)
        &&& spec_parse_slice(
            idx.library_name,
            self.data@.subrange(
                capped(idx.preamble_start, self.data@.len() as int),
                capped(idx.preamble_end, self.data@.len() as int),
            ),
        ) == Ok::<SpecDoc, SpecError>(self.header@)
    }

    /// Builds the index of `data` from its cell scan `idx`: parses the preamble
    /// (its range held to the data's length) as the library header, and keeps
    /// one entry per cell name.
    pub fn from_index(data: Vec<u8>, idx: CellIndex) -> (r: Result<LibraryIndex, ParseError>)
        requires
            scannable(data@),
            idx@ == spec_index_cells(data@),
        ensures
            match spec_parse_slice(
                idx.library_name@,
                data@.subrange(
                    capped(idx.preamble_start as int, data@.len() as int),
                    capped(idx.preamble_end as int, data@.len() as int),
                ),
            ) {
                Ok(h) => r is Ok && r->Ok_0.wf() && r->Ok_0.data@ == data@ && r->Ok_0.header@ == h,
                Err(e) => r is Err && r->Err_0@ == e,
            },
    {
        proof {
            lemma_index_ranges(data@);
        }
        let n = data.len();
        let ps = if idx.preamble_start <= n {
            idx.preamble_start
        } else {
            n
        };
        let pe = if idx.preamble_end <= n {
            idx.preamble_end
        } else {
            n
        };
        let header = match parse_slice_as_library(
            idx.library_name.as_str(),
            vstd::slice::slice_subrange(data.as_slice(), ps, pe),
        ) {
            Ok(h) => h,
            Err(e) => {
                return Err(e);
            },
        };
        let ghost all = entry_views(idx.cells@);
        let mut entries: Vec<(String, usize, usize)> = Vec::new();
        let mut k: usize = 0;
        proof {
            assert(all.take(0) =~= Seq::<(Text, int, int)>::empty());
            assert(entry_views(entries@) =~= Seq::<(Text, int, int)>::empty());
        }
        while k < idx.cells.len()
            invariant
                k <= idx.cells@.len(),
                all == entry_views(idx.cells@),
                entry_views(entries@) == merge_cells(all.take(k as int)),
            decreases idx.cells@.len() - k,
        {
            let name = &idx.cells[k].0;
            let s = idx.cells[k].1;
            let e = idx.cells[k].2;
            let pos = find_entry(&entries, name.as_str());
            let ghost prev = entry_views(entries@);
            proof {
                assert(all.take(k + 1).drop_last() =~= all.take(k as int));
                assert(all.take(k + 1).last() == all[k as int]);
            }
            if pos < entries.len() {
                entries.set(pos, (name.clone(), s, e));
                proof {
                    assert(entry_views(entries@) =~= prev.update(pos as int, all[k as int]));
                }
            } else {
                entries.push((name.clone(), s, e));
                proof {
                    assert(entry_views(entries@) =~= prev.push(all[k as int]));
                }
            }
            k = k + 1;
        }
        proof {
            assert(all.take(k as int) =~= all);
        }
        Ok(LibraryIndex { data, library_name: idx.library_name, entries, header })
    }

    /// The cell names, each once, in the order they first appear.
    pub fn cell_names(&self) -> (r: Vec<String>)
        ensures
            texts(r@) == entry_views(self.entries@).map_values(|e: (Text, int, int)| e.0),
    {
        broadcast use crate::data::group_view_push;

        let mut r: Vec<String> = Vec::new();
        let mut k: usize = 0;
        while k < self.entries.len()
            invariant
                k <= self.entries@.len(),
                texts(r@) == entry_views(self.entries@).take(k as int).map_values(
                    |e: (Text, int, int)| e.0,
                ),
            decreases self.entries@.len() - k,
        {
            let ghost r0 = texts(r@);
            let nm = self.entries[k].0.clone();
            r.push(nm);
            assert(texts(r@) == r0.push(nm@));
            k = k + 1;
            assert(texts(r@) =~= entry_views(self.entries@).take(k as int).map_values(
                |e: (Text, int, int)| e.0,
            ));
        }
        assert(entry_views(self.entries@).take(k as int) =~= entry_views(self.entries@));
        r
    }

    /// How many distinct cell names the file holds.
    pub fn num_cells(&self) -> (r: usize)
        ensures
            r == entry_views(self.entries@).len(),
    {
        self.entries.len()
    }

    /// The cell named `name`, parsed from its own bytes (its range held to
    /// the data's length) framed as a library with the file's library name.
    pub fn cell(&self, name: &str) -> (r: Result<CellData, CellLookupError>)
        requires
            self.wf(),
        ensures
            match lookup(entry_views(self.entries@), name@) {
                None => r matches Err(CellLookupError::Unknown),
                Some((s, e)) => match spec_parse_slice(
                    self.library_name@,
                    self.data@.subrange(s, capped(e, self.data@.len() as int)),
                ) {
                    Err(er) => r matches Err(CellLookupError::Parse(pe)) && pe@ == er,
                    Ok(doc) => if doc.cells.len() > 0 {
                        r is Ok && r->Ok_0@ == doc.cells[0]
                    } else {
                        r matches Err(CellLookupError::Missing)
                    },
                },
            },
    {
        let k = find_entry(&self.entries, name);
        if k >= self.entries.len() {
            return Err(CellLookupError::Unknown);
        }
        proof {
            lemma_lookup_range(self, name@);
        }
        let s = self.entries[k].1;
        let e = if self.entries[k].2 <= self.data.len() {
            self.entries[k].2
        } else {
            self.data.len()
        };
        let body = vstd::slice::slice_subrange(self.data.as_slice(), s, e);
        match parse_slice_as_library(self.library_name.as_str(), body) {
            Err(pe) => Err(CellLookupError::Parse(pe)),
            Ok(doc) => {
                let mut cells = doc.cells;
                if cells.len() > 0 {
                    Ok(cells.remove(0))
                } else {
                    Err(CellLookupError::Missing)
                }
            },
        }
    }

    /// The byte range of the cell named `name` (its last occurrence), if any.
    pub fn cell_range(&self, name: &str) -> (r: Option<(usize, usize)>)
        ensures
            match lookup(entry_views(self.entries@), name@) {
                Some((s, e)) => r == Some((s as usize, e as usize)),
                None => r is None,
            },
    {
        let k = find_entry(&self.entries, name);
        if k < self.entries.len() {
            Some((self.entries[k].1, self.entries[k].2))
        } else {
            None
        }
    }
}

} // verus!
