//! Queries over a parsed document: lookups by name, the `when`-aware arc
//! filters, and the long-form rows of timing and internal-power tables.
use vstd::prelude::*;
use crate::text::{texts, str_eq, string_of, append_str, debug_quoted, debug_string};
use crate::data::{
    Text, Document, CellData, PinData, BusData, BundleData, BusTypeData, TimingArcData,
    InternalPowerData, TimingTableData, SpecArc, SpecPower, opt_text, arcs, powers, group_view_push,
};
use crate::index::opt_int;
use crate::boolexpr::{BoolExpr, SpecBool, spec_parse_bool, spec_implies, parse_bool_expr, bool_implies};

verus! {

/// Items that carry a name.
pub trait Named {
    spec fn name_view(&self) -> Text;

    fn name_ref(&self) -> (r: &String)
        ensures
            r@ == self.name_view(),
    ;
}

impl Named for CellData {
    open spec fn name_view(&self) -> Text {
        self.name@
    }

    fn name_ref(&self) -> (r: &String) {
        &self.name
    }
}

impl Named for PinData {
    open spec fn name_view(&self) -> Text {
        self.name@
    }

    fn name_ref(&self) -> (r: &String) {
        &self.name
    }
}

impl Named for BusData {
    open spec fn name_view(&self) -> Text {
        self.name@
    }

    fn name_ref(&self) -> (r: &String) {
        &self.name
    }
}

impl Named for BundleData {
    open spec fn name_view(&self) -> Text {
        self.name@
    }

    fn name_ref(&self) -> (r: &String) {
        &self.name
    }
}

impl Named for BusTypeData {
    open spec fn name_view(&self) -> Text {
        self.name@
    }

    fn name_ref(&self) -> (r: &String) {
        &self.name
    }
}

impl Named for TimingTableData {
    open spec fn name_view(&self) -> Text {
        self.name@
    }

    fn name_ref(&self) -> (r: &String) {
        &self.name
    }
}

/// The names of `s`, in order.
pub open spec fn names_of<T: Named>(s: Seq<T>) -> Seq<Text> {
    s.map_values(|x: T| x.name_view())
}

/// `k` is the first position in `s` of an item named `name`.
pub open spec fn first_named_at<T: Named>(s: Seq<T>, name: Text, k: int) -> bool {
    &&& 0 <= k < s.len()
    &&& s[k].name_view() == name
    &&& forall|m: int| 0 <= m < k ==> s[m].name_view() != name
}

/// The position of the first item of `s` named `name`, if any.
pub open spec fn first_named<T: Named>(s: Seq<T>, name: Text) -> Option<int> {
    if exists|k: int| first_named_at(s, name, k) {
        Some(choose|k: int| first_named_at(s, name, k))
    } else {
        None
    }
}

proof fn lemma_first_named<T: Named>(s: Seq<T>, name: Text, k: int)
    requires
        0 <= k <= s.len(),
        forall|m: int| 0 <= m < k ==> s[m].name_view() != name,
        k == s.len() || s[k].name_view() == name,
    ensures
        first_named(s, name) == (if k < s.len() {
            Some(k)
        } else {
            None::<int>
        }),
{
    if k < s.len() {
        assert(first_named_at(s, name, k));
        let c = choose|c: int| first_named_at(s, name, c);
        assert(c == k) by {
            if c < k {
                assert(s[c].name_view() != name);
            } else if c > k {
                assert(s[k].name_view() != name);
            }
        }
    } else {
        assert(!exists|c: int| first_named_at(s, name, c)) by {
            if exists|c: int| first_named_at(s, name, c) {
                let c = choose|c: int| first_named_at(s, name, c);
                assert(s[c].name_view() != name);
            }
        }
    }
}

/// The names of `items`, in order.
pub fn names<T: Named>(items: &Vec<T>) -> (r: Vec<String>)
    ensures
        texts(r@) == names_of(items@),
{
    broadcast use group_view_push;

    let mut r: Vec<String> = Vec::new();
    let mut k: usize = 0;
    while k < items.len()
        invariant
            k <= items@.len(),
            texts(r@) == names_of(items@.take(k as int)),
        decreases items@.len() - k,
    {
        let ghost r0 = texts(r@);
        let nm = items[k].name_ref().clone();
        r.push(nm);
        assert(texts(r@) == r0.push(nm@));
        k = k + 1;
        assert(texts(r@) =~= names_of(items@.take(k as int)));
    }
    assert(items@.take(k as int) =~= items@);
    r
}

/// The position of the first of `items` named `name`, if any.
pub fn find_named<T: Named>(items: &Vec<T>, name: &str) -> (r: Option<usize>)
    ensures
        opt_int(r) == first_named(items@, name@),
{
    let mut k: usize = 0;
    while k < items.len()
        invariant
            k <= items@.len(),
            forall|m: int| 0 <= m < k ==> items@[m].name_view() != name@,
        decreases items@.len() - k,
    {
        if str_eq(items[k].name_ref().as_str(), name) {
            proof {
                lemma_first_named(items@, name@, k as int);
            }
            return Some(k);
        }
        k = k + 1;
    }
    proof {
        lemma_first_named(items@, name@, k as int);
    }
    None
}

impl Document {
    /// The cell names, in file order.
    pub fn cells(&self) -> (r: Vec<String>)
        ensures
            texts(r@) == names_of(self.cells@),
    {
        names(&self.cells)
    }

    /// The position of the first cell named `name`.
    pub fn cell(&self, name: &str) -> (r: Option<usize>)
        ensures
            opt_int(r) == first_named(self.cells@, name@),
    {
        find_named(&self.cells, name)
    }

    /// The names of the bus types (`type` groups), in file order.
    pub fn bus_types(&self) -> (r: Vec<String>)
        ensures
            texts(r@) == names_of(self.bus_types@),
    {
        names(&self.bus_types)
    }

    /// The position of the first bus type named `name`.
    pub fn bus_type(&self, name: &str) -> (r: Option<usize>)
        ensures
            opt_int(r) == first_named(self.bus_types@, name@),
    {
        find_named(&self.bus_types, name)
    }
}

impl CellData {
    pub fn pins(&self) -> (r: Vec<String>)
        ensures
            texts(r@) == names_of(self.pins@),
    {
        names(&self.pins)
    }

    pub fn pin(&self, name: &str) -> (r: Option<usize>)
        ensures
            opt_int(r) == first_named(self.pins@, name@),
    {
        find_named(&self.pins, name)
    }

    pub fn buses(&self) -> (r: Vec<String>)
        ensures
            texts(r@) == names_of(self.buses@),
    {
        names(&self.buses)
    }

    pub fn bus(&self, name: &str) -> (r: Option<usize>)
        ensures
            opt_int(r) == first_named(self.buses@, name@),
    {
        find_named(&self.buses, name)
    }

    pub fn bundles(&self) -> (r: Vec<String>)
        ensures
            texts(r@) == names_of(self.bundles@),
    {
        names(&self.bundles)
    }

    pub fn bundle(&self, name: &str) -> (r: Option<usize>)
        ensures
            opt_int(r) == first_named(self.bundles@, name@),
    {
        find_named(&self.bundles, name)
    }
}

impl BusData {
    pub fn pins(&self) -> (r: Vec<String>)
        ensures
            texts(r@) == names_of(self.pins@),
    {
        names(&self.pins)
    }

    pub fn pin(&self, name: &str) -> (r: Option<usize>)
        ensures
            opt_int(r) == first_named(self.pins@, name@),
    {
        find_named(&self.pins, name)
    }
}

impl BundleData {
    pub fn pins(&self) -> (r: Vec<String>)
        ensures
            texts(r@) == names_of(self.pins@),
    {
        names(&self.pins)
    }

    pub fn pin(&self, name: &str) -> (r: Option<usize>)
        ensures
            opt_int(r) == first_named(self.pins@, name@),
    {
        find_named(&self.pins, name)
    }
}

impl TimingArcData {
    pub fn tables(&self) -> (r: Vec<String>)
        ensures
            texts(r@) == names_of(self.tables@),
    {
        names(&self.tables)
    }

    pub fn table(&self, name: &str) -> (r: Option<usize>)
        ensures
            opt_int(r) == first_named(self.tables@, name@),
    {
        find_named(&self.tables, name)
    }
}

impl InternalPowerData {
    pub fn tables(&self) -> (r: Vec<String>)
        ensures
            texts(r@) == names_of(self.tables@),
    {
        names(&self.tables)
    }

    pub fn table(&self, name: &str) -> (r: Option<usize>)
        ensures
            opt_int(r) == first_named(self.tables@, name@),
    {
        find_named(&self.tables, name)
    }
}

/// The value of the first attribute whose key is `key`.
pub open spec fn first_value(attrs: Seq<(String, String)>, key: Text) -> Option<Text>
    decreases attrs.len(),
{
    if attrs.len() == 0 {
        None
    } else if attrs[0].0@ == key {
        Some(attrs[0].1@)
    } else {
        first_value(attrs.drop_first(), key)
    }
}

impl BusTypeData {
    /// The value of the attribute `key`, if the bus type has one.
    pub fn get(&self, key: &str) -> (r: Option<String>)
        ensures
            match first_value(self.attributes@, key@) {
                Some(v) => r is Some && r->0@ == v,
                None => r is None,
            },
    {
        let mut k: usize = 0;
        assert(self.attributes@.skip(0) =~= self.attributes@);
        while k < self.attributes.len()
            invariant
                k <= self.attributes@.len(),
                first_value(self.attributes@, key@) == first_value(
                    self.attributes@.skip(k as int),
                    key@,
                ),
            decreases self.attributes@.len() - k,
        {
            let ghost rest = self.attributes@.skip(k as int);
            assert(rest[0] == self.attributes@[k as int]);
            if str_eq(self.attributes[k].0.as_str(), key) {
                return Some(self.attributes[k].1.clone());
            }
            assert(rest.drop_first() =~= self.attributes@.skip(k + 1));
            k = k + 1;
        }
        None
    }
}

/// A message naming something in quotes, as a lookup that fails reports it:
/// `prefix` followed by `name` in `{:?}` form (`unknown cell "x"`).
pub fn quoted_message(prefix: &str, name: &str) -> (r: String)
    ensures
        r@ == prefix@ + debug_quoted(name@),
{
    let mut s = string_of(prefix);
    let q = debug_string(name);
    append_str(&mut s, q.as_str());
    s
}

// ---- filters ----

/// The view of an optional string slice.
pub open spec fn opt_str(o: Option<&str>) -> Option<Text> {
    match o {
        Some(s) => Some(s@),
        None => None,
    }
}

/// A name filter: no filter, or the exact name.
pub open spec fn spec_matches(filter: Option<Text>, actual: Text) -> bool {
    match filter {
        None => true,
        Some(f) => f == actual,
    }
}

/// A filter on an optional attribute: no filter, or an attribute present and
/// equal to it.
pub open spec fn spec_matches_opt(filter: Option<Text>, actual: Option<Text>) -> bool {
    match filter {
        None => true,
        Some(f) => actual == Some(f),
    }
}

pub fn matches_opt(filter: Option<&str>, actual: &str) -> (r: bool)
    ensures
        r == spec_matches(opt_str(filter), actual@),
{
    match filter {
        None => true,
        Some(f) => str_eq(f, actual),
    }
}

pub fn matches_opt_opt(filter: Option<&str>, actual: &Option<String>) -> (r: bool)
    ensures
        r == spec_matches_opt(opt_str(filter), opt_text(*actual)),
{
    match filter {
        None => true,
        Some(f) => match actual {
            None => false,
            Some(a) => str_eq(a.as_str(), f),
        },
    }
}

/// A parsed `when` query; `None` asks for nothing.
pub struct WhenFilter {
    pub query: Option<BoolExpr>,
}

pub open spec fn when_query(q: Option<BoolExpr>) -> Option<SpecBool> {
    match q {
        Some(e) => Some(e@),
        None => None,
    }
}

/// Whether an arc whose condition is `actual` answers the `when` query `q`:
/// always without a query; otherwise only when the arc has a condition that
/// parses and implies the query.
pub open spec fn when_matches(q: Option<SpecBool>, actual: Option<Text>) -> bool {
    match q {
        None => true,
        Some(qe) => match actual {
            None => false,
            Some(a) => match spec_parse_bool(a) {
                Ok(ae) => spec_implies(ae, qe),
                Err(_) => false,
            },
        },
    }
}

/// The message for a `when` query that does not parse.
pub open spec fn when_error(m: Text) -> Text {
    "invalid when expression: "@ + m
}

/// The outcome of building a `WhenFilter` from an optional query text.
pub open spec fn spec_when_filter(query: Option<Text>) -> Result<Option<SpecBool>, Text> {
    match query {
        None => Ok(None),
        Some(q) => match spec_parse_bool(q) {
            Ok(e) => Ok(Some(e)),
            Err(m) => Err(when_error(m)),
        },
    }
}

impl WhenFilter {
    /// Parses the query, if any.
    pub fn new(query: Option<&str>) -> (r: Result<WhenFilter, String>)
        ensures
            match spec_when_filter(opt_str(query)) {
                Ok(q) => r is Ok && when_query(r->Ok_0.query) == q,
                Err(m) => r is Err && r->Err_0@ == m,
            },
    {
        match query {
            None => Ok(WhenFilter { query: None }),
            Some(q) => match parse_bool_expr(q) {
                Ok(e) => Ok(WhenFilter { query: Some(e) }),
                Err(m) => {
                    let mut msg = string_of("invalid when expression: ");
                    append_str(&mut msg, m.as_str());
                    Err(msg)
                },
            },
        }
    }

    /// Whether an arc whose condition is `actual` answers the query.
    pub fn matches(&self, actual: &Option<String>) -> (r: bool)
        ensures
            r == when_matches(when_query(self.query), opt_text(*actual)),
    {
        match &self.query {
            None => true,
            Some(q) => match actual {
                None => false,
                Some(a) => match parse_bool_expr(a.as_str()) {
                    Ok(ae) => bool_implies(&ae, q),
                    Err(_) => false,
                },
            },
        }
    }
}

/// The positions of the items of `s` that satisfy `p`, in order.
pub open spec fn positions_where<A>(s: Seq<A>, p: spec_fn(A) -> bool) -> Seq<int>
    decreases s.len(),
{
    if s.len() == 0 {
        Seq::empty()
    } else {
        let q = positions_where(s.drop_last(), p);
        if p(s.last()) {
            q.push(s.len() - 1)
        } else {
            q
        }
    }
}

pub open spec fn ints(v: Seq<usize>) -> Seq<int> {
    v.map_values(|i: usize| i as int)
}

/// A filter keeps exactly the items that satisfy it, in their order.
pub proof fn lemma_positions_where<A>(s: Seq<A>, p: spec_fn(A) -> bool)
    ensures
        forall|k: int| 0 <= k < s.len() ==> (positions_where(s, p).contains(k) <==> p(#[trigger] s[k])),
        forall|i: int|
            0 <= i < positions_where(s, p).len() ==> 0 <= #[trigger] positions_where(s, p)[i] < s.len(),
        forall|i: int, j: int|
            0 <= i < j < positions_where(s, p).len() ==> #[trigger] positions_where(s, p)[i]
                < #[trigger] positions_where(s, p)[j],
    decreases s.len(),
{
    if s.len() > 0 {
        let d = s.drop_last();
        lemma_positions_where(d, p);
        let q = positions_where(d, p);
        assert forall|k: int| 0 <= k < s.len() implies (positions_where(s, p).contains(k) <==> p(
            #[trigger] s[k],
        )) by {
            if k < d.len() {
                assert(s[k] == d[k]);
                if positions_where(s, p).contains(k) {
                    let i = choose|i: int|
                        0 <= i < positions_where(s, p).len() && positions_where(s, p)[i] == k;
                    if i < q.len() {
                        assert(q[i] == k);
                    }
                }
                if q.contains(k) {
                    let i = choose|i: int| 0 <= i < q.len() && q[i] == k;
                    assert(positions_where(s, p)[i] == k);
                }
            } else {
                if p(s[k]) {
                    assert(positions_where(s, p)[q.len() as int] == k);
                } else {
                    if positions_where(s, p).contains(k) {
                        let i = choose|i: int|
                            0 <= i < positions_where(s, p).len() && positions_where(s, p)[i] == k;
                        assert(q[i] < d.len());
                    }
                }
            }
        }
    }
}

/// The arcs that a `timing_arcs` query selects.
pub open spec fn arc_selected(
    related_pin: Option<Text>,
    timing_type: Option<Text>,
    when: Option<SpecBool>,
    a: SpecArc,
) -> bool {
    &&& spec_matches_opt(related_pin, a.related_pin)
    &&& spec_matches_opt(timing_type, a.timing_type)
    &&& when_matches(when, a.when)
}

/// The `internal_power` groups that a query selects.
pub open spec fn power_selected(
    related_pin: Option<Text>,
    related_pg_pin: Option<Text>,
    when: Option<SpecBool>,
    g: SpecPower,
) -> bool {
    &&& spec_matches_opt(related_pin, g.related_pin)
    &&& spec_matches_opt(related_pg_pin, g.related_pg_pin)
    &&& when_matches(when, g.when)
}

/// The positions of the arcs that match the filters; an invalid `when`
/// query is an error.
pub fn filter_timing_arcs(
    list: &Vec<TimingArcData>,
    related_pin: Option<&str>,
    timing_type: Option<&str>,
    when: Option<&str>,
) -> (r: Result<Vec<usize>, String>)
    ensures
        match spec_when_filter(opt_str(when)) {
            Err(m) => r is Err && r->Err_0@ == m,
            Ok(w) => r is Ok && ints(r->Ok_0@) == positions_where(
                arcs(list@),
                |a: SpecArc| arc_selected(opt_str(related_pin), opt_str(timing_type), w, a),
            ),
        },
{
    let wf = match WhenFilter::new(when) {
        Ok(f) => f,
        Err(m) => {
            return Err(m);
        },
    };
    let ghost w = when_query(wf.query);
    let ghost p = |a: SpecArc| arc_selected(opt_str(related_pin), opt_str(timing_type), w, a);
    let ghost all = arcs(list@);
    let mut out: Vec<usize> = Vec::new();
    let mut k: usize = 0;
    assert(ints(out@) =~= positions_where(all.take(0), p));
    while k < list.len()
        invariant
            k <= list@.len(),
            all == arcs(list@),
            w == when_query(wf.query),
            p == (|a: SpecArc| arc_selected(opt_str(related_pin), opt_str(timing_type), w, a)),
            ints(out@) == positions_where(all.take(k as int), p),
        decreases list@.len() - k,
    {
        let a = &list[k];
        let ghost o = ints(out@);
        proof {
            let t = all.take(k + 1);
            assert(t.drop_last() =~= all.take(k as int));
            assert(t.last() == a@);
        }
        if matches_opt_opt(related_pin, &a.related_pin) && matches_opt_opt(
            timing_type,
            &a.timing_type,
        ) && wf.matches(&a.when) {
            out.push(k);
            assert(ints(out@) =~= o.push(k as int));
        }
        k = k + 1;
    }
    assert(all.take(k as int) =~= all);
    Ok(out)
}

/// The positions of the `internal_power` groups that match the filters; an
/// invalid `when` query is an error.
pub fn filter_internal_power(
    list: &Vec<InternalPowerData>,
    related_pin: Option<&str>,
    related_pg_pin: Option<&str>,
    when: Option<&str>,
) -> (r: Result<Vec<usize>, String>)
    ensures
        match spec_when_filter(opt_str(when)) {
            Err(m) => r is Err && r->Err_0@ == m,
            Ok(w) => r is Ok && ints(r->Ok_0@) == positions_where(
                powers(list@),
                |g: SpecPower| power_selected(opt_str(related_pin), opt_str(related_pg_pin), w, g),
            ),
        },
{
    let wf = match WhenFilter::new(when) {
        Ok(f) => f,
        Err(m) => {
            return Err(m);
        },
    };
    let ghost w = when_query(wf.query);
    let ghost p = |g: SpecPower| power_selected(opt_str(related_pin), opt_str(related_pg_pin), w, g);
    let ghost all = powers(list@);
    let mut out: Vec<usize> = Vec::new();
    let mut k: usize = 0;
    assert(ints(out@) =~= positions_where(all.take(0), p));
    while k < list.len()
        invariant
            k <= list@.len(),
            all == powers(list@),
            w == when_query(wf.query),
            p == (|g: SpecPower| power_selected(opt_str(related_pin), opt_str(related_pg_pin), w, g)),
            ints(out@) == positions_where(all.take(k as int), p),
        decreases list@.len() - k,
    {
        let g = &list[k];
        let ghost o = ints(out@);
        proof {
            let t = all.take(k + 1);
            assert(t.drop_last() =~= all.take(k as int));
            assert(t.last() == g@);
        }
        if matches_opt_opt(related_pin, &g.related_pin) && matches_opt_opt(
            related_pg_pin,
            &g.related_pg_pin,
        ) && wf.matches(&g.when) {
            out.push(k);
            assert(ints(out@) =~= o.push(k as int));
        }
        k = k + 1;
    }
    assert(all.take(k as int) =~= all);
    Ok(out)
}

impl PinData {
    /// The positions of this pin's arcs that match the filters.
    pub fn timing_arcs(
        &self,
        related_pin: Option<&str>,
        timing_type: Option<&str>,
        when: Option<&str>,
    ) -> (r: Result<Vec<usize>, String>)
        ensures
            match spec_when_filter(opt_str(when)) {
                Err(m) => r is Err && r->Err_0@ == m,
                Ok(w) => r is Ok && ints(r->Ok_0@) == positions_where(
                    arcs(self.timing_arcs@),
                    |a: SpecArc| arc_selected(opt_str(related_pin), opt_str(timing_type), w, a),
                ),
            },
    {
        filter_timing_arcs(&self.timing_arcs, related_pin, timing_type, when)
    }

    /// The positions of this pin's `internal_power` groups that match the
    /// filters.
    pub fn internal_power(
        &self,
        related_pin: Option<&str>,
        related_pg_pin: Option<&str>,
        when: Option<&str>,
    ) -> (r: Result<Vec<usize>, String>)
        ensures
            match spec_when_filter(opt_str(when)) {
                Err(m) => r is Err && r->Err_0@ == m,
                Ok(w) => r is Ok && ints(r->Ok_0@) == positions_where(
                    powers(self.internal_powers@),
                    |g: SpecPower| power_selected(opt_str(related_pin), opt_str(related_pg_pin), w, g),
                ),
            },
    {
        filter_internal_power(&self.internal_powers, related_pin, related_pg_pin, when)
    }
}

impl BusData {
    /// The positions of the bus's own arcs that match the filters.
    pub fn timing_arcs(
        &self,
        related_pin: Option<&str>,
        timing_type: Option<&str>,
        when: Option<&str>,
    ) -> (r: Result<Vec<usize>, String>)
        ensures
            match spec_when_filter(opt_str(when)) {
                Err(m) => r is Err && r->Err_0@ == m,
                Ok(w) => r is Ok && ints(r->Ok_0@) == positions_where(
                    arcs(self.timing_arcs@),
                    |a: SpecArc| arc_selected(opt_str(related_pin), opt_str(timing_type), w, a),
                ),
            },
    {
        filter_timing_arcs(&self.timing_arcs, related_pin, timing_type, when)
    }
}

impl BundleData {
    /// The positions of the bundle's own arcs that match the filters.
    pub fn timing_arcs(
        &self,
        related_pin: Option<&str>,
        timing_type: Option<&str>,
        when: Option<&str>,
    ) -> (r: Result<Vec<usize>, String>)
        ensures
            match spec_when_filter(opt_str(when)) {
                Err(m) => r is Err && r->Err_0@ == m,
                Ok(w) => r is Ok && ints(r->Ok_0@) == positions_where(
                    arcs(self.timing_arcs@),
                    |a: SpecArc| arc_selected(opt_str(related_pin), opt_str(timing_type), w, a),
                ),
            },
    {
        filter_timing_arcs(&self.timing_arcs, related_pin, timing_type, when)
    }
}

} // verus!
