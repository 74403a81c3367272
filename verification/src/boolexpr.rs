//! Liberty Boolean expressions (`when` conditions): parsing, evaluation and the
//! implication test that `when` filters are built on.
use vstd::prelude::*;
use vstd::utf8::*;
use crate::text::{texts, string_is, string_from_chars, str_chars, is_whitespace, spec_is_whitespace, spec_decimal, push_decimal, string_of};

verus! {

/// A parsed Boolean expression.
pub enum BoolExpr {
    Var(String),
    Const(bool),
    Not(Box<BoolExpr>),
    And(Box<BoolExpr>, Box<BoolExpr>),
    Or(Box<BoolExpr>, Box<BoolExpr>),
    Xor(Box<BoolExpr>, Box<BoolExpr>),
}

/// The mathematical form of a `BoolExpr`: variable names as character sequences.
pub enum SpecBool {
    Var(Seq<char>),
    Const(bool),
    Not(Box<SpecBool>),
    And(Box<SpecBool>, Box<SpecBool>),
    Or(Box<SpecBool>, Box<SpecBool>),
    Xor(Box<SpecBool>, Box<SpecBool>),
}

impl View for BoolExpr {
    type V = SpecBool;

    open spec fn view(&self) -> SpecBool
        decreases self,
    {
        match self {
            BoolExpr::Var(name) => SpecBool::Var(name@),
            BoolExpr::Const(b) => SpecBool::Const(*b),
            BoolExpr::Not(e) => SpecBool::Not(Box::new((**e).view())),
            BoolExpr::And(l, r) => SpecBool::And(Box::new((**l).view()), Box::new((**r).view())),
            BoolExpr::Or(l, r) => SpecBool::Or(Box::new((**l).view()), Box::new((**r).view())),
            BoolExpr::Xor(l, r) => SpecBool::Xor(Box::new((**l).view()), Box::new((**r).view())),
        }
    }
}

/// The value of `e` when exactly the variables in `t` are true.
pub open spec fn spec_eval(e: SpecBool, t: Set<Seq<char>>) -> bool
    decreases e,
{
    match e {
        SpecBool::Var(name) => t.contains(name),
        SpecBool::Const(b) => b,
        SpecBool::Not(x) => !spec_eval(*x, t),
        SpecBool::And(l, r) => spec_eval(*l, t) && spec_eval(*r, t),
        SpecBool::Or(l, r) => spec_eval(*l, t) || spec_eval(*r, t),
        SpecBool::Xor(l, r) => spec_eval(*l, t) != spec_eval(*r, t),
    }
}

/// Whether variable `v` occurs in `e`.
pub open spec fn occurs(e: SpecBool, v: Seq<char>) -> bool
    decreases e,
{
    match e {
        SpecBool::Var(name) => name == v,
        SpecBool::Const(_) => false,
        SpecBool::Not(x) => occurs(*x, v),
        SpecBool::And(l, r) => occurs(*l, v) || occurs(*r, v),
        SpecBool::Or(l, r) => occurs(*l, v) || occurs(*r, v),
        SpecBool::Xor(l, r) => occurs(*l, v) || occurs(*r, v),
    }
}

/// `acc` extended, left to right, by the variables of `e` not yet in it.
pub open spec fn spec_collect(e: SpecBool, acc: Seq<Seq<char>>) -> Seq<Seq<char>>
    decreases e,
{
    match e {
        SpecBool::Var(name) => if acc.contains(name) {
            acc
        } else {
            acc.push(name)
        },
        SpecBool::Const(_) => acc,
        SpecBool::Not(x) => spec_collect(*x, acc),
        SpecBool::And(l, r) => spec_collect(*r, spec_collect(*l, acc)),
        SpecBool::Or(l, r) => spec_collect(*r, spec_collect(*l, acc)),
        SpecBool::Xor(l, r) => spec_collect(*r, spec_collect(*l, acc)),
    }
}

/// The distinct variables of `actual` then `query`, in order of first occurrence.
pub open spec fn implication_vars(actual: SpecBool, query: SpecBool) -> Seq<Seq<char>> {
    spec_collect(query, spec_collect(actual, Seq::empty()))
}

/// Whether `actual` implies `query` under every assignment of truth values,
/// decided by enumeration: answered `false` when the two expressions hold as
/// many distinct variables as a `usize` has bits.
pub open spec fn spec_implies(actual: SpecBool, query: SpecBool) -> bool {
    &&& implication_vars(actual, query).len() < usize::BITS
    &&& forall|t: Set<Seq<char>>| spec_eval(actual, t) ==> #[trigger] spec_eval(query, t)
}

/// The set of names held by a vector of strings.
pub open spec fn name_set(v: Seq<String>) -> Set<Seq<char>> {
    texts(v).to_set()
}

proof fn lemma_push_contains(s: Seq<Seq<char>>, x: Seq<char>)
    ensures
        forall|v: Seq<char>| #[trigger] s.push(x).contains(v) <==> s.contains(v) || v == x,
{
    assert forall|v: Seq<char>| #[trigger] s.push(x).contains(v) <==> s.contains(v) || v == x by {
        if s.contains(v) {
            let k = choose|k: int| 0 <= k < s.len() && s[k] == v;
            assert(s.push(x)[k] == v);
        }
        if v == x {
            assert(s.push(x)[s.len() as int] == v);
        }
        if s.push(x).contains(v) {
            let k = choose|k: int| 0 <= k < s.len() + 1 && s.push(x)[k] == v;
            if k < s.len() {
                assert(s[k] == v);
            }
        }
    }
}

pub proof fn lemma_collect_grows(e: SpecBool, acc: Seq<Seq<char>>)
    ensures
        forall|v: Seq<char>| acc.contains(v) ==> #[trigger] spec_collect(e, acc).contains(v),
        forall|v: Seq<char>| occurs(e, v) ==> #[trigger] spec_collect(e, acc).contains(v),
        forall|v: Seq<char>| #[trigger]
            spec_collect(e, acc).contains(v) ==> acc.contains(v) || occurs(e, v),
    decreases e,
{
    match e {
        SpecBool::Var(name) => {
            lemma_push_contains(acc, name);
            let c = spec_collect(e, acc);
            assert(c == if acc.contains(name) { acc } else { acc.push(name) });
            assert forall|v: Seq<char>| acc.contains(v) implies #[trigger] c.contains(v) by {}
            assert forall|v: Seq<char>| occurs(e, v) implies #[trigger] c.contains(v) by {
                assert(v == name);
            }
        },
        SpecBool::Const(_) => {},
        SpecBool::Not(x) => {
            lemma_collect_grows(*x, acc);
            assert(spec_collect(e, acc) == spec_collect(*x, acc));
            assert forall|v: Seq<char>| occurs(e, v) implies occurs(*x, v) by {}
        },
        SpecBool::And(l, r) => {
            lemma_collect_grows(*l, acc);
            lemma_collect_grows(*r, spec_collect(*l, acc));
            assert(spec_collect(e, acc) == spec_collect(*r, spec_collect(*l, acc)));
            assert forall|v: Seq<char>| acc.contains(v) implies #[trigger] spec_collect(
                e,
                acc,
            ).contains(v) by {
                assert(spec_collect(*l, acc).contains(v));
            }
            assert forall|v: Seq<char>| occurs(e, v) implies #[trigger] spec_collect(
                e,
                acc,
            ).contains(v) by {
                if occurs(*l, v) {
                    assert(spec_collect(*l, acc).contains(v));
                }
            }
        },
        SpecBool::Or(l, r) => {
            lemma_collect_grows(*l, acc);
            lemma_collect_grows(*r, spec_collect(*l, acc));
            assert(spec_collect(e, acc) == spec_collect(*r, spec_collect(*l, acc)));
            assert forall|v: Seq<char>| acc.contains(v) implies #[trigger] spec_collect(
                e,
                acc,
            ).contains(v) by {
                assert(spec_collect(*l, acc).contains(v));
            }
            assert forall|v: Seq<char>| occurs(e, v) implies #[trigger] spec_collect(
                e,
                acc,
            ).contains(v) by {
                if occurs(*l, v) {
                    assert(spec_collect(*l, acc).contains(v));
                }
            }
        },
        SpecBool::Xor(l, r) => {
            lemma_collect_grows(*l, acc);
            lemma_collect_grows(*r, spec_collect(*l, acc));
            assert(spec_collect(e, acc) == spec_collect(*r, spec_collect(*l, acc)));
            assert forall|v: Seq<char>| acc.contains(v) implies #[trigger] spec_collect(
                e,
                acc,
            ).contains(v) by {
                assert(spec_collect(*l, acc).contains(v));
            }
            assert forall|v: Seq<char>| occurs(e, v) implies #[trigger] spec_collect(
                e,
                acc,
            ).contains(v) by {
                if occurs(*l, v) {
                    assert(spec_collect(*l, acc).contains(v));
                }
            }
        },
    }
}

/// The value of an expression depends only on the truth of its own variables.
pub proof fn lemma_eval_depends_on_occurring(e: SpecBool, t1: Set<Seq<char>>, t2: Set<Seq<char>>)
    requires
        forall|v: Seq<char>| occurs(e, v) ==> (t1.contains(v) <==> t2.contains(v)),
    ensures
        spec_eval(e, t1) == spec_eval(e, t2),
    decreases e,
{
    match e {
        SpecBool::Var(name) => {
            assert(occurs(e, name));
        },
        SpecBool::Const(_) => {},
        SpecBool::Not(x) => {
            lemma_eval_depends_on_occurring(*x, t1, t2);
        },
        SpecBool::And(l, r) => {
            lemma_eval_depends_on_occurring(*l, t1, t2);
            lemma_eval_depends_on_occurring(*r, t1, t2);
        },
        SpecBool::Or(l, r) => {
            lemma_eval_depends_on_occurring(*l, t1, t2);
            lemma_eval_depends_on_occurring(*r, t1, t2);
        },
        SpecBool::Xor(l, r) => {
            lemma_eval_depends_on_occurring(*l, t1, t2);
            lemma_eval_depends_on_occurring(*r, t1, t2);
        },
    }
}

/// Whether `name` is one of `names`.
pub fn contains_name(names: &Vec<String>, name: &String) -> (r: bool)
    ensures
        r == name_set(names@).contains(name@),
{
    let mut i: usize = 0;
    while i < names.len()
        invariant
            i <= names@.len(),
            forall|k: int| 0 <= k < i ==> names@[k]@ != name@,
        decreases names@.len() - i,
    {
        if names[i] == *name {
            proof {
                assert(texts(names@)[i as int] == name@);
            }
            return true;
        }
        i = i + 1;
    }
    proof {
        if name_set(names@).contains(name@) {
            let k = choose|k: int| 0 <= k < texts(names@).len() && texts(names@)[k] == name@;
            assert(names@[k]@ == name@);
        }
    }
    false
}

impl BoolExpr {
    /// The value of the expression when exactly the variables in `true_vars`
    /// are true.
    pub fn eval(&self, true_vars: &Vec<String>) -> (r: bool)
        ensures
            r == spec_eval(self@, name_set(true_vars@)),
        decreases self,
    {
        match self {
            BoolExpr::Var(name) => contains_name(true_vars, name),
            BoolExpr::Const(value) => *value,
            BoolExpr::Not(expr) => !expr.eval(true_vars),
            BoolExpr::And(left, right) => left.eval(true_vars) && right.eval(true_vars),
            BoolExpr::Or(left, right) => left.eval(true_vars) || right.eval(true_vars),
            BoolExpr::Xor(left, right) => left.eval(true_vars) ^ right.eval(true_vars),
        }
    }

    /// Appends to `vars` the variables of the expression not yet in it, in
    /// order of first occurrence.
    pub fn collect_vars(&self, vars: &mut Vec<String>)
        ensures
            texts(final(vars)@) == spec_collect(self@, texts(old(vars)@)),
        decreases self,
    {
        match self {
            BoolExpr::Var(name) => {
                let present = contains_name(vars, name);
                proof {
                    assert(name_set(vars@).contains(name@) == texts(vars@).contains(name@));
                }
                if !present {
                    vars.push(name.clone());
                    assert(texts(vars@) =~= texts(old(vars)@).push(name@));
                }
            },
            BoolExpr::Const(_) => {},
            BoolExpr::Not(expr) => expr.collect_vars(vars),
            BoolExpr::And(left, right) | BoolExpr::Or(left, right) | BoolExpr::Xor(left, right) => {
                left.collect_vars(vars);
                right.collect_vars(vars);
            },
        }
    }
}

// ---- assignments as bit masks ----
/// The set of variables `vars[idx]` whose bit `idx` is set in `mask`.
pub open spec fn mask_set(vars: Seq<Seq<char>>, mask: usize) -> Set<Seq<char>> {
    Set::new(
        |v: Seq<char>|
            exists|idx: int|
                0 <= idx < vars.len() && idx < usize::BITS && #[trigger] vars[idx] == v && (mask
                    & (1usize << (idx as usize))) != 0,
    )
}

/// The mask whose bit `idx < k` is set exactly when `vars[idx]` is in `t`.
pub open spec fn mask_of(t: Set<Seq<char>>, vars: Seq<Seq<char>>, k: nat) -> usize
    decreases k,
{
    if k == 0 {
        0
    } else if t.contains(vars[k - 1]) {
        mask_of(t, vars, (k - 1) as nat) | (1usize << ((k - 1) as usize))
    } else {
        mask_of(t, vars, (k - 1) as nat)
    }
}

proof fn lemma_bits_set(m: usize, j: usize, i: usize)
    by (bit_vector)
    requires
        j + 1 < usize::BITS,
        m < (1usize << j),
        i < j,
    ensures
        (m | (1usize << j)) < (1usize << (j + 1)),
        m < (1usize << (j + 1)),
        ((m | (1usize << j)) & (1usize << i)) == (m & (1usize << i)),
        ((m | (1usize << j)) & (1usize << j)) != 0,
        (m & (1usize << j)) == 0,
{
}

proof fn lemma_bits_top(m: usize, j: usize)
    by (bit_vector)
    requires
        j + 1 < usize::BITS,
        m < (1usize << j),
    ensures
        (m | (1usize << j)) < (1usize << (j + 1)),
        m < (1usize << (j + 1)),
        ((m | (1usize << j)) & (1usize << j)) != 0,
        (m & (1usize << j)) == 0,
{
}

proof fn lemma_bits_zero()
    by (bit_vector)
    ensures
        (0usize < (1usize << 0usize)),
{
}

proof fn lemma_mask_of(t: Set<Seq<char>>, vars: Seq<Seq<char>>, k: nat)
    requires
        k <= vars.len(),
        k < usize::BITS,
    ensures
        mask_of(t, vars, k) < (1usize << (k as usize)),
        forall|idx: int|
            0 <= idx < k ==> ((mask_of(t, vars, k) & (1usize << (idx as usize))) != 0
                <==> t.contains(vars[idx])),
    decreases k,
{
    if k == 0 {
        lemma_bits_zero();
    } else {
        let j = (k - 1) as usize;
        let m = mask_of(t, vars, (k - 1) as nat);
        lemma_mask_of(t, vars, (k - 1) as nat);
        lemma_bits_top(m, j);
        assert forall|idx: int|
            0 <= idx < k implies ((mask_of(t, vars, k) & (1usize << (idx as usize))) != 0
            <==> t.contains(vars[idx])) by {
            if idx < j {
                lemma_bits_set(m, j, idx as usize);
            }
        }
    }
}

/// For every truth assignment there is a mask below `2^n` that agrees with it
/// on the listed variables.
proof fn lemma_mask_covers(t: Set<Seq<char>>, vars: Seq<Seq<char>>)
    requires
        vars.len() < usize::BITS,
    ensures
        mask_of(t, vars, vars.len()) < (1usize << (vars.len() as usize)),
        forall|v: Seq<char>|
            vars.contains(v) ==> (#[trigger] mask_set(vars, mask_of(t, vars, vars.len())).contains(
                v,
            ) <==> t.contains(v)),
{
    let n = vars.len();
    let m = mask_of(t, vars, n);
    lemma_mask_of(t, vars, n);
    assert forall|v: Seq<char>| vars.contains(v) implies (#[trigger] mask_set(vars, m).contains(v)
        <==> t.contains(v)) by {
        let k = choose|k: int| 0 <= k < vars.len() && vars[k] == v;
        if t.contains(v) {
            assert((m & (1usize << (k as usize))) != 0);
            assert(mask_set(vars, m).contains(v));
        }
        if mask_set(vars, m).contains(v) {
            let idx = choose|idx: int|
                0 <= idx < vars.len() && idx < usize::BITS && #[trigger] vars[idx] == v && (m & (
                1usize << (idx as usize))) != 0;
            assert(t.contains(vars[idx]));
        }
    }
}

/// The truth assignment for `mask`: the names `vars[idx]` whose bit is set.
fn assignment(vars: &Vec<String>, mask: usize) -> (r: Vec<String>)
    requires
        vars@.len() < usize::BITS,
    ensures
        name_set(r@) == mask_set(texts(vars@), mask),
{
    let mut r: Vec<String> = Vec::new();
    let mut idx: usize = 0;
    while idx < vars.len()
        invariant
            idx <= vars@.len() < usize::BITS,
            forall|v: Seq<char>|
                #![trigger name_set(r@).contains(v)]
                name_set(r@).contains(v) <==> exists|j: int|
                    0 <= j < idx && #[trigger] texts(vars@)[j] == v && (mask & (1usize << (
                    j as usize))) != 0,
        decreases vars@.len() - idx,
    {
        let ghost old_r = r@;
        if (mask & (1usize << idx)) != 0 {
            r.push(vars[idx].clone());
            proof {
                assert(texts(r@) =~= texts(old_r).push(vars@[idx as int]@));
                assert forall|v: Seq<char>| #[trigger]
                    name_set(r@).contains(v) <==> exists|j: int|
                        0 <= j < idx + 1 && #[trigger] texts(vars@)[j] == v && (mask & (1usize
                            << (j as usize))) != 0 by {
                    if name_set(r@).contains(v) {
                        let k = choose|k: int| 0 <= k < texts(r@).len() && texts(r@)[k] == v;
                        if k == old_r.len() {
                            assert(texts(vars@)[idx as int] == v);
                        } else {
                            assert(texts(old_r)[k] == v);
                            assert(name_set(old_r).contains(v));
                        }
                    }
                    if exists|j: int|
                        0 <= j < idx + 1 && #[trigger] texts(vars@)[j] == v && (mask & (1usize
                            << (j as usize))) != 0 {
                        let j = choose|j: int|
                            0 <= j < idx + 1 && #[trigger] texts(vars@)[j] == v && (mask & (
                            1usize << (j as usize))) != 0;
                        if j == idx {
                            assert(texts(r@)[old_r.len() as int] == v);
                        } else {
                            assert(name_set(old_r).contains(v));
                            let k = choose|k: int|
                                0 <= k < texts(old_r).len() && texts(old_r)[k] == v;
                            assert(texts(r@)[k] == v);
                        }
                    }
                }
            }
        } else {
            proof {
                assert forall|v: Seq<char>| #[trigger]
                    name_set(r@).contains(v) <==> exists|j: int|
                        0 <= j < idx + 1 && #[trigger] texts(vars@)[j] == v && (mask & (1usize
                            << (j as usize))) != 0 by {
                    if exists|j: int|
                        0 <= j < idx + 1 && #[trigger] texts(vars@)[j] == v && (mask & (1usize
                            << (j as usize))) != 0 {
                        let j = choose|j: int|
                            0 <= j < idx + 1 && #[trigger] texts(vars@)[j] == v && (mask & (
                            1usize << (j as usize))) != 0;
                        assert(j < idx);
                    }
                }
            }
        }
        idx = idx + 1;
    }
    proof {
        assert(name_set(r@) =~= mask_set(texts(vars@), mask));
    }
    r
}

/// Whether `actual` implies `query`: true when no assignment of the variables
/// of both makes `actual` true and `query` false.
pub fn bool_implies(actual: &BoolExpr, query: &BoolExpr) -> (r: bool)
    ensures
        r == spec_implies(actual@, query@),
{
    let mut vars: Vec<String> = Vec::new();
    actual.collect_vars(&mut vars);
    query.collect_vars(&mut vars);
    assert(texts(Seq::<String>::empty()) =~= Seq::<Seq<char>>::empty());
    let ghost vs = texts(vars@);
    assert(vs == implication_vars(actual@, query@));
    proof {
        lemma_collect_grows(actual@, Seq::empty());
        lemma_collect_grows(query@, spec_collect(actual@, Seq::empty()));
    }
    let n = vars.len();
    if n >= usize::BITS as usize {
        return false;
    }
    let assignment_count: usize = 1usize << n;
    let mut mask: usize = 0;
    while mask < assignment_count
        invariant
            n == vars@.len() < usize::BITS,
            vs == texts(vars@),
            assignment_count == 1usize << n,
            mask <= assignment_count,
            forall|m: usize|
                m < mask ==> !(spec_eval(actual@, #[trigger] mask_set(vs, m)) && !spec_eval(
                    query@,
                    mask_set(vs, m),
                )),
        decreases assignment_count - mask,
    {
        let true_vars = assignment(&vars, mask);
        if actual.eval(&true_vars) && !query.eval(&true_vars) {
            return false;
        }
        mask = mask + 1;
    }
    proof {
        assert forall|t: Set<Seq<char>>| spec_eval(actual@, t) implies #[trigger] spec_eval(
            query@,
            t,
        ) by {
            lemma_mask_covers(t, vs);
            let m = mask_of(t, vs, vs.len());
            let ms = mask_set(vs, m);
            lemma_eval_depends_on_occurring(actual@, t, ms);
            lemma_eval_depends_on_occurring(query@, t, ms);
            assert(!(spec_eval(actual@, ms) && !spec_eval(query@, ms)));
        }
    }
    true
}

// ---- parsing ----
/// Characters that end an identifier besides whitespace.
pub open spec fn is_operator_char(c: char) -> bool {
    c == '!' || c == '~' || c == '&' || c == '*' || c == '|' || c == '+' || c == '^' || c == '\''
        || c == '(' || c == ')'
}

/// Number of bytes in the UTF-8 encoding of `c`.
pub open spec fn char_utf8_len(c: char) -> nat {
    let u = c as u32;
    if u < 0x80 {
        1
    } else if u < 0x800 {
        2
    } else if u < 0x10000 {
        3
    } else {
        4
    }
}

/// Number of bytes in the UTF-8 encoding of `s`.
pub open spec fn utf8_len(s: Seq<char>) -> nat
    decreases s.len(),
{
    if s.len() == 0 {
        0
    } else {
        char_utf8_len(s[0]) + utf8_len(s.drop_first())
    }
}

/// Byte offset of character index `i` in `s`.
pub open spec fn byte_offset(s: Seq<char>, i: int) -> nat {
    utf8_len(s.take(i))
}

pub proof fn lemma_utf8_len_add(a: Seq<char>, b: Seq<char>)
    ensures
        utf8_len(a + b) == utf8_len(a) + utf8_len(b),
    decreases a.len(),
{
    if a.len() > 0 {
        lemma_utf8_len_add(a.drop_first(), b);
        assert((a + b).drop_first() =~= a.drop_first() + b);
    } else {
        assert(a + b =~= b);
    }
}

pub proof fn lemma_utf8_len_encode(s: Seq<char>)
    ensures
        utf8_len(s) == encode_utf8(s).len(),
    decreases s.len(),
{
    if s.len() > 0 {
        lemma_utf8_len_encode(s.drop_first());
        char_is_scalar(s[0]);
    }
}

pub proof fn lemma_byte_offset_step(s: Seq<char>, i: int)
    requires
        0 <= i < s.len(),
    ensures
        byte_offset(s, i + 1) == byte_offset(s, i) + char_utf8_len(s[i]),
        byte_offset(s, i + 1) <= utf8_len(s),
{
    assert(s.take(i + 1) =~= s.take(i) + seq![s[i]]);
    lemma_utf8_len_add(s.take(i), seq![s[i]]);
    assert(seq![s[i]].drop_first() =~= Seq::<char>::empty());
    assert(utf8_len(Seq::<char>::empty()) == 0);
    assert(utf8_len(seq![s[i]]) == char_utf8_len(s[i]));
    assert(s =~= s.take(i + 1) + s.skip(i + 1));
    lemma_utf8_len_add(s.take(i + 1), s.skip(i + 1));
}

/// First position at or after `i` that does not hold whitespace.
pub open spec fn skip_ws_from(s: Seq<char>, i: int) -> int
    decreases s.len() - i,
{
    if 0 <= i < s.len() && spec_is_whitespace(s[i]) {
        skip_ws_from(s, i + 1)
    } else {
        i
    }
}

pub proof fn lemma_skip_ws_from(s: Seq<char>, i: int)
    requires
        0 <= i <= s.len(),
    ensures
        i <= skip_ws_from(s, i) <= s.len(),
        skip_ws_from(s, i) < s.len() ==> !spec_is_whitespace(s[skip_ws_from(s, i)]),
    decreases s.len() - i,
{
    if i < s.len() && spec_is_whitespace(s[i]) {
        lemma_skip_ws_from(s, i + 1);
    }
}

/// First position at or after `i` that holds whitespace or an operator.
pub open spec fn ident_end(s: Seq<char>, i: int) -> int
    decreases s.len() - i,
{
    if 0 <= i < s.len() && !spec_is_whitespace(s[i]) && !is_operator_char(s[i]) {
        ident_end(s, i + 1)
    } else {
        i
    }
}

pub proof fn lemma_ident_end(s: Seq<char>, i: int)
    requires
        0 <= i <= s.len(),
    ensures
        i <= ident_end(s, i) <= s.len(),
    decreases s.len() - i,
{
    if i < s.len() && !spec_is_whitespace(s[i]) && !is_operator_char(s[i]) {
        lemma_ident_end(s, i + 1);
    }
}

/// Whether position `i` of `s` holds `c`.
pub open spec fn at(s: Seq<char>, i: int, c: char) -> bool {
    0 <= i < s.len() && s[i] == c
}

/// An error message naming the byte offset of position `i`.
pub open spec fn error_at(msg: Seq<char>, s: Seq<char>, i: int) -> Seq<char> {
    msg + spec_decimal(byte_offset(s, i))
}

/// Result of parsing a sub-expression: the expression and the position after it.
pub type SpecParse = Result<(SpecBool, int), Seq<char>>;

/// `primary := '(' or ')' | identifier`, where `1`, `true`, `TRUE`, `0`, `false`
/// and `FALSE` are constants.
pub open spec fn spec_primary(s: Seq<char>, i: int) -> SpecParse
    decreases s.len() - i, 0int,
{
    let k = skip_ws_from(s, i);
    proof {
        if 0 <= i <= s.len() {
            lemma_skip_ws_from(s, i);
        }
    }
    if 0 <= i <= s.len() && at(s, k, '(') {
        match spec_or(s, k + 1) {
            Ok((e, j)) => {
                let m = skip_ws_from(s, j);
                if at(s, m, ')') {
                    Ok((e, m + 1))
                } else {
                    Err(error_at("expected ')' at byte "@, s, m))
                }
            },
            Err(msg) => Err(msg),
        }
    } else {
        let end = ident_end(s, k);
        if end == k {
            Err(error_at("expected identifier at byte "@, s, k))
        } else {
            let id = s.subrange(k, end);
            if id == "1"@ || id == "true"@ || id == "TRUE"@ {
                Ok((SpecBool::Const(true), end))
            } else if id == "0"@ || id == "false"@ || id == "FALSE"@ {
                Ok((SpecBool::Const(false), end))
            } else {
                Ok((SpecBool::Var(id), end))
            }
        }
    }
}

/// Postfix negations `'` after an operand `e` ending at `i`.
pub open spec fn spec_postfix(s: Seq<char>, i: int, e: SpecBool) -> SpecParse
    decreases s.len() - i, 1int,
{
    let k = skip_ws_from(s, i);
    proof {
        if 0 <= i <= s.len() {
            lemma_skip_ws_from(s, i);
        }
    }
    if 0 <= i <= s.len() && at(s, k, '\'') {
        spec_postfix(s, k + 1, SpecBool::Not(Box::new(e)))
    } else {
        Ok((e, k))
    }
}

/// `not := ('!' | '~') not | primary "'"*`
pub open spec fn spec_not(s: Seq<char>, i: int) -> SpecParse
    decreases s.len() - i, 2int,
{
    let k = skip_ws_from(s, i);
    proof {
        if 0 <= i <= s.len() {
            lemma_skip_ws_from(s, i);
        }
    }
    if 0 <= i <= s.len() && (at(s, k, '!') || at(s, k, '~')) {
        match spec_not(s, k + 1) {
            Ok((e, j)) => Ok((SpecBool::Not(Box::new(e)), j)),
            Err(msg) => Err(msg),
        }
    } else if 0 <= i <= s.len() {
        match spec_primary(s, k) {
            Ok((e, j)) => if i <= j <= s.len() {
                spec_postfix(s, j, e)
            } else {
                Err(Seq::empty())
            },
            Err(msg) => Err(msg),
        }
    } else {
        Err(Seq::empty())
    }
}

/// The rest of an AND chain after operand `acc` ending at `i`.
pub open spec fn spec_and_rest(s: Seq<char>, i: int, acc: SpecBool) -> SpecParse
    decreases s.len() - i, 3int,
{
    let k = skip_ws_from(s, i);
    proof {
        if 0 <= i <= s.len() {
            lemma_skip_ws_from(s, i);
        }
    }
    if 0 <= i <= s.len() && (at(s, k, '&') || at(s, k, '*')) {
        match spec_not(s, k + 1) {
            Ok((r, j)) => if i < j <= s.len() {
                spec_and_rest(s, j, SpecBool::And(Box::new(acc), Box::new(r)))
            } else {
                Err(Seq::empty())
            },
            Err(msg) => Err(msg),
        }
    } else {
        Ok((acc, k))
    }
}

/// `and := not (('&' | '*') not)*`, left associative.
pub open spec fn spec_and(s: Seq<char>, i: int) -> SpecParse
    decreases s.len() - i, 4int,
{
    if 0 <= i <= s.len() {
        match spec_not(s, i) {
            Ok((e, j)) => if i <= j <= s.len() {
                spec_and_rest(s, j, e)
            } else {
                Err(Seq::empty())
            },
            Err(msg) => Err(msg),
        }
    } else {
        Err(Seq::empty())
    }
}

/// The rest of an XOR chain after operand `acc` ending at `i`.
pub open spec fn spec_xor_rest(s: Seq<char>, i: int, acc: SpecBool) -> SpecParse
    decreases s.len() - i, 5int,
{
    let k = skip_ws_from(s, i);
    proof {
        if 0 <= i <= s.len() {
            lemma_skip_ws_from(s, i);
        }
    }
    if 0 <= i <= s.len() && at(s, k, '^') {
        match spec_and(s, k + 1) {
            Ok((r, j)) => if i < j <= s.len() {
                spec_xor_rest(s, j, SpecBool::Xor(Box::new(acc), Box::new(r)))
            } else {
                Err(Seq::empty())
            },
            Err(msg) => Err(msg),
        }
    } else {
        Ok((acc, k))
    }
}

/// `xor := and ('^' and)*`, left associative.
pub open spec fn spec_xor(s: Seq<char>, i: int) -> SpecParse
    decreases s.len() - i, 6int,
{
    if 0 <= i <= s.len() {
        match spec_and(s, i) {
            Ok((e, j)) => if i <= j <= s.len() {
                spec_xor_rest(s, j, e)
            } else {
                Err(Seq::empty())
            },
            Err(msg) => Err(msg),
        }
    } else {
        Err(Seq::empty())
    }
}

/// The rest of an OR chain after operand `acc` ending at `i`.
pub open spec fn spec_or_rest(s: Seq<char>, i: int, acc: SpecBool) -> SpecParse
    decreases s.len() - i, 7int,
{
    let k = skip_ws_from(s, i);
    proof {
        if 0 <= i <= s.len() {
            lemma_skip_ws_from(s, i);
        }
    }
    if 0 <= i <= s.len() && (at(s, k, '|') || at(s, k, '+')) {
        match spec_xor(s, k + 1) {
            Ok((r, j)) => if i < j <= s.len() {
                spec_or_rest(s, j, SpecBool::Or(Box::new(acc), Box::new(r)))
            } else {
                Err(Seq::empty())
            },
            Err(msg) => Err(msg),
        }
    } else {
        Ok((acc, k))
    }
}

/// `or := xor (('|' | '+') xor)*`, left associative.
pub open spec fn spec_or(s: Seq<char>, i: int) -> SpecParse
    decreases s.len() - i, 8int,
{
    if 0 <= i <= s.len() {
        match spec_xor(s, i) {
            Ok((e, j)) => if i <= j <= s.len() {
                spec_or_rest(s, j, e)
            } else {
                Err(Seq::empty())
            },
            Err(msg) => Err(msg),
        }
    } else {
        Err(Seq::empty())
    }
}

/// The expression that the whole of `s` denotes, or the error message.
pub open spec fn spec_parse_bool(s: Seq<char>) -> Result<SpecBool, Seq<char>> {
    match spec_or(s, 0) {
        Ok((e, j)) => {
            let k = skip_ws_from(s, j);
            if k >= s.len() {
                Ok(e)
            } else {
                Err(error_at("unexpected token at byte "@, s, k))
            }
        },
        Err(msg) => Err(msg),
    }
}

/// How an executable parse result stands to a specified one.
pub open spec fn parse_agrees(r: Result<BoolExpr, String>, sp: SpecParse, idx: int) -> bool {
    match sp {
        Ok((e, j)) => r is Ok && r->Ok_0@ == e && idx == j,
        Err(m) => r is Err && r->Err_0@ == m,
    }
}

/// Recursive-descent parser state over the characters of an expression.
struct BoolParser {
    chars: Vec<char>,
    idx: usize,
    pos: usize,
}

impl BoolParser {
    spec fn wf(&self) -> bool {
        &&& self.idx <= self.chars@.len()
        &&& self.pos == byte_offset(self.chars@, self.idx as int)
        &&& utf8_len(self.chars@) <= usize::MAX
    }

    fn skip_ws(&mut self)
        requires
            old(self).wf(),
        ensures
            final(self).wf(),
            final(self).chars@ == old(self).chars@,
            final(self).idx == skip_ws_from(old(self).chars@, old(self).idx as int),
    {
        while self.idx < self.chars.len() && is_whitespace(self.chars[self.idx])
            invariant
                self.wf(),
                self.chars@ == old(self).chars@,
                skip_ws_from(self.chars@, self.idx as int) == skip_ws_from(
                    old(self).chars@,
                    old(self).idx as int,
                ),
            decreases self.chars@.len() - self.idx,
        {
            proof {
                lemma_byte_offset_step(self.chars@, self.idx as int);
            }
            let c = self.chars[self.idx];
            self.pos = self.pos + char_len_utf8(c);
            self.idx = self.idx + 1;
        }
    }

    fn consume(&mut self, expected: char) -> (r: bool)
        requires
            old(self).wf(),
        ensures
            final(self).wf(),
            final(self).chars@ == old(self).chars@,
            r == at(old(self).chars@, old(self).idx as int, expected),
            final(self).idx == if r {
                old(self).idx + 1
            } else {
                old(self).idx as int
            },
    {
        if self.idx < self.chars.len() && self.chars[self.idx] == expected {
            proof {
                lemma_byte_offset_step(self.chars@, self.idx as int);
            }
            self.pos = self.pos + char_len_utf8(expected);
            self.idx = self.idx + 1;
            true
        } else {
            false
        }
    }

    fn error_message(&self, msg: &str) -> (r: String)
        requires
            self.wf(),
        ensures
            r@ == error_at(msg@, self.chars@, self.idx as int),
    {
        let mut r = string_of(msg);
        push_decimal(&mut r, self.pos);
        r
    }

    fn parse_ident(&mut self) -> (r: Result<String, String>)
        requires
            old(self).wf(),
        ensures
            final(self).wf(),
            final(self).chars@ == old(self).chars@,
            ({
                let s = old(self).chars@;
                let k = skip_ws_from(s, old(self).idx as int);
                let end = ident_end(s, k);
                if end == k {
                    r is Err && r->Err_0@ == error_at("expected identifier at byte "@, s, k)
                } else {
                    r is Ok && r->Ok_0@ == s.subrange(k, end) && final(self).idx == end
                }
            }),
            r is Ok ==> final(self).idx >= old(self).idx,
    {
        self.skip_ws();
        let start = self.idx;
        proof {
            lemma_skip_ws_from(self.chars@, old(self).idx as int);
        }
        while self.idx < self.chars.len() && !is_whitespace(self.chars[self.idx])
            && !is_operator(self.chars[self.idx])
            invariant
                self.wf(),
                start >= old(self).idx,
                self.chars@ == old(self).chars@,
                start <= self.idx,
                ident_end(self.chars@, self.idx as int) == ident_end(self.chars@, start as int),
            decreases self.chars@.len() - self.idx,
        {
            proof {
                lemma_byte_offset_step(self.chars@, self.idx as int);
            }
            let c = self.chars[self.idx];
            self.pos = self.pos + char_len_utf8(c);
            self.idx = self.idx + 1;
        }
        if self.idx == start {
            Err(self.error_message("expected identifier at byte "))
        } else {
            Ok(string_from_chars(self.chars.as_slice(), start, self.idx))
        }
    }

    fn parse_primary(&mut self) -> (r: Result<BoolExpr, String>)
        requires
            old(self).wf(),
        ensures
            final(self).wf(),
            final(self).chars@ == old(self).chars@,
            parse_agrees(r, spec_primary(old(self).chars@, old(self).idx as int), final(self).idx as int),
            r is Ok ==> final(self).idx >= old(self).idx,
        decreases old(self).chars@.len() - old(self).idx, 0int,
    {
        let ghost s = self.chars@;
        let ghost i = self.idx as int;
        self.skip_ws();
        proof {
            lemma_skip_ws_from(s, i);
        }
        if self.consume('(') {
            let expr = self.parse_or()?;
            let ghost j = self.idx as int;
            self.skip_ws();
            proof {
                lemma_skip_ws_from(s, j);
            }
            if !self.consume(')') {
                return Err(self.error_message("expected ')' at byte "));
            }
            return Ok(expr);
        }
        let ident = self.parse_ident()?;
        if string_is(&ident, "1") || string_is(&ident, "true") || string_is(&ident, "TRUE") {
            Ok(BoolExpr::Const(true))
        } else if string_is(&ident, "0") || string_is(&ident, "false") || string_is(
            &ident,
            "FALSE",
        ) {
            Ok(BoolExpr::Const(false))
        } else {
            Ok(BoolExpr::Var(ident))
        }
    }

    fn parse_not(&mut self) -> (r: Result<BoolExpr, String>)
        requires
            old(self).wf(),
        ensures
            final(self).wf(),
            final(self).chars@ == old(self).chars@,
            parse_agrees(r, spec_not(old(self).chars@, old(self).idx as int), final(self).idx as int),
            r is Ok ==> final(self).idx >= old(self).idx,
        decreases old(self).chars@.len() - old(self).idx, 2int,
    {
        let ghost s = self.chars@;
        let ghost i = self.idx as int;
        self.skip_ws();
        proof {
            lemma_skip_ws_from(s, i);
        }
        if self.consume('!') || self.consume('~') {
            let inner = self.parse_not()?;
            Ok(BoolExpr::Not(Box::new(inner)))
        } else {
            let mut expr = self.parse_primary()?;
            loop
                invariant
                    self.wf(),
                    self.chars@ == s,
                    s == old(self).chars@,
                    i == old(self).idx,
                    self.idx >= i,
                    spec_not(s, i) == spec_postfix(s, self.idx as int, expr@),
                decreases s.len() - self.idx,
            {
                let ghost j = self.idx as int;
                self.skip_ws();
                proof {
                    lemma_skip_ws_from(s, j);
                }
                if self.consume('\'') {
                    expr = BoolExpr::Not(Box::new(expr));
                } else {
                    return Ok(expr);
                }
            }
        }
    }

    fn parse_and(&mut self) -> (r: Result<BoolExpr, String>)
        requires
            old(self).wf(),
        ensures
            final(self).wf(),
            final(self).chars@ == old(self).chars@,
            parse_agrees(r, spec_and(old(self).chars@, old(self).idx as int), final(self).idx as int),
            r is Ok ==> final(self).idx >= old(self).idx,
        decreases old(self).chars@.len() - old(self).idx, 4int,
    {
        let ghost s = self.chars@;
        let ghost i = self.idx as int;
        let mut expr = self.parse_not()?;
        loop
            invariant
                self.wf(),
                self.chars@ == s,
                s == old(self).chars@,
                i == old(self).idx,
                self.idx >= i,
                0 <= i <= s.len(),
                spec_and(s, i) == spec_and_rest(s, self.idx as int, expr@),
            decreases s.len() - self.idx,
        {
            let ghost j = self.idx as int;
            self.skip_ws();
            proof {
                lemma_skip_ws_from(s, j);
            }
            if self.consume('&') || self.consume('*') {
                let right = self.parse_not()?;
                expr = BoolExpr::And(Box::new(expr), Box::new(right));
            } else {
                return Ok(expr);
            }
        }
    }

    fn parse_xor(&mut self) -> (r: Result<BoolExpr, String>)
        requires
            old(self).wf(),
        ensures
            final(self).wf(),
            final(self).chars@ == old(self).chars@,
            parse_agrees(r, spec_xor(old(self).chars@, old(self).idx as int), final(self).idx as int),
            r is Ok ==> final(self).idx >= old(self).idx,
        decreases old(self).chars@.len() - old(self).idx, 6int,
    {
        let ghost s = self.chars@;
        let ghost i = self.idx as int;
        let mut expr = self.parse_and()?;
        loop
            invariant
                self.wf(),
                self.chars@ == s,
                s == old(self).chars@,
                i == old(self).idx,
                self.idx >= i,
                0 <= i <= s.len(),
                spec_xor(s, i) == spec_xor_rest(s, self.idx as int, expr@),
            decreases s.len() - self.idx,
        {
            let ghost j = self.idx as int;
            self.skip_ws();
            proof {
                lemma_skip_ws_from(s, j);
            }
            if self.consume('^') {
                let right = self.parse_and()?;
                expr = BoolExpr::Xor(Box::new(expr), Box::new(right));
            } else {
                return Ok(expr);
            }
        }
    }

    fn parse_or(&mut self) -> (r: Result<BoolExpr, String>)
        requires
            old(self).wf(),
        ensures
            final(self).wf(),
            final(self).chars@ == old(self).chars@,
            parse_agrees(r, spec_or(old(self).chars@, old(self).idx as int), final(self).idx as int),
            r is Ok ==> final(self).idx >= old(self).idx,
        decreases old(self).chars@.len() - old(self).idx, 8int,
    {
        let ghost s = self.chars@;
        let ghost i = self.idx as int;
        let mut expr = self.parse_xor()?;
        loop
            invariant
                self.wf(),
                self.chars@ == s,
                s == old(self).chars@,
                i == old(self).idx,
                self.idx >= i,
                0 <= i <= s.len(),
                spec_or(s, i) == spec_or_rest(s, self.idx as int, expr@),
            decreases s.len() - self.idx,
        {
            let ghost j = self.idx as int;
            self.skip_ws();
            proof {
                lemma_skip_ws_from(s, j);
            }
            if self.consume('|') || self.consume('+') {
                let right = self.parse_xor()?;
                expr = BoolExpr::Or(Box::new(expr), Box::new(right));
            } else {
                return Ok(expr);
            }
        }
    }

    /// Parses `input` as a whole expression.
    fn parse(input: &str) -> (r: Result<BoolExpr, String>)
        ensures
            match spec_parse_bool(input@) {
                Ok(e) => r is Ok && r->Ok_0@ == e,
                Err(m) => r is Err && r->Err_0@ == m,
            },
    {
        let nbytes = input.as_bytes().len();
        proof {
            lemma_utf8_len_encode(input@);
            assert(input@.take(0) =~= Seq::<char>::empty());
        }
        let mut parser = BoolParser { chars: str_chars(input), idx: 0, pos: 0 };
        let expr = parser.parse_or()?;
        parser.skip_ws();
        if parser.idx >= parser.chars.len() {
            Ok(expr)
        } else {
            Err(parser.error_message("unexpected token at byte "))
        }
    }
}

/// Number of bytes in the UTF-8 encoding of `c`.
fn char_len_utf8(c: char) -> (n: usize)
    ensures
        n == char_utf8_len(c),
{
    let u = c as u32;
    if u < 0x80 {
        1
    } else if u < 0x800 {
        2
    } else if u < 0x10000 {
        3
    } else {
        4
    }
}

/// Whether `c` ends an identifier as an operator.
fn is_operator(c: char) -> (r: bool)
    ensures
        r == is_operator_char(c),
{
    c == '!' || c == '~' || c == '&' || c == '*' || c == '|' || c == '+' || c == '^' || c == '\''
        || c == '(' || c == ')'
}

} // verus!

verus! {

/// Parses a Boolean expression: `!`, `~` and postfix `'` negate; `&` and `*`
/// are AND; `^` is XOR; `|` and `+` are OR (tightest to loosest: NOT, AND,
/// XOR, OR); parentheses group; `0`/`1`, `false`/`true` and `FALSE`/`TRUE`
/// are constants; any other run of non-operator, non-space characters is a
/// variable.
pub fn parse_bool_expr(input: &str) -> (r: Result<BoolExpr, String>)
    ensures
        match spec_parse_bool(input@) {
            Ok(e) => r is Ok && r->Ok_0@ == e,
            Err(m) => r is Err && r->Err_0@ == m,
        },
{
    BoolParser::parse(input)
}

} // verus!
