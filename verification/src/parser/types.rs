use vstd::prelude::*;
use vstd::string::StrSliceExecFns;

use crate::parser::expr::lr::{go, spec_go};
use crate::parser::expr::pat::{Pat, PatV};
use crate::parser::expr::pat_type::{law_pattern_types_canonical, pat_into_type, pat_type, wf_type};
use crate::parser::expr::views::pats_v;
use crate::parser::preprocess::{outs_view, Out, OutV};

verus! {

/// A Catly type.  The members of a sum type form a set: they are kept free
/// of duplicates and in the canonical order of `spec_type_order`, so that two
/// sum types with the same members are equal.
#[derive(Debug, PartialEq, Eq)]
pub enum Type {
    NamelyType(String),
    ClosureType(Box<Type>, Box<Type>),
    SumType(Vec<Type>),
    ProdType(Vec<(String, Type)>),
}

pub type OptType = Option<Type>;

/// The mathematical value of a `Type`.
pub enum TypeV {
    Namely(Seq<char>),
    Closure(Box<TypeV>, Box<TypeV>),
    Sum(Seq<TypeV>),
    Prod(Seq<(Seq<char>, TypeV)>),
}

pub open spec fn tv(t: Type) -> TypeV
    decreases t,
{
    match t {
        Type::NamelyType(n) => TypeV::Namely(n@),
        Type::ClosureType(i, o) => TypeV::Closure(Box::new(tv(*i)), Box::new(tv(*o))),
        Type::SumType(v) => TypeV::Sum(
            Seq::new(v.len() as nat, |i: int| if 0 <= i < v.len() { tv(v[i]) } else { TypeV::Sum(Seq::empty()) }),
        ),
        Type::ProdType(v) => TypeV::Prod(
            Seq::new(
                v.len() as nat,
                |i: int| if 0 <= i < v.len() { (v[i].0@, tv(v[i].1)) } else { (Seq::empty(), TypeV::Sum(Seq::empty())) },
            ),
        ),
    }
}

pub open spec fn otv(t: Option<Type>) -> Option<TypeV> {
    match t {
        Some(t) => Some(tv(t)),
        None => None,
    }
}

impl View for Type {
    type V = TypeV;

    open spec fn view(&self) -> TypeV {
        tv(*self)
    }
}

pub open spec fn type_rank(t: TypeV) -> int {
    match t {
        TypeV::Namely(_) => 0,
        TypeV::Closure(_, _) => 1,
        TypeV::Sum(_) => 2,
        TypeV::Prod(_) => 3,
    }
}

/// Lexicographic comparison of two texts from position `i` on: -1, 0 or 1.
pub open spec fn chars_order_at(a: Seq<char>, b: Seq<char>, i: int) -> int
    decreases a.len() - i,
{
    if i >= a.len() {
        if i >= b.len() { 0 } else { -1 }
    } else if i >= b.len() {
        1
    } else if a[i] < b[i] {
        -1
    } else if a[i] > b[i] {
        1
    } else {
        chars_order_at(a, b, i + 1)
    }
}

pub open spec fn chars_order(a: Seq<char>, b: Seq<char>) -> int {
    chars_order_at(a, b, 0)
}

/// The canonical order of types: by kind, then by contents.
pub open spec fn spec_type_order(a: TypeV, b: TypeV) -> int
    decreases a, 0int,
{
    if type_rank(a) < type_rank(b) {
        -1
    } else if type_rank(a) > type_rank(b) {
        1
    } else {
        match a {
            TypeV::Namely(x) => match b {
                TypeV::Namely(y) => chars_order(x, y),
                _ => 0,
            },
            TypeV::Closure(a1, a2) => match b {
                TypeV::Closure(b1, b2) => {
                    let c = spec_type_order(*a1, *b1);
                    if c != 0 { c } else { spec_type_order(*a2, *b2) }
                },
                _ => 0,
            },
            TypeV::Sum(x) => match b {
                TypeV::Sum(y) => type_seq_order_at(x, y, 0),
                _ => 0,
            },
            TypeV::Prod(x) => match b {
                TypeV::Prod(y) => field_seq_order_at(x, y, 0),
                _ => 0,
            },
        }
    }
}

pub open spec fn type_seq_order_at(x: Seq<TypeV>, y: Seq<TypeV>, i: int) -> int
    decreases x, x.len() - i,
{
    if i < 0 || i >= x.len() {
        if i >= y.len() { 0 } else { -1 }
    } else if i >= y.len() {
        1
    } else {
        let c = spec_type_order(x[i], y[i]);
        if c != 0 { c } else { type_seq_order_at(x, y, i + 1) }
    }
}

pub open spec fn field_seq_order_at(x: Seq<(Seq<char>, TypeV)>, y: Seq<(Seq<char>, TypeV)>, i: int) -> int
    decreases x, x.len() - i,
{
    if i < 0 || i >= x.len() {
        if i >= y.len() { 0 } else { -1 }
    } else if i >= y.len() {
        1
    } else {
        let c = chars_order(x[i].0, y[i].0);
        if c != 0 {
            c
        } else {
            proof {
                assert(decreases_to!(x => x[i]));
            }
            let d = spec_type_order(x[i].1, y[i].1);
            if d != 0 { d } else { field_seq_order_at(x, y, i + 1) }
        }
    }
}


/// No member is repeated and each member comes before the next one in
/// the canonical order.
pub open spec fn canonical_types(s: Seq<TypeV>) -> bool {
    &&& forall|k: int| 0 <= k < s.len() - 1 ==> spec_type_order(#[trigger] s[k], s[k + 1]) < 0
    &&& forall|k: int, l: int| 0 <= k < s.len() && 0 <= l < s.len() && k != l ==> s[k] != s[l]
}

/// The first position from `i` on whose member does not come before `t`.
pub open spec fn first_not_less(s: Seq<TypeV>, t: TypeV, i: int) -> int
    decreases s.len() - i,
{
    if i >= s.len() || spec_type_order(s[i], t) >= 0 {
        i
    } else {
        first_not_less(s, t, i + 1)
    }
}

/// `s` with `t` added in canonical position, unless it is a member already.
pub open spec fn insert_canon(s: Seq<TypeV>, t: TypeV) -> Seq<TypeV> {
    if s.contains(t) {
        s
    } else {
        s.insert(first_not_less(s, t, 0), t)
    }
}

/// The members of a sum type built from the types `ms`: each added in
/// canonical position, duplicates dropped.
pub open spec fn canon_types(ms: Seq<TypeV>) -> Seq<TypeV>
    decreases ms.len(),
{
    if ms.len() == 0 {
        Seq::empty()
    } else {
        insert_canon(canon_types(ms.drop_last()), ms.last())
    }
}

/// The scan for the insertion point stops at the first member that does
/// not come before `t`.
pub proof fn lemma_first_not_less(s: Seq<TypeV>, t: TypeV, i: int, p: int)
    requires
        0 <= i <= p <= s.len(),
        forall|j: int| i <= j < p ==> spec_type_order(#[trigger] s[j], t) < 0,
        p == s.len() || spec_type_order(s[p], t) >= 0,
    ensures
        first_not_less(s, t, i) == p,
    decreases p - i,
{
    if i < p {
        lemma_first_not_less(s, t, i + 1, p);
    }
}

pub proof fn lemma_chars_order_at(a: Seq<char>, b: Seq<char>, i: int)
    requires
        0 <= i,
    ensures
        chars_order_at(a, b, i) == -chars_order_at(b, a, i),
        -1 <= chars_order_at(a, b, i) <= 1,
        i <= a.len() && i <= b.len() ==> (chars_order_at(a, b, i) == 0 <==> (a.len() == b.len()
            && forall|j: int| i <= j < a.len() ==> a[j] == b[j])),
    decreases a.len() - i,
{
    if i < a.len() && i < b.len() && a[i] == b[i] {
        lemma_chars_order_at(a, b, i + 1);
    }
}

pub proof fn lemma_chars_order(a: Seq<char>, b: Seq<char>)
    ensures
        chars_order(a, b) == -chars_order(b, a),
        -1 <= chars_order(a, b) <= 1,
        chars_order(a, b) == 0 <==> a == b,
{
    lemma_chars_order_at(a, b, 0);
    if chars_order(a, b) == 0 {
        assert(a =~= b);
    }
}

/// The canonical order is antisymmetric, and only equal types compare
/// equal.
pub proof fn lemma_type_order(a: TypeV, b: TypeV)
    ensures
        spec_type_order(a, b) == -spec_type_order(b, a),
        -1 <= spec_type_order(a, b) <= 1,
        spec_type_order(a, b) == 0 <==> a == b,
    decreases a, 0int,
{
    if type_rank(a) == type_rank(b) {
        match a {
            TypeV::Namely(x) => match b {
                TypeV::Namely(y) => {
                    lemma_chars_order(x, y);
                },
                _ => {},
            },
            TypeV::Closure(a1, a2) => match b {
                TypeV::Closure(b1, b2) => {
                    lemma_type_order(*a1, *b1);
                    lemma_type_order(*a2, *b2);
                },
                _ => {},
            },
            TypeV::Sum(x) => match b {
                TypeV::Sum(y) => {
                    lemma_type_seq_order(x, y, 0);
                    if spec_type_order(a, b) == 0 {
                        assert(x =~= y);
                    }
                },
                _ => {},
            },
            TypeV::Prod(x) => match b {
                TypeV::Prod(y) => {
                    lemma_field_seq_order(x, y, 0);
                    if spec_type_order(a, b) == 0 {
                        assert(x =~= y);
                    }
                },
                _ => {},
            },
        }
    }
}

pub proof fn lemma_type_seq_order(x: Seq<TypeV>, y: Seq<TypeV>, i: int)
    requires
        0 <= i,
    ensures
        type_seq_order_at(x, y, i) == -type_seq_order_at(y, x, i),
        -1 <= type_seq_order_at(x, y, i) <= 1,
        i <= x.len() && i <= y.len() ==> (type_seq_order_at(x, y, i) == 0 <==> (x.len() == y.len()
            && forall|j: int| i <= j < x.len() ==> x[j] == y[j])),
    decreases x, x.len() - i,
{
    if i < x.len() && i < y.len() {
        lemma_type_order(x[i], y[i]);
        if x[i] == y[i] {
            lemma_type_seq_order(x, y, i + 1);
        }
    }
}

pub proof fn lemma_field_seq_order(x: Seq<(Seq<char>, TypeV)>, y: Seq<(Seq<char>, TypeV)>, i: int)
    requires
        0 <= i,
    ensures
        field_seq_order_at(x, y, i) == -field_seq_order_at(y, x, i),
        -1 <= field_seq_order_at(x, y, i) <= 1,
        i <= x.len() && i <= y.len() ==> (field_seq_order_at(x, y, i) == 0 <==> (x.len() == y.len()
            && forall|j: int| i <= j < x.len() ==> x[j] == y[j])),
    decreases x, x.len() - i,
{
    if i < x.len() && i < y.len() {
        lemma_chars_order(x[i].0, y[i].0);
        assert(decreases_to!(x => x[i]));
        lemma_type_order(x[i].1, y[i].1);
        if x[i] == y[i] {
            lemma_field_seq_order(x, y, i + 1);
        }
    }
}


proof fn lemma_chars_trans(a: Seq<char>, b: Seq<char>, c: Seq<char>, i: int)
    requires
        0 <= i,
        chars_order_at(a, b, i) < 0,
        chars_order_at(b, c, i) < 0,
    ensures
        chars_order_at(a, c, i) < 0,
    decreases a.len() - i,
{
    if i < a.len() && i < b.len() && i < c.len() && a[i] == b[i] && b[i] == c[i] {
        lemma_chars_trans(a, b, c, i + 1);
    }
}

/// The canonical order is transitive.
pub proof fn lemma_type_trans(a: TypeV, b: TypeV, c: TypeV)
    requires
        spec_type_order(a, b) < 0,
        spec_type_order(b, c) < 0,
    ensures
        spec_type_order(a, c) < 0,
    decreases a, 0int,
{
    if type_rank(a) == type_rank(b) && type_rank(b) == type_rank(c) {
        match (a, b, c) {
            (TypeV::Namely(x), TypeV::Namely(y), TypeV::Namely(z)) => {
                lemma_chars_trans(x, y, z, 0);
            },
            (TypeV::Closure(a1, a2), TypeV::Closure(b1, b2), TypeV::Closure(c1, c2)) => {
                lemma_type_order(*a1, *b1);
                lemma_type_order(*b1, *c1);
                lemma_type_order(*a2, *b2);
                lemma_type_order(*b2, *c2);
                if spec_type_order(*a1, *b1) < 0 && spec_type_order(*b1, *c1) < 0 {
                    lemma_type_trans(*a1, *b1, *c1);
                } else if spec_type_order(*a1, *b1) == 0 && spec_type_order(*b1, *c1) == 0 {
                    lemma_type_trans(*a2, *b2, *c2);
                }
            },
            (TypeV::Sum(x), TypeV::Sum(y), TypeV::Sum(z)) => {
                lemma_type_seq_trans(x, y, z, 0);
            },
            (TypeV::Prod(x), TypeV::Prod(y), TypeV::Prod(z)) => {
                lemma_field_seq_trans(x, y, z, 0);
            },
            _ => {},
        }
    }
}

proof fn lemma_type_seq_trans(x: Seq<TypeV>, y: Seq<TypeV>, z: Seq<TypeV>, i: int)
    requires
        0 <= i,
        type_seq_order_at(x, y, i) < 0,
        type_seq_order_at(y, z, i) < 0,
    ensures
        type_seq_order_at(x, z, i) < 0,
    decreases x, x.len() - i,
{
    if i < x.len() && i < y.len() && i < z.len() {
        lemma_type_order(x[i], y[i]);
        lemma_type_order(y[i], z[i]);
        let c1 = spec_type_order(x[i], y[i]);
        let c2 = spec_type_order(y[i], z[i]);
        if c1 < 0 && c2 < 0 {
            lemma_type_trans(x[i], y[i], z[i]);
        } else if c1 == 0 && c2 == 0 {
            lemma_type_seq_trans(x, y, z, i + 1);
        }
    }
}

proof fn lemma_field_seq_trans(x: Seq<(Seq<char>, TypeV)>, y: Seq<(Seq<char>, TypeV)>, z: Seq<(Seq<char>, TypeV)>, i: int)
    requires
        0 <= i,
        field_seq_order_at(x, y, i) < 0,
        field_seq_order_at(y, z, i) < 0,
    ensures
        field_seq_order_at(x, z, i) < 0,
    decreases x, x.len() - i,
{
    if i < x.len() && i < y.len() && i < z.len() {
        lemma_chars_order(x[i].0, y[i].0);
        lemma_chars_order(y[i].0, z[i].0);
        lemma_chars_order(x[i].0, z[i].0);
        let n1 = chars_order(x[i].0, y[i].0);
        let n2 = chars_order(y[i].0, z[i].0);
        if n1 < 0 && n2 < 0 {
            lemma_chars_trans(x[i].0, y[i].0, z[i].0, 0);
        } else if n1 == 0 && n2 == 0 {
            assert(decreases_to!(x => x[i]));
            lemma_type_order(x[i].1, y[i].1);
            lemma_type_order(y[i].1, z[i].1);
            let c1 = spec_type_order(x[i].1, y[i].1);
            let c2 = spec_type_order(y[i].1, z[i].1);
            if c1 < 0 && c2 < 0 {
                lemma_type_trans(x[i].1, y[i].1, z[i].1);
            } else if c1 == 0 && c2 == 0 {
                lemma_field_seq_trans(x, y, z, i + 1);
            }
        }
    }
}

proof fn lemma_first_not_less_bounds(s: Seq<TypeV>, t: TypeV, i: int)
    requires
        0 <= i <= s.len(),
    ensures
        i <= first_not_less(s, t, i) <= s.len(),
        forall|j: int| i <= j < first_not_less(s, t, i) ==> spec_type_order(#[trigger] s[j], t) < 0,
        first_not_less(s, t, i) == s.len() || spec_type_order(s[first_not_less(s, t, i)], t) >= 0,
    decreases s.len() - i,
{
    if i < s.len() && spec_type_order(s[i], t) < 0 {
        lemma_first_not_less_bounds(s, t, i + 1);
    }
}

/// The members built by `canon_types` are canonical and are exactly the
/// given types.
pub proof fn lemma_canon_types(ms: Seq<TypeV>)
    ensures
        canonical_types(canon_types(ms)),
        forall|u: TypeV| canon_types(ms).contains(u) <==> ms.contains(u),
    decreases ms.len(),
{
    if ms.len() > 0 {
        let rest = ms.drop_last();
        let t = ms.last();
        lemma_canon_types(rest);
        let s0 = canon_types(rest);
        if !s0.contains(t) {
            lemma_first_not_less_bounds(s0, t, 0);
            lemma_insert_at(s0, t, first_not_less(s0, t, 0));
        }
        assert forall|u: TypeV| canon_types(ms).contains(u) <==> ms.contains(u) by {
            if ms.contains(u) && u != t {
                let k = choose|k: int| 0 <= k < ms.len() && ms[k] == u;
                assert(rest[k] == u);
            }
            if rest.contains(u) {
                let k = choose|k: int| 0 <= k < rest.len() && rest[k] == u;
                assert(ms[k] == u);
            }
            if u == t {
                assert(ms[ms.len() - 1] == u);
            }
        }
    }
}

proof fn lemma_canonical_pairwise(c: Seq<TypeV>, i: int, j: int)
    requires
        canonical_types(c),
        0 <= i < j < c.len(),
    ensures
        spec_type_order(c[i], c[j]) < 0,
    decreases j - i,
{
    if j > i + 1 {
        lemma_canonical_pairwise(c, i, j - 1);
        assert(spec_type_order(c[j - 1], c[j]) < 0);
        lemma_type_trans(c[i], c[j - 1], c[j]);
    } else {
        assert(spec_type_order(c[i], c[i + 1]) < 0);
    }
}

proof fn lemma_canonical_heads(c1: Seq<TypeV>, c2: Seq<TypeV>)
    requires
        canonical_types(c1),
        canonical_types(c2),
        c1.len() > 0,
        forall|u: TypeV| c1.contains(u) <==> c2.contains(u),
    ensures
        c2.len() > 0,
        c1[0] == c2[0],
{
    assert(c1.contains(c1[0]));
    assert(c2.contains(c1[0]));
    assert(c2.contains(c2[0]));
    let k = choose|k: int| 0 <= k < c2.len() && c2[k] == c1[0];
    let m = choose|m: int| 0 <= m < c1.len() && c1[m] == c2[0];
    if k > 0 {
        lemma_canonical_pairwise(c2, 0, k);
        if m > 0 {
            lemma_canonical_pairwise(c1, 0, m);
            lemma_type_order(c1[0], c2[0]);
        } else {
            lemma_type_order(c2[0], c2[0]);
        }
    }
}

proof fn lemma_canonical_tail(c: Seq<TypeV>)
    requires
        canonical_types(c),
        c.len() > 0,
    ensures
        canonical_types(c.drop_first()),
        forall|u: TypeV| c.drop_first().contains(u) <==> (c.contains(u) && u != c[0]),
{
    let d = c.drop_first();
    assert forall|a: int| 0 <= a < d.len() - 1 implies spec_type_order(#[trigger] d[a], d[a + 1]) < 0 by {
        assert(d[a] == c[a + 1] && d[a + 1] == c[a + 2]);
    }
    assert forall|a: int, b: int| 0 <= a < d.len() && 0 <= b < d.len() && a != b implies d[a] != d[b] by {
        assert(d[a] == c[a + 1] && d[b] == c[b + 1]);
    }
    assert forall|u: TypeV| d.contains(u) <==> (c.contains(u) && u != c[0]) by {
        if d.contains(u) {
            let a = choose|a: int| 0 <= a < d.len() && d[a] == u;
            assert(c[a + 1] == u);
        }
        if c.contains(u) && u != c[0] {
            let b = choose|b: int| 0 <= b < c.len() && c[b] == u;
            assert(d[b - 1] == u);
        }
    }
}

proof fn lemma_same_head_tail(c1: Seq<TypeV>, c2: Seq<TypeV>)
    requires
        c1.len() > 0,
        c2.len() > 0,
        c1[0] == c2[0],
        c1.drop_first() == c2.drop_first(),
    ensures
        c1 == c2,
{
    assert(c1 =~= seq![c1[0]] + c1.drop_first());
    assert(c2 =~= seq![c2[0]] + c2.drop_first());
}

proof fn lemma_tails_same_members(c1: Seq<TypeV>, c2: Seq<TypeV>)
    requires
        forall|u: TypeV| c1.contains(u) <==> c2.contains(u),
        c1.len() > 0,
        c2.len() > 0,
        c1[0] == c2[0],
        forall|u: TypeV| c1.drop_first().contains(u) <==> (c1.contains(u) && u != c1[0]),
        forall|u: TypeV| c2.drop_first().contains(u) <==> (c2.contains(u) && u != c2[0]),
    ensures
        forall|u: TypeV| c1.drop_first().contains(u) <==> c2.drop_first().contains(u),
{
    assert forall|u: TypeV| c1.drop_first().contains(u) <==> c2.drop_first().contains(u) by {
        assert(c1.drop_first().contains(u) <==> (c1.contains(u) && u != c1[0]));
        assert(c2.drop_first().contains(u) <==> (c2.contains(u) && u != c2[0]));
        assert(c1.contains(u) <==> c2.contains(u));
    }
}

/// Two canonical lists with the same members are equal.
pub proof fn lemma_canonical_unique(c1: Seq<TypeV>, c2: Seq<TypeV>)
    requires
        canonical_types(c1),
        canonical_types(c2),
        forall|u: TypeV| c1.contains(u) <==> c2.contains(u),
    ensures
        c1 == c2,
    decreases c1.len(),
{
    if c1.len() == 0 {
        if c2.len() > 0 {
            assert(c2.contains(c2[0]));
        }
        assert(c1 =~= c2);
    } else {
        lemma_canonical_heads(c1, c2);
        lemma_canonical_tail(c1);
        lemma_canonical_tail(c2);
        lemma_tails_same_members(c1, c2);
        lemma_canonical_unique(c1.drop_first(), c2.drop_first());
        lemma_same_head_tail(c1, c2);
    }
}

/// A sum type is the set of its members: types listed in any order, and
/// with any repetitions, give the same sum.
pub proof fn law_sum_is_a_set(a: Seq<TypeV>, b: Seq<TypeV>)
    requires
        forall|u: TypeV| a.contains(u) <==> b.contains(u),
    ensures
        canon_types(a) == canon_types(b),
{
    lemma_canon_types(a);
    lemma_canon_types(b);
    assert forall|u: TypeV| canon_types(a).contains(u) <==> canon_types(b).contains(u) by {
        assert(canon_types(a).contains(u) <==> a.contains(u));
        assert(canon_types(b).contains(u) <==> b.contains(u));
    }
    lemma_canonical_unique(canon_types(a), canon_types(b));
}

/// Compares two names in the canonical order.
pub fn chars_order_exec(a: &String, b: &String) -> (r: i8)
    ensures
        r == chars_order(a@, b@),
{
    let sa = a.as_str();
    let sb = b.as_str();
    let na = sa.unicode_len();
    let nb = sb.unicode_len();
    let mut i: usize = 0;
    loop
        invariant
            na == a@.len(),
            nb == b@.len(),
            sa@ == a@,
            sb@ == b@,
            i <= na,
            i <= nb,
            chars_order_at(a@, b@, 0) == chars_order_at(a@, b@, i as int),
        decreases na - i,
    {
        if i >= na {
            return if i >= nb { 0 } else { -1 };
        }
        if i >= nb {
            return 1;
        }
        let ca = sa.get_char(i);
        let cb = sb.get_char(i);
        if ca < cb {
            return -1;
        }
        if ca > cb {
            return 1;
        }
        i = i + 1;
    }
}

fn rank_exec(t: &Type) -> (r: i8)
    ensures
        r == type_rank(t@),
{
    match t {
        Type::NamelyType(_) => 0,
        Type::ClosureType(_, _) => 1,
        Type::SumType(_) => 2,
        Type::ProdType(_) => 3,
    }
}

/// Compares two types in the canonical order: -1, 0 or 1.
pub fn type_order(a: &Type, b: &Type) -> (r: i8)
    ensures
        r == spec_type_order(a@, b@),
    decreases a,
{
    let ra = rank_exec(a);
    let rb = rank_exec(b);
    if ra < rb {
        return -1;
    }
    if ra > rb {
        return 1;
    }
    match a {
        Type::NamelyType(x) => match b {
            Type::NamelyType(y) => chars_order_exec(x, y),
            _ => 0,
        },
        Type::ClosureType(a1, a2) => match b {
            Type::ClosureType(b1, b2) => {
                proof {
                    assert(decreases_to!(*a => (*a)->ClosureType_0));
                }
                let c = type_order(a1, b1);
                if c != 0 {
                    c
                } else {
                    proof {
                        assert(decreases_to!(*a => (*a)->ClosureType_1));
                    }
                    type_order(a2, b2)
                }
            },
            _ => 0,
        },
        Type::SumType(x) => match b {
            Type::SumType(y) => {
                let ghost xv = types_seq(x@);
                let ghost yv = types_seq(y@);
                proof {
                    lemma_types_seq(*x);
                    lemma_types_seq(*y);
                }
                let mut i: usize = 0;
                loop
                    invariant
                        *a == Type::SumType(*x),
                        a@ == TypeV::Sum(xv),
                        b@ == TypeV::Sum(yv),
                        xv.len() == x.len(),
                        yv.len() == y.len(),
                        forall|j: int| 0 <= j < x.len() ==> xv[j] == tv(#[trigger] x@[j]),
                        forall|j: int| 0 <= j < y.len() ==> yv[j] == tv(#[trigger] y@[j]),
                        i <= x.len(),
                        i <= y.len(),
                        type_seq_order_at(xv, yv, 0) == type_seq_order_at(xv, yv, i as int),
                    decreases x.len() - i,
                {
                    if i >= x.len() {
                        return if i >= y.len() { 0 } else { -1 };
                    }
                    if i >= y.len() {
                        return 1;
                    }
                    proof {
                        assert(decreases_to!(*a => (*a)->SumType_0));
                        vstd::std_specs::vec::axiom_vec_index_decreases(*x, i as int);
                    }
                    let c = type_order(&x[i], &y[i]);
                    if c != 0 {
                        return c;
                    }
                    i = i + 1;
                }
            },
            _ => 0,
        },
        Type::ProdType(x) => match b {
            Type::ProdType(y) => {
                let ghost xv = fields_seq(x@);
                let ghost yv = fields_seq(y@);
                proof {
                    lemma_fields_seq(*x);
                    lemma_fields_seq(*y);
                }
                let mut i: usize = 0;
                loop
                    invariant
                        *a == Type::ProdType(*x),
                        a@ == TypeV::Prod(xv),
                        b@ == TypeV::Prod(yv),
                        xv.len() == x.len(),
                        yv.len() == y.len(),
                        forall|j: int| 0 <= j < x.len() ==> xv[j] == (x@[j].0@, tv(#[trigger] x@[j].1)),
                        forall|j: int| 0 <= j < y.len() ==> yv[j] == (y@[j].0@, tv(#[trigger] y@[j].1)),
                        i <= x.len(),
                        i <= y.len(),
                        field_seq_order_at(xv, yv, 0) == field_seq_order_at(xv, yv, i as int),
                    decreases x.len() - i,
                {
                    if i >= x.len() {
                        return if i >= y.len() { 0 } else { -1 };
                    }
                    if i >= y.len() {
                        return 1;
                    }
                    let c = chars_order_exec(&x[i].0, &y[i].0);
                    assert(xv[i as int] == (x@[i as int].0@, tv(x@[i as int].1)));
                    assert(yv[i as int] == (y@[i as int].0@, tv(y@[i as int].1)));
                    if c != 0 {
                        return c;
                    }
                    proof {
                        assert(decreases_to!(*a => (*a)->ProdType_0));
                        vstd::std_specs::vec::axiom_vec_index_decreases(*x, i as int);
                        assert(decreases_to!(x@[i as int] => x@[i as int].1));
                    }
                    let d = type_order(&x[i].1, &y[i].1);
                    if d != 0 {
                        return d;
                    }
                    i = i + 1;
                }
            },
            _ => 0,
        },
    }
}

/// The members of a sum type as the view sees them.
pub open spec fn types_seq(v: Seq<Type>) -> Seq<TypeV> {
    Seq::new(v.len(), |i: int| if 0 <= i < v.len() { tv(v[i]) } else { TypeV::Sum(Seq::empty()) })
}

pub open spec fn fields_seq(v: Seq<(String, Type)>) -> Seq<(Seq<char>, TypeV)> {
    Seq::new(
        v.len(),
        |i: int| if 0 <= i < v.len() { (v[i].0@, tv(v[i].1)) } else { (Seq::empty(), TypeV::Sum(Seq::empty())) },
    )
}

pub proof fn lemma_types_seq(v: Vec<Type>)
    ensures
        tv(Type::SumType(v)) == TypeV::Sum(types_seq(v@)),
        types_seq(v@).len() == v.len(),
        forall|j: int| 0 <= j < v.len() ==> types_seq(v@)[j] == tv(#[trigger] v@[j]),
{
    assert(tv(Type::SumType(v))->Sum_0 =~= types_seq(v@));
}

pub proof fn lemma_fields_seq(v: Vec<(String, Type)>)
    ensures
        tv(Type::ProdType(v)) == TypeV::Prod(fields_seq(v@)),
        fields_seq(v@).len() == v.len(),
        forall|j: int| 0 <= j < v.len() ==> fields_seq(v@)[j] == (v@[j].0@, tv(#[trigger] v@[j].1)),
{
    assert(tv(Type::ProdType(v))->Prod_0 =~= fields_seq(v@));
}


impl Type {
    /// A copy of the type with the same value.
    pub fn deep_clone(&self) -> (r: Type)
        ensures
            r@ == self@,
        decreases self,
    {
        match self {
            Type::NamelyType(n) => Type::NamelyType(n.clone()),
            Type::ClosureType(i, o) => {
                proof {
                    assert(decreases_to!(*self => (*self)->ClosureType_0));
                    assert(decreases_to!(*self => (*self)->ClosureType_1));
                }
                Type::ClosureType(Box::new(i.deep_clone()), Box::new(o.deep_clone()))
            },
            Type::SumType(v) => {
                let mut out: Vec<Type> = Vec::new();
                let mut k: usize = 0;
                while k < v.len()
                    invariant
                        *self == Type::SumType(*v),
                        k <= v.len(),
                        out.len() == k,
                        forall|j: int| 0 <= j < k ==> tv(#[trigger] out@[j]) == tv(v@[j]),
                    decreases v.len() - k,
                {
                    proof {
                        assert(decreases_to!(*self => (*self)->SumType_0));
                        vstd::std_specs::vec::axiom_vec_index_decreases(*v, k as int);
                    }
                    out.push(v[k].deep_clone());
                    k = k + 1;
                }
                proof {
                    lemma_types_seq(out);
                    lemma_types_seq(*v);
                    assert(types_seq(out@) =~= types_seq(v@));
                }
                Type::SumType(out)
            },
            Type::ProdType(v) => {
                let mut out: Vec<(String, Type)> = Vec::new();
                let mut k: usize = 0;
                while k < v.len()
                    invariant
                        *self == Type::ProdType(*v),
                        k <= v.len(),
                        out.len() == k,
                        forall|j: int| 0 <= j < k ==> (#[trigger] out@[j]).0@ == v@[j].0@ && tv(out@[j].1) == tv(v@[j].1),
                    decreases v.len() - k,
                {
                    proof {
                        assert(decreases_to!(*self => (*self)->ProdType_0));
                        vstd::std_specs::vec::axiom_vec_index_decreases(*v, k as int);
                        assert(decreases_to!(v@[k as int] => v@[k as int].1));
                    }
                    let t = v[k].1.deep_clone();
                    out.push((v[k].0.clone(), t));
                    k = k + 1;
                }
                proof {
                    lemma_fields_seq(out);
                    lemma_fields_seq(*v);
                    assert(fields_seq(out@) =~= fields_seq(v@));
                }
                Type::ProdType(out)
            },
        }
    }

    /// The sum type whose members are the given types: duplicates are
    /// merged and the members put in canonical order.
    pub fn sum_of(members: Vec<Type>) -> (r: Type)
        ensures
            r@ is Sum,
            r@->Sum_0 == canon_types(types_seq(members@)),
            canonical_types(r@->Sum_0),
            forall|u: TypeV| r@->Sum_0.contains(u) <==> types_seq(members@).contains(u),
    {
        let mut out: Vec<Type> = Vec::new();
        let ms = members;
        let ghost all = types_seq(ms@);
        let mut k: usize = 0;
        let n = ms.len();
        proof {
            assert(types_seq(out@) =~= Seq::<TypeV>::empty());
        }
        while k < n
            invariant
                n == ms.len(),
                all == types_seq(members@),
                k <= n,
                forall|j: int| k <= j < n ==> tv(#[trigger] ms@[j]) == all[j],
                all.len() == n,
                canonical_types(types_seq(out@)),
                forall|u: TypeV| types_seq(out@).contains(u) <==> exists|j: int| 0 <= j < k && all[j] == u,
                types_seq(out@) == canon_types(all.subrange(0, k as int)),
            decreases n - k,
        {
            let t = ms[k].deep_clone();
            assert(tv(t) == all[k as int]);
            let ghost before = types_seq(out@);
            insert_canonical(&mut out, t);
            proof {
                assert(all.subrange(0, k + 1).drop_last() =~= all.subrange(0, k as int));

                assert forall|u: TypeV| types_seq(out@).contains(u) <==> exists|j: int| 0 <= j < k + 1 && all[j] == u by {
                    if types_seq(out@).contains(u) {
                        if u != all[k as int] {
                            assert(before.contains(u));
                        }
                    }
                    if exists|j: int| 0 <= j < k + 1 && all[j] == u {
                        let j = choose|j: int| 0 <= j < k + 1 && all[j] == u;
                        if j < k {
                            assert(before.contains(u));
                        }
                    }
                }
            }
            k = k + 1;
        }
        proof {
            lemma_types_seq(out);
            assert(all.subrange(0, n as int) =~= all);
            assert forall|u: TypeV| types_seq(out@).contains(u) <==> types_seq(members@).contains(u) by {
                if types_seq(members@).contains(u) {
                    let j = choose|j: int| 0 <= j < all.len() && all[j] == u;
                    assert(exists|j: int| 0 <= j < n && all[j] == u);
                }
            }
        }
        Type::SumType(out)
    }
}

/// Inserts a type into a canonical list of types unless it is already
/// there.
fn insert_canonical(v: &mut Vec<Type>, t: Type)
    requires
        canonical_types(types_seq(old(v)@)),
    ensures
        canonical_types(types_seq(final(v)@)),
        forall|u: TypeV| types_seq(final(v)@).contains(u) <==> (types_seq(old(v)@).contains(u) || u == tv(t)),
        types_seq(final(v)@) == insert_canon(types_seq(old(v)@), tv(t)),
{
    let ghost s0 = types_seq(v@);
    let n = v.len();
    let mut i: usize = 0;
    while i < n
        invariant
            n == v.len(),
            v@ == old(v)@,
            s0 == types_seq(v@),
            i <= n,
            canonical_types(types_seq(old(v)@)),
            forall|j: int| 0 <= j < i ==> s0[j] != tv(t),
        decreases n - i,
    {
        let c = type_order(&v[i], &t);
        proof {
            lemma_type_order(tv(v@[i as int]), tv(t));
        }
        assert(s0[i as int] == tv(v@[i as int]));
        if c == 0 {
            proof {
                assert(s0.contains(tv(t)));
            }
            return;
        }
        i = i + 1;
    }
    let mut p: usize = 0;
    while p < n && type_order(&v[p], &t) < 0
        invariant
            n == v.len(),
            v@ == old(v)@,
            s0 == types_seq(v@),
            p <= n,
            canonical_types(types_seq(old(v)@)),
            forall|j: int| 0 <= j < n ==> s0[j] != tv(t),
            forall|j: int| 0 <= j < p ==> spec_type_order(#[trigger] s0[j], tv(t)) < 0,
        decreases n - p,
    {
        assert(s0[p as int] == tv(v@[p as int]));
        p = p + 1;
    }
    proof {
        if p < n {
            lemma_type_order(s0[p as int], tv(t));
        }
        lemma_first_not_less(s0, tv(t), 0, p as int);
        assert(!s0.contains(tv(t)));
    }
    let ghost tvv = tv(t);
    v.insert(p, t);
    proof {
        assert(types_seq(v@) =~= s0.insert(p as int, tvv));
        lemma_insert_at(s0, tvv, p as int);
    }
}

/// Inserting a new member at its place keeps a list canonical and adds
/// exactly that member.
proof fn lemma_insert_at(s0: Seq<TypeV>, t: TypeV, p: int)
    requires
        canonical_types(s0),
        !s0.contains(t),
        0 <= p <= s0.len(),
        forall|j: int| 0 <= j < p ==> spec_type_order(#[trigger] s0[j], t) < 0,
        p == s0.len() || spec_type_order(s0[p], t) >= 0,
    ensures
        canonical_types(s0.insert(p, t)),
        forall|u: TypeV| s0.insert(p, t).contains(u) <==> (s0.contains(u) || u == t),
        s0.insert(p, t) == insert_canon(s0, t),
{
    let s1 = s0.insert(p, t);
    lemma_first_not_less(s0, t, 0, p);
    if p < s0.len() {
        lemma_type_order(s0[p], t);
        assert(s0[p] != t);
    }
    assert forall|k: int| 0 <= k < s1.len() - 1 implies spec_type_order(#[trigger] s1[k], s1[k + 1]) < 0 by {
        if k < p - 1 {
            assert(s1[k] == s0[k] && s1[k + 1] == s0[k + 1]);
        } else if k == p - 1 {
            assert(s1[k] == s0[k]);
        } else if k == p {
            lemma_type_order(s0[p], t);
        } else {
            assert(s1[k] == s0[k - 1] && s1[k + 1] == s0[k]);
        }
    }
    assert forall|k: int, l: int| 0 <= k < s1.len() && 0 <= l < s1.len() && k != l implies s1[k] != s1[l] by {
        if k != p && l != p {
            let k0 = if k < p { k } else { k - 1 };
            let l0 = if l < p { l } else { l - 1 };
            assert(s1[k] == s0[k0] && s1[l] == s0[l0]);
        } else if k == p {
            let l0 = if l < p { l } else { l - 1 };
            assert(s1[l] == s0[l0]);
        } else {
            let k0 = if k < p { k } else { k - 1 };
            assert(s1[k] == s0[k0]);
        }
    }
    assert forall|u: TypeV| s1.contains(u) <==> (s0.contains(u) || u == t) by {
        if s1.contains(u) {
            let k = choose|k: int| 0 <= k < s1.len() && s1[k] == u;
            if k < p {
                assert(s0[k] == u);
            } else if k > p {
                assert(s0[k - 1] == u);
            }
        }
        if s0.contains(u) {
            let k = choose|k: int| 0 <= k < s0.len() && s0[k] == u;
            if k < p {
                assert(s1[k] == u);
            } else {
                assert(s1[k + 1] == u);
            }
        }
        if u == t {
            assert(s1[p] == u);
        }
    }
}


/// The type the tokens `toks` stand for, if they stand for one.
pub open spec fn spec_parse_type(toks: Seq<OutV>) -> Option<TypeV> {
    pat_type(spec_go(seq![PatV::Start], toks))
}

/// Every sum type in a parsed type lists its members in canonical order
/// without repetition.
pub proof fn law_parsed_types_canonical(toks: Seq<OutV>)
    ensures
        spec_parse_type(toks) matches Some(t) ==> wf_type(t),
{
    law_pattern_types_canonical(spec_go(seq![PatV::Start], toks));
}

/// Parses a type from its tokens; the grammar of types is the one of type
/// annotations in expressions.
pub fn parse_type(seq: Vec<Out>) -> (r: OptType)
    ensures
        otv(r) == spec_parse_type(outs_view(seq@)),
{
    let mut stack: Vec<Pat> = Vec::new();
    stack.push(Pat::Start);
    proof {
        assert(pats_v(stack@) =~= seq![PatV::Start]);
    }
    pat_into_type(go(stack, seq))
}

impl Clone for Type {
    fn clone(&self) -> (r: Self)
        ensures
            r@ == self@,
    {
        self.deep_clone()
    }
}

} // verus!
