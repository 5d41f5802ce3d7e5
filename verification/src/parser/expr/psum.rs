// The alternatives of a sum type on the parser stack form a set: each
// alternative is kept once, in the order of the types the alternatives
// stand for (`spec_type_order`), which compares names, closure types, sums
// and products in the same way as patterns are compared.

use vstd::prelude::*;

use crate::parser::expr::pat::{pv, Pat, PatV};
use crate::parser::expr::pat_type::{
    lemma_pat_fields_prefix, lemma_pat_fields_step, lemma_pat_types_prefix, lemma_pat_types_step, pat_fields, pat_type,
    pat_types,
};
use crate::parser::expr::views::{lemma_views_of_variants, named_v, pats_v};
use crate::parser::types::{
    fields_seq, lemma_fields_seq, lemma_type_order, otv, spec_type_order, tv, type_order, types_seq, Type, TypeV,
};

verus! {

/// The order of two alternatives by the types they stand for; one that
/// stands for no type comes first.
pub open spec fn key_order(a: Option<TypeV>, b: Option<TypeV>) -> int {
    match (a, b) {
        (None, None) => 0,
        (None, Some(_)) => -1,
        (Some(_), None) => 1,
        (Some(x), Some(y)) => spec_type_order(x, y),
    }
}

/// The first position from `i` on whose alternative does not come before
/// `p`.
pub open spec fn first_after(s: Seq<PatV>, p: PatV, i: int) -> int
    decreases s.len() - i,
{
    if i < 0 || i >= s.len() || key_order(pat_type(s[i]), pat_type(p)) >= 0 {
        i
    } else {
        first_after(s, p, i + 1)
    }
}

/// The alternatives `s` with `p` added in its place, unless an equal
/// alternative stands there already.
pub open spec fn insert_pat(s: Seq<PatV>, p: PatV) -> Seq<PatV> {
    let i = first_after(s, p, 0);
    if i < s.len() && pat_type(s[i]) == pat_type(p) {
        s
    } else {
        s.insert(i, p)
    }
}

/// The alternatives of `l` and of `r` together.
pub open spec fn union_pats(l: Seq<PatV>, r: Seq<PatV>) -> Seq<PatV>
    decreases r.len(),
{
    if r.len() == 0 {
        l
    } else {
        insert_pat(union_pats(l, r.drop_last()), r.last())
    }
}

/// The type a pattern stands for, read without taking the pattern.
pub fn type_of_pat(p: &Pat) -> (r: Option<Type>)
    ensures
        otv(r) == pat_type(p@),
    decreases p,
{
    proof {
        lemma_views_of_variants(*p);
    }
    match p {
        Pat::TypeName(n) => Some(Type::NamelyType(n.clone())),
        Pat::ClosureType(i, o) => {
            proof {
                assert(decreases_to!(*p => **i));
                assert(decreases_to!(*p => **o));
            }
            let a = type_of_pat(i);
            let b = type_of_pat(o);
            match (a, b) {
                (Some(a), Some(b)) => Some(Type::ClosureType(Box::new(a), Box::new(b))),
                _ => None,
            }
        },
        Pat::SumType(ms) => {
            let ghost all = pats_v(ms@);
            let n = ms.len();
            let mut out: Vec<Type> = Vec::new();
            let mut k: usize = 0;
            proof {
                assert(all.subrange(0, 0) =~= Seq::<PatV>::empty());
                assert(types_seq(out@) =~= Seq::<TypeV>::empty());
            }
            while k < n
                invariant
                    *p == Pat::SumType(*ms),
                    pv(*p) == PatV::SumType(all),
                    all == pats_v(ms@),
                    n == ms.len(),
                    k <= n,
                    pat_types(all.subrange(0, k as int)) == Some(types_seq(out@)),
                decreases n - k,
            {
                proof {
                    assert(decreases_to!(*p => *ms));
                    vstd::std_specs::vec::axiom_vec_index_decreases(*ms, k as int);
                    lemma_pat_types_step(all, k as int);
                }
                let t = type_of_pat(&ms[k]);
                match t {
                    Some(t) => {
                        let ghost before = types_seq(out@);
                        let ghost gt = t;
                        out.push(t);
                        proof {
                            assert(types_seq(out@) =~= before.push(tv(gt)));
                        }
                    },
                    None => {
                        proof {
                            lemma_pat_types_prefix(all, k + 1);
                        }
                        return None;
                    },
                }
                k = k + 1;
            }
            proof {
                assert(all.subrange(0, n as int) =~= all);
            }
            Some(Type::sum_of(out))
        },
        Pat::ProdType(fs) => {
            let ghost all = named_v(fs@);
            let n = fs.len();
            let mut out: Vec<(String, Type)> = Vec::new();
            let mut k: usize = 0;
            proof {
                assert(all.subrange(0, 0) =~= Seq::<(Seq<char>, PatV)>::empty());
                assert(fields_seq(out@) =~= Seq::<(Seq<char>, TypeV)>::empty());
            }
            while k < n
                invariant
                    *p == Pat::ProdType(*fs),
                    pv(*p) == PatV::ProdType(all),
                    all == named_v(fs@),
                    n == fs.len(),
                    k <= n,
                    pat_fields(all.subrange(0, k as int)) == Some(fields_seq(out@)),
                decreases n - k,
            {
                proof {
                    assert(decreases_to!(*p => *fs));
                    vstd::std_specs::vec::axiom_vec_index_decreases(*fs, k as int);
                    assert(decreases_to!(fs@[k as int] => fs@[k as int].1));
                    lemma_pat_fields_step(all, k as int);
                }
                let t = type_of_pat(&fs[k].1);
                match t {
                    Some(t) => {
                        let ghost before = fields_seq(out@);
                        let name = fs[k].0.clone();
                        let ghost gx = (name, t);
                        out.push((name, t));
                        proof {
                            assert(fields_seq(out@) =~= before.push((gx.0@, tv(gx.1))));
                        }
                    },
                    None => {
                        proof {
                            lemma_pat_fields_prefix(all, k + 1);
                        }
                        return None;
                    },
                }
                k = k + 1;
            }
            proof {
                assert(all.subrange(0, n as int) =~= all);
                lemma_fields_seq(out);
            }
            Some(Type::ProdType(out))
        },
        _ => None,
    }
}

fn key_order_exec(a: &Option<Type>, b: &Option<Type>) -> (r: i8)
    ensures
        r == key_order(otv(*a), otv(*b)),
{
    match (a, b) {
        (None, None) => 0,
        (None, Some(_)) => -1,
        (Some(_), None) => 1,
        (Some(x), Some(y)) => type_order(x, y),
    }
}

proof fn lemma_first_after(s: Seq<PatV>, p: PatV, i: int)
    requires
        0 <= i <= s.len(),
        forall|j: int| 0 <= j < i ==> key_order(pat_type(#[trigger] s[j]), pat_type(p)) < 0,
    ensures
        first_after(s, p, 0) == first_after(s, p, i),
    decreases i,
{
    if i > 0 {
        lemma_first_after_from(s, p, 0, i);
    }
}

proof fn lemma_first_after_from(s: Seq<PatV>, p: PatV, j: int, i: int)
    requires
        0 <= j <= i <= s.len(),
        forall|m: int| 0 <= m < i ==> key_order(pat_type(#[trigger] s[m]), pat_type(p)) < 0,
    ensures
        first_after(s, p, j) == first_after(s, p, i),
    decreases i - j,
{
    if j < i {
        lemma_first_after_from(s, p, j + 1, i);
    }
}

/// Adds an alternative to a sum's alternatives.
pub fn insert_alternative(v: Vec<Pat>, p: Pat) -> (r: Vec<Pat>)
    ensures
        pats_v(r@) == insert_pat(pats_v(v@), pv(p)),
{
    let ghost s = pats_v(v@);
    let kp = type_of_pat(&p);
    let n = v.len();
    let mut i: usize = 0;
    let mut c: i8 = -1;
    while i < n
        invariant
            n == v.len(),
            s == pats_v(v@),
            otv(kp) == pat_type(pv(p)),
            i <= n,
            forall|j: int| 0 <= j < i ==> key_order(pat_type(#[trigger] s[j]), pat_type(pv(p))) < 0,
        decreases n - i,
    {
        let kv = type_of_pat(&v[i]);
        c = key_order_exec(&kv, &kp);
        if c >= 0 {
            proof {
                assert(s[i as int] == pv(v@[i as int]));
                lemma_first_after(s, pv(p), i as int);
            }
            if c == 0 {
                proof {
                    match (otv(kv), otv(kp)) {
                        (Some(x), Some(y)) => lemma_type_order(x, y),
                        _ => {},
                    }
                    assert(pat_type(s[i as int]) == pat_type(pv(p)));
                }
                return v;
            } else {
                proof {
                    match (otv(kv), otv(kp)) {
                        (Some(x), Some(y)) => lemma_type_order(x, y),
                        _ => {},
                    }
                }
                let mut w = v;
                let ghost gp = p;
                w.insert(i, p);
                proof {
                    assert(pats_v(w@) =~= s.insert(i as int, pv(gp)));
                }
                return w;
            }
        }
        proof {
            assert(s[i as int] == pv(v@[i as int]));
        }
        i = i + 1;
    }
    proof {
        lemma_first_after(s, pv(p), n as int);
    }
    let mut w = v;
    let ghost gp = p;
    w.push(p);
    proof {
        assert(pats_v(w@) =~= s.insert(n as int, pv(gp)));
    }
    w
}

/// Joins the alternatives of two sums.
pub fn union_alternatives(l: Vec<Pat>, r: Vec<Pat>) -> (out: Vec<Pat>)
    ensures
        pats_v(out@) == union_pats(pats_v(l@), pats_v(r@)),
{
    let ghost ls = pats_v(l@);
    let ghost rs = pats_v(r@);
    let ghost r0 = r;
    let n = r.len();
    let mut rest = r;
    let mut out = l;
    let mut k: usize = 0;
    proof {
        assert(rs.subrange(0, 0) =~= Seq::<PatV>::empty());
    }
    while k < n
        invariant
            n == r0.len(),
            rs == pats_v(r0@),
            k <= n,
            rest@ == r0@.subrange(k as int, n as int),
            pats_v(out@) == union_pats(ls, rs.subrange(0, k as int)),
        decreases n - k,
    {
        let x = rest.remove(0);
        proof {
            assert(x == r0@[k as int]);
            assert(rs.subrange(0, k + 1).drop_last() =~= rs.subrange(0, k as int));
            assert(rs.subrange(0, k + 1).last() == pv(x));
        }
        out = insert_alternative(out, x);
        proof {
            assert(rest@ =~= r0@.subrange(k + 1, n as int));
        }
        k = k + 1;
    }
    proof {
        assert(rs.subrange(0, n as int) =~= rs);
    }
    out
}

/// The types of the alternatives `x`, taken one by one.
pub proof fn lemma_pat_types_char(x: Seq<PatV>)
    ensures
        pat_types(x) is Some <==> forall|i: int| 0 <= i < x.len() ==> pat_type(#[trigger] x[i]) is Some,
        pat_types(x) is Some ==> pat_types(x)->Some_0.len() == x.len() && forall|i: int|
            0 <= i < x.len() ==> #[trigger] pat_types(x)->Some_0[i] == pat_type(x[i])->Some_0,
    decreases x.len(),
{
    if x.len() > 0 {
        let y = x.drop_last();
        lemma_pat_types_char(y);
        assert forall|i: int| 0 <= i < y.len() implies y[i] == x[i] by {}
        if pat_types(x) is Some {
            let ts = pat_types(x)->Some_0;
            assert forall|i: int| 0 <= i < x.len() implies #[trigger] ts[i] == pat_type(x[i])->Some_0 by {
                if i < y.len() {
                    assert(y[i] == x[i]);
                }
            }
            assert forall|i: int| 0 <= i < x.len() implies pat_type(#[trigger] x[i]) is Some by {
                if i < y.len() {
                    assert(y[i] == x[i]);
                }
            }
        } else {
            if forall|i: int| 0 <= i < x.len() ==> pat_type(#[trigger] x[i]) is Some {
                assert forall|i: int| 0 <= i < y.len() implies pat_type(#[trigger] y[i]) is Some by {
                    assert(y[i] == x[i]);
                }
                assert(pat_type(x[x.len() - 1]) is Some);
            }
        }
    }
}

/// One of the alternatives `x` stands for the type `u`.
pub open spec fn has_type(x: Seq<PatV>, u: TypeV) -> bool {
    exists|i: int| 0 <= i < x.len() && pat_type(#[trigger] x[i]) == Some(u)
}

/// Two lists of alternatives that stand for the same set of types, or
/// both for none.
pub open spec fn same_alternatives(x: Seq<PatV>, y: Seq<PatV>) -> bool {
    &&& (forall|i: int| 0 <= i < x.len() ==> pat_type(#[trigger] x[i]) is Some) <==> (forall|j: int|
        0 <= j < y.len() ==> pat_type(#[trigger] y[j]) is Some)
    &&& forall|u: TypeV| #[trigger] has_type(x, u) <==> has_type(y, u)
}

pub proof fn lemma_same_types(x: Seq<PatV>, y: Seq<PatV>)
    requires
        same_alternatives(x, y),
    ensures
        pat_type(PatV::SumType(x)) == pat_type(PatV::SumType(y)),
{
    lemma_pat_types_char(x);
    lemma_pat_types_char(y);
    if pat_types(x) is Some {
        let a = pat_types(x)->Some_0;
        let b = pat_types(y)->Some_0;
        assert forall|u: TypeV| a.contains(u) <==> b.contains(u) by {
            if a.contains(u) {
                let i = choose|i: int| 0 <= i < a.len() && a[i] == u;
                assert(pat_type(x[i]) == Some(u));
                assert(has_type(x, u));
                assert(has_type(y, u));
                let j = choose|j: int| 0 <= j < y.len() && pat_type(#[trigger] y[j]) == Some(u);
                assert(b[j] == u);
            }
            if b.contains(u) {
                let j = choose|j: int| 0 <= j < b.len() && b[j] == u;
                assert(pat_type(y[j]) == Some(u));
                assert(has_type(y, u));
                assert(has_type(x, u));
                let i = choose|i: int| 0 <= i < x.len() && pat_type(#[trigger] x[i]) == Some(u);
                assert(a[i] == u);
            }
        }
        crate::parser::types::law_sum_is_a_set(a, b);
    }
}

proof fn lemma_first_after_bound(s: Seq<PatV>, p: PatV, i: int)
    requires
        0 <= i <= s.len(),
    ensures
        i <= first_after(s, p, i) <= s.len(),
    decreases s.len() - i,
{
    if i < s.len() && key_order(pat_type(s[i]), pat_type(p)) < 0 {
        lemma_first_after_bound(s, p, i + 1);
    }
}

pub proof fn lemma_insert_same(s: Seq<PatV>, p: PatV)
    ensures
        same_alternatives(insert_pat(s, p), s.push(p)),
{
    let i = first_after(s, p, 0);
    lemma_first_after_bound(s, p, 0);
    let t = s.push(p);
    if i < s.len() && pat_type(s[i]) == pat_type(p) {
        assert(t[i] == s[i]);
        assert forall|u: TypeV| has_type(t, u) implies has_type(s, u) by {
            let k = choose|k: int| 0 <= k < t.len() && pat_type(#[trigger] t[k]) == Some(u);
            if k == s.len() {
                assert(pat_type(s[i]) == Some(u));
            } else {
                assert(t[k] == s[k]);
            }
        }
        assert forall|u: TypeV| has_type(s, u) implies has_type(t, u) by {
            let j = choose|j: int| 0 <= j < s.len() && pat_type(#[trigger] s[j]) == Some(u);
            assert(t[j] == s[j]);
        }
        if forall|j: int| 0 <= j < s.len() ==> pat_type(#[trigger] s[j]) is Some {
            assert forall|k: int| 0 <= k < t.len() implies pat_type(#[trigger] t[k]) is Some by {
                if k < s.len() {
                    assert(t[k] == s[k]);
                } else {
                    assert(pat_type(s[i]) is Some);
                }
            }
        }
        if forall|k: int| 0 <= k < t.len() ==> pat_type(#[trigger] t[k]) is Some {
            assert forall|j: int| 0 <= j < s.len() implies pat_type(#[trigger] s[j]) is Some by {
                assert(t[j] == s[j]);
            }
        }
    } else {
        let r = s.insert(i, p);
        assert forall|k: int| 0 <= k < r.len() implies exists|m: int| 0 <= m < t.len() && #[trigger] r[k] == t[m] by {
            if k < i {
                assert(r[k] == t[k]);
            } else if k == i {
                assert(r[k] == t[s.len() as int]);
            } else {
                assert(r[k] == t[k - 1]);
            }
        }
        assert forall|m: int| 0 <= m < t.len() implies exists|k: int| 0 <= k < r.len() && r[k] == #[trigger] t[m] by {
            if m == s.len() {
                assert(r[i] == t[m]);
            } else if m < i {
                assert(r[m] == t[m]);
            } else {
                assert(r[m + 1] == t[m]);
            }
        }
        assert forall|u: TypeV| has_type(r, u) implies has_type(t, u) by {
            let k = choose|k: int| 0 <= k < r.len() && pat_type(#[trigger] r[k]) == Some(u);
            let m = choose|m: int| 0 <= m < t.len() && #[trigger] r[k] == t[m];
            assert(pat_type(t[m]) == Some(u));
        }
        assert forall|u: TypeV| has_type(t, u) implies has_type(r, u) by {
            let m = choose|m: int| 0 <= m < t.len() && pat_type(#[trigger] t[m]) == Some(u);
            let k = choose|k: int| 0 <= k < r.len() && r[k] == #[trigger] t[m];
            assert(pat_type(r[k]) == Some(u));
        }
        if forall|k: int| 0 <= k < r.len() ==> pat_type(#[trigger] r[k]) is Some {
            assert forall|m: int| 0 <= m < t.len() implies pat_type(#[trigger] t[m]) is Some by {
                let k = choose|k: int| 0 <= k < r.len() && r[k] == #[trigger] t[m];
                assert(pat_type(r[k]) is Some);
            }
        }
        if forall|m: int| 0 <= m < t.len() ==> pat_type(#[trigger] t[m]) is Some {
            assert forall|k: int| 0 <= k < r.len() implies pat_type(#[trigger] r[k]) is Some by {
                let m = choose|m: int| 0 <= m < t.len() && #[trigger] r[k] == t[m];
                assert(pat_type(t[m]) is Some);
            }
        }
    }
}

pub proof fn lemma_same_push(x: Seq<PatV>, y: Seq<PatV>, p: PatV)
    requires
        same_alternatives(x, y),
    ensures
        same_alternatives(x.push(p), y.push(p)),
{
    let a = x.push(p);
    let b = y.push(p);
    assert forall|u: TypeV| has_type(a, u) implies has_type(b, u) by {
        let i = choose|i: int| 0 <= i < a.len() && pat_type(#[trigger] a[i]) == Some(u);
        if i == x.len() {
            assert(b[y.len() as int] == p);
        } else {
            assert(a[i] == x[i]);
            assert(has_type(x, u));
            assert(has_type(y, u));
            let j = choose|j: int| 0 <= j < y.len() && pat_type(#[trigger] y[j]) == Some(u);
            assert(b[j] == y[j]);
        }
    }
    assert forall|u: TypeV| has_type(b, u) implies has_type(a, u) by {
        let j = choose|j: int| 0 <= j < b.len() && pat_type(#[trigger] b[j]) == Some(u);
        if j == y.len() {
            assert(a[x.len() as int] == p);
        } else {
            assert(b[j] == y[j]);
            assert(has_type(y, u));
            assert(has_type(x, u));
            let i = choose|i: int| 0 <= i < x.len() && pat_type(#[trigger] x[i]) == Some(u);
            assert(a[i] == x[i]);
        }
    }
    if forall|i: int| 0 <= i < a.len() ==> pat_type(#[trigger] a[i]) is Some {
        assert forall|i: int| 0 <= i < x.len() implies pat_type(#[trigger] x[i]) is Some by {
            assert(a[i] == x[i]);
        }
        assert forall|j: int| 0 <= j < b.len() implies pat_type(#[trigger] b[j]) is Some by {
            if j < y.len() {
                assert(b[j] == y[j]);
            } else {
                assert(a[x.len() as int] == p);
            }
        }
    }
    if forall|j: int| 0 <= j < b.len() ==> pat_type(#[trigger] b[j]) is Some {
        assert forall|j: int| 0 <= j < y.len() implies pat_type(#[trigger] y[j]) is Some by {
            assert(b[j] == y[j]);
        }
        assert forall|i: int| 0 <= i < a.len() implies pat_type(#[trigger] a[i]) is Some by {
            if i < x.len() {
                assert(a[i] == x[i]);
            } else {
                assert(b[y.len() as int] == p);
            }
        }
    }
}

pub proof fn lemma_same_trans(x: Seq<PatV>, y: Seq<PatV>, z: Seq<PatV>)
    requires
        same_alternatives(x, y),
        same_alternatives(y, z),
    ensures
        same_alternatives(x, z),
{
}

proof fn lemma_union_same(l: Seq<PatV>, r: Seq<PatV>)
    ensures
        same_alternatives(union_pats(l, r), l + r),
    decreases r.len(),
{
    if r.len() == 0 {
        assert(l + r =~= l);
    } else {
        let r0 = r.drop_last();
        lemma_union_same(l, r0);
        lemma_insert_same(union_pats(l, r0), r.last());
        lemma_same_push(union_pats(l, r0), l + r0, r.last());
        assert((l + r0).push(r.last()) =~= l + r);
        lemma_same_trans(insert_pat(union_pats(l, r0), r.last()), union_pats(l, r0).push(r.last()), l + r);
    }
}

/// The alternatives of a sum merge as sets: adding an alternative, or
/// joining two sums, gives the type that listing all their alternatives
/// gives, so that the order and the repetition of alternatives do not
/// matter (`law_sum_is_a_set`).
pub proof fn law_alternatives_merge_as_sets(l: Seq<PatV>, r: Seq<PatV>, p: PatV)
    ensures
        pat_type(PatV::SumType(insert_pat(l, p))) == pat_type(PatV::SumType(l.push(p))),
        pat_type(PatV::SumType(union_pats(l, r))) == pat_type(PatV::SumType(l + r)),
{
    lemma_insert_same(l, p);
    lemma_same_types(insert_pat(l, p), l.push(p));
    lemma_union_same(l, r);
    lemma_same_types(union_pats(l, r), l + r);
}

} // verus!
