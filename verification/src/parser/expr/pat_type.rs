use vstd::prelude::*;

use crate::parser::expr::pat::{pv, Pat, PatV};
use crate::parser::expr::views::{lemma_views_of_variants, named_v, pats_v};
use crate::parser::types::{
    canon_types, canonical_types, fields_seq, lemma_canon_types, lemma_fields_seq, otv, tv, types_seq, Type, TypeV,
};

verus! {

/// The type a pattern stands for, if it stands for one.
pub open spec fn pat_type(p: PatV) -> Option<TypeV>
    decreases p,
{
    match p {
        PatV::TypeName(n) => Some(TypeV::Namely(n)),
        PatV::ClosureType(i, o) => match (pat_type(*i), pat_type(*o)) {
            (Some(a), Some(b)) => Some(TypeV::Closure(Box::new(a), Box::new(b))),
            _ => None,
        },
        PatV::SumType(ms) => match pat_types(ms) {
            Some(ts) => Some(TypeV::Sum(canon_types(ts))),
            None => None,
        },
        PatV::ProdType(fs) => match pat_fields(fs) {
            Some(ts) => Some(TypeV::Prod(ts)),
            None => None,
        },
        _ => None,
    }
}

/// The types of a list of patterns, if each stands for one.
pub open spec fn pat_types(ms: Seq<PatV>) -> Option<Seq<TypeV>>
    decreases ms,
{
    if ms.len() == 0 {
        Some(Seq::empty())
    } else {
        proof {
            assert(decreases_to!(ms => ms[ms.len() - 1]));
        }
        match (pat_types(ms.drop_last()), pat_type(ms[ms.len() - 1])) {
            (Some(ts), Some(t)) => Some(ts.push(t)),
            _ => None,
        }
    }
}

/// The typed fields of a product type, if each field's pattern stands for
/// a type.
pub open spec fn pat_fields(fs: Seq<(Seq<char>, PatV)>) -> Option<Seq<(Seq<char>, TypeV)>>
    decreases fs,
{
    if fs.len() == 0 {
        Some(Seq::empty())
    } else {
        proof {
            assert(decreases_to!(fs => fs[fs.len() - 1]));
        }
        match (pat_fields(fs.drop_last()), pat_type(fs[fs.len() - 1].1)) {
            (Some(ts), Some(t)) => Some(ts.push((fs[fs.len() - 1].0, t))),
            _ => None,
        }
    }
}

pub proof fn lemma_pat_types_step(ms: Seq<PatV>, k: int)
    requires
        0 <= k < ms.len(),
    ensures
        pat_types(ms.subrange(0, k + 1)) == match (pat_types(ms.subrange(0, k)), pat_type(ms[k])) {
            (Some(ts), Some(t)) => Some(ts.push(t)),
            _ => None,
        },
{
    assert(ms.subrange(0, k + 1).drop_last() =~= ms.subrange(0, k));
}

/// A list whose prefix holds a pattern that stands for no type stands for
/// no list of types.
pub proof fn lemma_pat_types_prefix(ms: Seq<PatV>, k: int)
    requires
        0 <= k <= ms.len(),
        pat_types(ms.subrange(0, k)) is None,
    ensures
        pat_types(ms) is None,
    decreases ms.len() - k,
{
    if k < ms.len() {
        lemma_pat_types_step(ms, k);
        lemma_pat_types_prefix(ms, k + 1);
    } else {
        assert(ms.subrange(0, k) =~= ms);
    }
}

pub proof fn lemma_pat_fields_step(fs: Seq<(Seq<char>, PatV)>, k: int)
    requires
        0 <= k < fs.len(),
    ensures
        pat_fields(fs.subrange(0, k + 1)) == match (pat_fields(fs.subrange(0, k)), pat_type(fs[k].1)) {
            (Some(ts), Some(t)) => Some(ts.push((fs[k].0, t))),
            _ => None,
        },
{
    assert(fs.subrange(0, k + 1).drop_last() =~= fs.subrange(0, k));
}

pub proof fn lemma_pat_fields_prefix(fs: Seq<(Seq<char>, PatV)>, k: int)
    requires
        0 <= k <= fs.len(),
        pat_fields(fs.subrange(0, k)) is None,
    ensures
        pat_fields(fs) is None,
    decreases fs.len() - k,
{
    if k < fs.len() {
        lemma_pat_fields_step(fs, k);
        lemma_pat_fields_prefix(fs, k + 1);
    } else {
        assert(fs.subrange(0, k) =~= fs);
    }
}

/// Every sum type inside `t` lists its members in canonical order without
/// repetition.
pub open spec fn wf_type(t: TypeV) -> bool
    decreases t,
{
    match t {
        TypeV::Namely(_) => true,
        TypeV::Closure(a, b) => wf_type(*a) && wf_type(*b),
        TypeV::Sum(ms) => canonical_types(ms) && wf_types(ms),
        TypeV::Prod(fs) => wf_fields(fs),
    }
}

pub open spec fn wf_types(ms: Seq<TypeV>) -> bool
    decreases ms,
{
    if ms.len() == 0 {
        true
    } else {
        proof {
            assert(decreases_to!(ms => ms[ms.len() - 1]));
        }
        wf_types(ms.drop_last()) && wf_type(ms[ms.len() - 1])
    }
}

pub open spec fn wf_fields(fs: Seq<(Seq<char>, TypeV)>) -> bool
    decreases fs,
{
    if fs.len() == 0 {
        true
    } else {
        proof {
            assert(decreases_to!(fs => fs[fs.len() - 1]));
        }
        wf_fields(fs.drop_last()) && wf_type(fs[fs.len() - 1].1)
    }
}

proof fn lemma_wf_types_all(ms: Seq<TypeV>)
    ensures
        wf_types(ms) <==> forall|i: int| 0 <= i < ms.len() ==> wf_type(#[trigger] ms[i]),
    decreases ms.len(),
{
    if ms.len() > 0 {
        lemma_wf_types_all(ms.drop_last());
        assert forall|i: int| 0 <= i < ms.len() - 1 implies ms.drop_last()[i] == ms[i] by {}
    }
}

proof fn lemma_pat_types_wf(ms: Seq<PatV>)
    requires
        forall|i: int| 0 <= i < ms.len() ==> (pat_type(#[trigger] ms[i]) matches Some(t) ==> wf_type(t)),
    ensures
        pat_types(ms) matches Some(ts) ==> ts.len() == ms.len() && forall|i: int| 0 <= i < ts.len() ==> wf_type(#[trigger] ts[i]),
    decreases ms.len(),
{
    if ms.len() > 0 {
        let init = ms.drop_last();
        assert forall|i: int| 0 <= i < init.len() implies (pat_type(#[trigger] init[i]) matches Some(t) ==> wf_type(t)) by {
            assert(init[i] == ms[i]);
        }
        lemma_pat_types_wf(init);
        if let Some(ts) = pat_types(ms) {
            let t0 = pat_types(init)->Some_0;
            assert forall|i: int| 0 <= i < ts.len() implies wf_type(#[trigger] ts[i]) by {
                if i < t0.len() {
                    assert(ts[i] == t0[i]);
                }
            }
        }
    }
}

proof fn lemma_pat_fields_wf(fs: Seq<(Seq<char>, PatV)>)
    requires
        forall|i: int| 0 <= i < fs.len() ==> (pat_type(#[trigger] fs[i].1) matches Some(t) ==> wf_type(t)),
    ensures
        pat_fields(fs) matches Some(ts) ==> wf_fields(ts),
    decreases fs.len(),
{
    if fs.len() > 0 {
        let init = fs.drop_last();
        assert forall|i: int| 0 <= i < init.len() implies (pat_type(#[trigger] init[i].1) matches Some(t) ==> wf_type(t)) by {
            assert(init[i] == fs[i]);
        }
        lemma_pat_fields_wf(init);
        if let Some(ts) = pat_fields(fs) {
            let t0 = pat_fields(init)->Some_0;
            assert(ts.drop_last() =~= t0);
        }
    }
}

/// The parser keeps every sum type canonical: a type read from a pattern
/// lists the members of each of its sums in canonical order without
/// repetition, so that sums with the same members compare equal.
pub proof fn law_pattern_types_canonical(p: PatV)
    ensures
        pat_type(p) matches Some(t) ==> wf_type(t),
    decreases p,
{
    match p {
        PatV::ClosureType(i, o) => {
            law_pattern_types_canonical(*i);
            law_pattern_types_canonical(*o);
        },
        PatV::SumType(ms) => {
            assert forall|i: int| 0 <= i < ms.len() implies (pat_type(#[trigger] ms[i]) matches Some(t) ==> wf_type(t)) by {
                assert(decreases_to!(p => ms));
                assert(decreases_to!(ms => ms[i]));
                law_pattern_types_canonical(ms[i]);
            }
            lemma_pat_types_wf(ms);
            if let Some(ts) = pat_types(ms) {
                let c = canon_types(ts);
                lemma_canon_types(ts);
                assert forall|j: int| 0 <= j < c.len() implies wf_type(#[trigger] c[j]) by {
                    assert(c.contains(c[j]));
                    assert(ts.contains(c[j]));
                }
                lemma_wf_types_all(c);
            }
        },
        PatV::ProdType(fs) => {
            assert forall|i: int| 0 <= i < fs.len() implies (pat_type(#[trigger] fs[i].1) matches Some(t) ==> wf_type(t)) by {
                assert(decreases_to!(p => fs));
                assert(decreases_to!(fs => fs[i]));
                assert(decreases_to!(fs[i] => fs[i].1));
                law_pattern_types_canonical(fs[i].1);
            }
            lemma_pat_fields_wf(fs);
        },
        _ => {},
    }
}

/// The type a pattern stands for: `None` for a pattern that stands for no
/// type.  The members of a sum type are merged as a set.
pub fn pat_into_type(p: Pat) -> (r: Option<Type>)
    ensures
        otv(r) == pat_type(p@),
    decreases p,
{
    let ghost pp = p;
    proof {
        lemma_views_of_variants(p);
    }
    match p {
        Pat::TypeName(n) => Some(Type::NamelyType(n)),
        Pat::ClosureType(i, o) => {
            let a = pat_into_type(*i);
            let b = pat_into_type(*o);
            match (a, b) {
                (Some(a), Some(b)) => Some(Type::ClosureType(Box::new(a), Box::new(b))),
                _ => None,
            }
        },
        Pat::SumType(ms) => {
            let ghost all = pats_v(ms@);
            let ghost ms0 = ms;
            let n = ms.len();
            let mut rest = ms;
            let mut out: Vec<Type> = Vec::new();
            let mut k: usize = 0;
            proof {
                assert(all.subrange(0, 0) =~= Seq::<PatV>::empty());
                assert(types_seq(out@) =~= Seq::<TypeV>::empty());
            }
            while k < n
                invariant
                    pp == Pat::SumType(ms0),
                    pp == p,
                    pv(pp) == PatV::SumType(all),
                    all == pats_v(ms0@),
                    n == ms0.len(),
                    k <= n,
                    rest@ == ms0@.subrange(k as int, n as int),
                    pat_types(all.subrange(0, k as int)) == Some(types_seq(out@)),
                decreases n - k,
            {
                let x = rest.remove(0);
                proof {
                    assert(x == ms0@[k as int]);
                    assert(decreases_to!(pp => pp->SumType_0));
                    vstd::std_specs::vec::axiom_vec_index_decreases(ms0, k as int);
                    assert(decreases_to!(p => x));
                    lemma_pat_types_step(all, k as int);
                }
                let t = pat_into_type(x);
                match t {
                    Some(t) => {
                        let ghost before = types_seq(out@);
                        let ghost gt = t;
                        out.push(t);
                        proof {
                            assert(types_seq(out@) =~= before.push(tv(gt)));
                            assert(rest@ =~= ms0@.subrange(k + 1, n as int));
                        }
                    },
                    None => {
                        proof {
                            lemma_pat_types_prefix(all, k + 1);
                        }
                        return None;
                    },
                }
                k = k + 1;
            }
            proof {
                assert(all.subrange(0, n as int) =~= all);
            }
            Some(Type::sum_of(out))
        },
        Pat::ProdType(fs) => {
            let ghost all = named_v(fs@);
            let ghost fs0 = fs;
            let n = fs.len();
            let mut rest = fs;
            let mut out: Vec<(String, Type)> = Vec::new();
            let mut k: usize = 0;
            proof {
                assert(all.subrange(0, 0) =~= Seq::<(Seq<char>, PatV)>::empty());
                assert(fields_seq(out@) =~= Seq::<(Seq<char>, TypeV)>::empty());
            }
            while k < n
                invariant
                    pp == Pat::ProdType(fs0),
                    pp == p,
                    pv(pp) == PatV::ProdType(all),
                    all == named_v(fs0@),
                    n == fs0.len(),
                    k <= n,
                    rest@ == fs0@.subrange(k as int, n as int),
                    pat_fields(all.subrange(0, k as int)) == Some(fields_seq(out@)),
                decreases n - k,
            {
                let x = rest.remove(0);
                proof {
                    assert(x == fs0@[k as int]);
                    assert(decreases_to!(pp => pp->ProdType_0));
                    vstd::std_specs::vec::axiom_vec_index_decreases(fs0, k as int);
                    assert(decreases_to!(fs0@[k as int] => fs0@[k as int].1));
                    assert(decreases_to!(p => x.1));
                    lemma_pat_fields_step(all, k as int);
                }
                let (name, fp) = x;
                let t = pat_into_type(fp);
                match t {
                    Some(t) => {
                        let ghost before = fields_seq(out@);
                        let ghost gx = (name, t);
                        out.push((name, t));
                        proof {
                            assert(fields_seq(out@) =~= before.push((gx.0@, tv(gx.1))));
                            assert(rest@ =~= fs0@.subrange(k + 1, n as int));
                        }
                    },
                    None => {
                        proof {
                            lemma_pat_fields_prefix(all, k + 1);
                        }
                        return None;
                    },
                }
                k = k + 1;
            }
            proof {
                assert(all.subrange(0, n as int) =~= all);
                lemma_fields_seq(out);
            }
            Some(Type::ProdType(out))
        },
        _ => None,
    }
}

} // verus!
