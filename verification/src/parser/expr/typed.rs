use vstd::prelude::*;

use crate::parser::expr::pat::{is_expr_v, ov, pv, OptBoxPat, OptPatV, Pat, PatV};
use crate::parser::expr::pat_type::{law_pattern_types_canonical, pat_into_type, pat_type, wf_type};
use crate::parser::expr::lr::{go, spec_go};
use crate::parser::expr::views::{cases_v, lemma_views_of_variants, pats_v, sfields_v};
use crate::parser::preprocess::{outs_view, Out, OutV};
use crate::parser::types::{otv, OptType, Type, TypeV};

verus! {

pub type OptExpr = Option<Expr>;

pub type StructField = (String, OptType, Expr);

/// A Catly expression; the first field of each variant is its type
/// annotation, if it has one.
#[derive(Debug, PartialEq)]
pub enum Expr {
    Unit(OptType),
    Int(OptType, i64),
    EnvRef(OptType, String),
    Closure(OptType, Option<String>, OptType, Box<Expr>),
    Struct(OptType, Vec<StructField>),
    Discard(OptType),
    Cond(OptType, Box<Expr>, Box<Expr>, Box<Expr>),
    Match(OptType, Box<Expr>, Vec<(Expr, Expr)>),
    Apply(OptType, Box<Expr>, Box<Expr>),
    /// `let` binding: annotation, whether the binding is recursive, the
    /// bound name, its annotation, the bound expression and the body.
    Let(OptType, bool, String, OptType, Box<Expr>, Box<Expr>),
}

/// The mathematical value of an `Expr`.
pub enum ExprV {
    Unit(Option<TypeV>),
    Int(Option<TypeV>, i64),
    EnvRef(Option<TypeV>, Seq<char>),
    Closure(Option<TypeV>, Option<Seq<char>>, Option<TypeV>, Box<ExprV>),
    Struct(Option<TypeV>, Seq<(Seq<char>, Option<TypeV>, ExprV)>),
    Discard(Option<TypeV>),
    Cond(Option<TypeV>, Box<ExprV>, Box<ExprV>, Box<ExprV>),
    Match(Option<TypeV>, Box<ExprV>, Seq<(ExprV, ExprV)>),
    Apply(Option<TypeV>, Box<ExprV>, Box<ExprV>),
    Let(Option<TypeV>, bool, Seq<char>, Option<TypeV>, Box<ExprV>, Box<ExprV>),
}

pub open spec fn name_v(o: Option<String>) -> Option<Seq<char>> {
    match o {
        Some(s) => Some(s@),
        None => None,
    }
}

pub open spec fn ev(e: Expr) -> ExprV
    decreases e,
{
    match e {
        Expr::Unit(t) => ExprV::Unit(otv(t)),
        Expr::Int(t, i) => ExprV::Int(otv(t), i),
        Expr::EnvRef(t, n) => ExprV::EnvRef(otv(t), n@),
        Expr::Closure(t, n, it, o) => ExprV::Closure(otv(t), name_v(n), otv(it), Box::new(ev(*o))),
        Expr::Struct(t, v) => ExprV::Struct(
            otv(t),
            Seq::new(
                v.len() as nat,
                |i: int|
                    if 0 <= i < v.len() {
                        (v[i].0@, otv(v[i].1), ev(v[i].2))
                    } else {
                        (Seq::empty(), None, ExprV::Unit(None))
                    },
            ),
        ),
        Expr::Discard(t) => ExprV::Discard(otv(t)),
        Expr::Cond(t, a, b, c) => ExprV::Cond(otv(t), Box::new(ev(*a)), Box::new(ev(*b)), Box::new(ev(*c))),
        Expr::Match(t, e, v) => ExprV::Match(
            otv(t),
            Box::new(ev(*e)),
            Seq::new(
                v.len() as nat,
                |i: int| if 0 <= i < v.len() { (ev(v[i].0), ev(v[i].1)) } else { (ExprV::Unit(None), ExprV::Unit(None)) },
            ),
        ),
        Expr::Apply(t, l, r) => ExprV::Apply(otv(t), Box::new(ev(*l)), Box::new(ev(*r))),
        Expr::Let(t, r, n, at, ae, e) => ExprV::Let(otv(t), r, n@, otv(at), Box::new(ev(*ae)), Box::new(ev(*e))),
    }
}

impl View for Expr {
    type V = ExprV;

    open spec fn view(&self) -> ExprV {
        ev(*self)
    }
}

pub open spec fn oev(e: Option<Expr>) -> Option<ExprV> {
    match e {
        Some(e) => Some(ev(e)),
        None => None,
    }
}

pub open spec fn efields_v(s: Seq<StructField>) -> Seq<(Seq<char>, Option<TypeV>, ExprV)> {
    Seq::new(s.len(), |i: int| (s[i].0@, otv(s[i].1), ev(s[i].2)))
}

pub open spec fn ecases_v(s: Seq<(Expr, Expr)>) -> Seq<(ExprV, ExprV)> {
    Seq::new(s.len(), |i: int| (ev(s[i].0), ev(s[i].1)))
}

pub proof fn lemma_expr_views(e: Expr)
    ensures
        e matches Expr::Struct(t, v) ==> ev(e) == ExprV::Struct(otv(t), efields_v(v@)),
        e matches Expr::Match(t, x, v) ==> ev(e) == ExprV::Match(otv(t), Box::new(ev(*x)), ecases_v(v@)),
{
    match e {
        Expr::Struct(t, v) => {
            assert(ev(e)->Struct_1 =~= efields_v(v@));
        },
        Expr::Match(t, x, v) => {
            assert(ev(e)->Match_2 =~= ecases_v(v@));
        },
        _ => {},
    }
}

/// The type that an optional annotation pattern stands for; an annotation
/// that stands for no type is dropped.
pub open spec fn annot(t: OptPatV) -> Option<TypeV> {
    match t {
        Some(b) => pat_type(*b),
        None => None,
    }
}

/// The expression a pattern stands for, if it stands for one.
pub open spec fn pat_expr(p: PatV) -> Option<ExprV>
    decreases p,
{
    match p {
        PatV::Discard(t) => Some(ExprV::Discard(annot(t))),
        PatV::Unit(t) => Some(ExprV::Unit(annot(t))),
        PatV::Int(t, i) => Some(ExprV::Int(annot(t), i)),
        PatV::LetName(t, n) => Some(ExprV::EnvRef(annot(t), n)),
        PatV::Apply(t, l, r) => match (pat_expr(*l), pat_expr(*r)) {
            (Some(a), Some(b)) => Some(ExprV::Apply(annot(t), Box::new(a), Box::new(b))),
            _ => None,
        },
        PatV::Cond(t, a, b, c) => match (pat_expr(*a), pat_expr(*b), pat_expr(*c)) {
            (Some(x), Some(y), Some(z)) => Some(ExprV::Cond(annot(t), Box::new(x), Box::new(y), Box::new(z))),
            _ => None,
        },
        PatV::Closure(t, n, it, o) => match pat_expr(*o) {
            Some(e) => Some(ExprV::Closure(annot(t), n, annot(it), Box::new(e))),
            None => None,
        },
        PatV::Struct(t, fs) => match pat_sfields(fs) {
            Some(v) => Some(ExprV::Struct(annot(t), v)),
            None => None,
        },
        PatV::Match(t, e, cs) => match (pat_expr(*e), pat_cases(cs)) {
            (Some(x), Some(v)) => Some(ExprV::Match(annot(t), Box::new(x), v)),
            _ => None,
        },
        PatV::Let(t, r, n, at, ae, e) => match (pat_expr(*ae), pat_expr(*e)) {
            (Some(x), Some(y)) => Some(ExprV::Let(annot(t), r, n, annot(at), Box::new(x), Box::new(y))),
            _ => None,
        },
        _ => None,
    }
}

/// The fields of a structure pattern as expressions, if each field's
/// pattern stands for one.
pub open spec fn pat_sfields(fs: Seq<(Seq<char>, OptPatV, PatV)>) -> Option<Seq<(Seq<char>, Option<TypeV>, ExprV)>>
    decreases fs,
{
    if fs.len() == 0 {
        Some(Seq::empty())
    } else {
        proof {
            assert(decreases_to!(fs => fs[fs.len() - 1]));
        }
        let f = fs[fs.len() - 1];
        match (pat_sfields(fs.drop_last()), pat_expr(f.2)) {
            (Some(v), Some(e)) => Some(v.push((f.0, annot(f.1), e))),
            _ => None,
        }
    }
}

/// The cases of a match pattern as expressions, if each pattern in them
/// stands for one.
pub open spec fn pat_cases(cs: Seq<(PatV, PatV)>) -> Option<Seq<(ExprV, ExprV)>>
    decreases cs,
{
    if cs.len() == 0 {
        Some(Seq::empty())
    } else {
        proof {
            assert(decreases_to!(cs => cs[cs.len() - 1]));
        }
        let c = cs[cs.len() - 1];
        match (pat_cases(cs.drop_last()), pat_expr(c.0), pat_expr(c.1)) {
            (Some(v), Some(a), Some(b)) => Some(v.push((a, b))),
            _ => None,
        }
    }
}

/// Conversion of an optional annotation pattern into a type.
pub trait OptRcPatExt {
    spec fn annot_view(&self) -> Option<TypeV>;

    /// The type the annotation stands for; `None` when there is no
    /// annotation or it stands for no type.
    fn map_into(self) -> (r: Option<Type>)
        ensures
            otv(r) == self.annot_view(),
    ;
}

impl OptRcPatExt for OptBoxPat {
    open spec fn annot_view(&self) -> Option<TypeV> {
        annot(ov(*self))
    }

    fn map_into(self) -> (r: Option<Type>) {
        match self {
            Some(b) => {
                proof {
                    assert(ov(Some(b)) == Some(Box::new(pv(*b))));
                }
                pat_into_type(*b)
            },
            None => {
                proof {
                    assert(ov(None) == None::<Box<PatV>>);
                }
                None
            },
        }
    }
}

pub proof fn lemma_pat_sfields_step(fs: Seq<(Seq<char>, OptPatV, PatV)>, k: int)
    requires
        0 <= k < fs.len(),
    ensures
        pat_sfields(fs.subrange(0, k + 1)) == match (pat_sfields(fs.subrange(0, k)), pat_expr(fs[k].2)) {
            (Some(v), Some(e)) => Some(v.push((fs[k].0, annot(fs[k].1), e))),
            _ => None,
        },
{
    assert(fs.subrange(0, k + 1).drop_last() =~= fs.subrange(0, k));
}

pub proof fn lemma_pat_sfields_prefix(fs: Seq<(Seq<char>, OptPatV, PatV)>, k: int)
    requires
        0 <= k <= fs.len(),
        pat_sfields(fs.subrange(0, k)) is None,
    ensures
        pat_sfields(fs) is None,
    decreases fs.len() - k,
{
    if k < fs.len() {
        lemma_pat_sfields_step(fs, k);
        lemma_pat_sfields_prefix(fs, k + 1);
    } else {
        assert(fs.subrange(0, k) =~= fs);
    }
}

pub proof fn lemma_pat_cases_step(cs: Seq<(PatV, PatV)>, k: int)
    requires
        0 <= k < cs.len(),
    ensures
        pat_cases(cs.subrange(0, k + 1)) == match (pat_cases(cs.subrange(0, k)), pat_expr(cs[k].0), pat_expr(cs[k].1)) {
            (Some(v), Some(a), Some(b)) => Some(v.push((a, b))),
            _ => None,
        },
{
    assert(cs.subrange(0, k + 1).drop_last() =~= cs.subrange(0, k));
}

pub proof fn lemma_pat_cases_prefix(cs: Seq<(PatV, PatV)>, k: int)
    requires
        0 <= k <= cs.len(),
        pat_cases(cs.subrange(0, k)) is None,
    ensures
        pat_cases(cs) is None,
    decreases cs.len() - k,
{
    if k < cs.len() {
        lemma_pat_cases_step(cs, k);
        lemma_pat_cases_prefix(cs, k + 1);
    } else {
        assert(cs.subrange(0, k) =~= cs);
    }
}

/// The expression a pattern stands for: `None` for a pattern that stands
/// for no expression.  An annotation that stands for no type is dropped.
pub fn pat_into_expr(p: Pat) -> (r: OptExpr)
    ensures
        oev(r) == pat_expr(p@),
    decreases p,
{
    let ghost pp = p;
    proof {
        lemma_views_of_variants(p);
    }
    match p {
        Pat::Discard(t) => Some(Expr::Discard(t.map_into())),
        Pat::Unit(t) => Some(Expr::Unit(t.map_into())),
        Pat::Int(t, i) => Some(Expr::Int(t.map_into(), i)),
        Pat::LetName(t, n) => Some(Expr::EnvRef(t.map_into(), n)),
        Pat::Apply(t, l, r) => {
            let a = pat_into_expr(*l);
            let b = pat_into_expr(*r);
            match (a, b) {
                (Some(a), Some(b)) => Some(Expr::Apply(t.map_into(), Box::new(a), Box::new(b))),
                _ => None,
            }
        },
        Pat::Cond(t, a, b, c) => {
            let x = pat_into_expr(*a);
            let y = pat_into_expr(*b);
            let z = pat_into_expr(*c);
            match (x, y, z) {
                (Some(x), Some(y), Some(z)) => Some(Expr::Cond(t.map_into(), Box::new(x), Box::new(y), Box::new(z))),
                _ => None,
            }
        },
        Pat::Closure(t, n, it, o) => match pat_into_expr(*o) {
            Some(e) => Some(Expr::Closure(t.map_into(), n, it.map_into(), Box::new(e))),
            None => None,
        },
        Pat::Struct(t, fs) => {
            let ghost all = sfields_v(fs@);
            let ghost fs0 = fs;
            let n = fs.len();
            let mut rest = fs;
            let mut out: Vec<StructField> = Vec::new();
            let mut k: usize = 0;
            proof {
                assert(all.subrange(0, 0) =~= Seq::<(Seq<char>, OptPatV, PatV)>::empty());
                assert(efields_v(out@) =~= Seq::<(Seq<char>, Option<TypeV>, ExprV)>::empty());
            }
            while k < n
                invariant
                    pp == Pat::Struct(t, fs0),
                    pp == p,
                    pv(pp) == PatV::Struct(ov(t), all),
                    all == sfields_v(fs0@),
                    n == fs0.len(),
                    k <= n,
                    rest@ == fs0@.subrange(k as int, n as int),
                    pat_sfields(all.subrange(0, k as int)) == Some(efields_v(out@)),
                decreases n - k,
            {
                let x = rest.remove(0);
                proof {
                    assert(x == fs0@[k as int]);
                    assert(decreases_to!(pp => pp->Struct_1));
                    vstd::std_specs::vec::axiom_vec_index_decreases(fs0, k as int);
                    assert(decreases_to!(fs0@[k as int] => fs0@[k as int].2));
                    assert(decreases_to!(p => x.2));
                    lemma_pat_sfields_step(all, k as int);
                }
                let (name, ft, fp) = x;
                match pat_into_expr(fp) {
                    Some(e) => {
                        let ghost before = efields_v(out@);
                        let ty = ft.map_into();
                        let ghost gx = (name, ty, e);
                        out.push((name, ty, e));
                        proof {
                            assert(efields_v(out@) =~= before.push((gx.0@, otv(gx.1), ev(gx.2))));
                            assert(rest@ =~= fs0@.subrange(k + 1, n as int));
                        }
                    },
                    None => {
                        proof {
                            lemma_pat_sfields_prefix(all, k + 1);
                        }
                        return None;
                    },
                }
                k = k + 1;
            }
            let e = Expr::Struct(t.map_into(), out);
            proof {
                assert(all.subrange(0, n as int) =~= all);
                lemma_expr_views(e);
            }
            Some(e)
        },
        Pat::Match(t, h, cs) => {
            let head = match pat_into_expr(*h) {
                Some(x) => x,
                None => {
                    return None;
                },
            };
            let ghost all = cases_v(cs@);
            let ghost cs0 = cs;
            let n = cs.len();
            let mut rest = cs;
            let mut out: Vec<(Expr, Expr)> = Vec::new();
            let mut k: usize = 0;
            proof {
                assert(all.subrange(0, 0) =~= Seq::<(PatV, PatV)>::empty());
                assert(ecases_v(out@) =~= Seq::<(ExprV, ExprV)>::empty());
            }
            while k < n
                invariant
                    pp == Pat::Match(t, h, cs0),
                    pp == p,
                    pv(pp) == PatV::Match(ov(t), Box::new(pv(*h)), all),
                    pat_expr(pv(*h)) == Some(ev(head)),
                    all == cases_v(cs0@),
                    n == cs0.len(),
                    k <= n,
                    rest@ == cs0@.subrange(k as int, n as int),
                    pat_cases(all.subrange(0, k as int)) == Some(ecases_v(out@)),
                decreases n - k,
            {
                let x = rest.remove(0);
                proof {
                    assert(x == cs0@[k as int]);
                    assert(decreases_to!(pp => pp->Match_2));
                    vstd::std_specs::vec::axiom_vec_index_decreases(cs0, k as int);
                    assert(decreases_to!(cs0@[k as int] => cs0@[k as int].0));
                    assert(decreases_to!(cs0@[k as int] => cs0@[k as int].1));
                    assert(decreases_to!(p => x.0));
                    assert(decreases_to!(p => x.1));
                    lemma_pat_cases_step(all, k as int);
                }
                let (cp, tp) = x;
                let a = pat_into_expr(cp);
                let b = pat_into_expr(tp);
                match (a, b) {
                    (Some(a), Some(b)) => {
                        let ghost before = ecases_v(out@);
                        let ghost gx = (a, b);
                        out.push((a, b));
                        proof {
                            assert(ecases_v(out@) =~= before.push((ev(gx.0), ev(gx.1))));
                            assert(rest@ =~= cs0@.subrange(k + 1, n as int));
                        }
                    },
                    _ => {
                        proof {
                            lemma_pat_cases_prefix(all, k + 1);
                        }
                        return None;
                    },
                }
                k = k + 1;
            }
            let e = Expr::Match(t.map_into(), Box::new(head), out);
            proof {
                assert(all.subrange(0, n as int) =~= all);
                lemma_expr_views(e);
            }
            Some(e)
        },
        Pat::Let(t, r, n, at, ae, e) => {
            let x = pat_into_expr(*ae);
            let y = pat_into_expr(*e);
            match (x, y) {
                (Some(x), Some(y)) => Some(Expr::Let(t.map_into(), r, n, at.map_into(), Box::new(x), Box::new(y))),
                _ => None,
            }
        },
        _ => None,
    }
}

pub open spec fn wf_annot(t: Option<TypeV>) -> bool {
    match t {
        Some(t) => wf_type(t),
        None => true,
    }
}

/// Every type annotation in `e` keeps its sum types canonical.
pub open spec fn wf_expr(e: ExprV) -> bool
    decreases e,
{
    match e {
        ExprV::Unit(t) => wf_annot(t),
        ExprV::Int(t, _) => wf_annot(t),
        ExprV::EnvRef(t, _) => wf_annot(t),
        ExprV::Discard(t) => wf_annot(t),
        ExprV::Apply(t, l, r) => wf_annot(t) && wf_expr(*l) && wf_expr(*r),
        ExprV::Cond(t, a, b, c) => wf_annot(t) && wf_expr(*a) && wf_expr(*b) && wf_expr(*c),
        ExprV::Closure(t, _, it, o) => wf_annot(t) && wf_annot(it) && wf_expr(*o),
        ExprV::Struct(t, v) => wf_annot(t) && wf_sfields(v),
        ExprV::Match(t, x, v) => wf_annot(t) && wf_expr(*x) && wf_cases(v),
        ExprV::Let(t, _, _, at, ae, b) => wf_annot(t) && wf_annot(at) && wf_expr(*ae) && wf_expr(*b),
    }
}

pub open spec fn wf_sfields(v: Seq<(Seq<char>, Option<TypeV>, ExprV)>) -> bool
    decreases v,
{
    if v.len() == 0 {
        true
    } else {
        proof {
            assert(decreases_to!(v => v[v.len() - 1]));
        }
        wf_sfields(v.drop_last()) && wf_annot(v[v.len() - 1].1) && wf_expr(v[v.len() - 1].2)
    }
}

pub open spec fn wf_cases(v: Seq<(ExprV, ExprV)>) -> bool
    decreases v,
{
    if v.len() == 0 {
        true
    } else {
        proof {
            assert(decreases_to!(v => v[v.len() - 1]));
        }
        wf_cases(v.drop_last()) && wf_expr(v[v.len() - 1].0) && wf_expr(v[v.len() - 1].1)
    }
}

proof fn lemma_annot_wf(t: OptPatV)
    ensures
        wf_annot(annot(t)),
{
    if let Some(b) = t {
        law_pattern_types_canonical(*b);
    }
}

proof fn lemma_sfields_wf(fs: Seq<(Seq<char>, OptPatV, PatV)>)
    requires
        forall|i: int| 0 <= i < fs.len() ==> (pat_expr(#[trigger] fs[i].2) matches Some(e) ==> wf_expr(e)),
    ensures
        pat_sfields(fs) matches Some(v) ==> wf_sfields(v),
    decreases fs.len(),
{
    if fs.len() > 0 {
        let init = fs.drop_last();
        assert forall|i: int| 0 <= i < init.len() implies (pat_expr(#[trigger] init[i].2) matches Some(e) ==> wf_expr(e)) by {
            assert(init[i] == fs[i]);
        }
        lemma_sfields_wf(init);
        lemma_annot_wf(fs[fs.len() - 1].1);
        if let Some(v) = pat_sfields(fs) {
            assert(v.drop_last() =~= pat_sfields(init)->Some_0);
        }
    }
}

proof fn lemma_cases_wf(cs: Seq<(PatV, PatV)>)
    requires
        forall|i: int| 0 <= i < cs.len() ==> (pat_expr(#[trigger] cs[i].0) matches Some(e) ==> wf_expr(e)),
        forall|i: int| 0 <= i < cs.len() ==> (pat_expr(#[trigger] cs[i].1) matches Some(e) ==> wf_expr(e)),
    ensures
        pat_cases(cs) matches Some(v) ==> wf_cases(v),
    decreases cs.len(),
{
    if cs.len() > 0 {
        let init = cs.drop_last();
        assert forall|i: int| 0 <= i < init.len() implies (pat_expr(#[trigger] init[i].0) matches Some(e) ==> wf_expr(e)) by {
            assert(init[i] == cs[i]);
        }
        assert forall|i: int| 0 <= i < init.len() implies (pat_expr(#[trigger] init[i].1) matches Some(e) ==> wf_expr(e)) by {
            assert(init[i] == cs[i]);
        }
        lemma_cases_wf(init);
        if let Some(v) = pat_cases(cs) {
            assert(v.drop_last() =~= pat_cases(init)->Some_0);
        }
    }
}

/// The parser keeps every sum type in the annotations of an expression
/// canonical.
pub proof fn law_pattern_expressions_canonical(p: PatV)
    ensures
        pat_expr(p) matches Some(e) ==> wf_expr(e),
    decreases p,
{
    match p {
        PatV::Discard(t) => lemma_annot_wf(t),
        PatV::Unit(t) => lemma_annot_wf(t),
        PatV::Int(t, _) => lemma_annot_wf(t),
        PatV::LetName(t, _) => lemma_annot_wf(t),
        PatV::Apply(t, l, r) => {
            lemma_annot_wf(t);
            law_pattern_expressions_canonical(*l);
            law_pattern_expressions_canonical(*r);
        },
        PatV::Cond(t, a, b, c) => {
            lemma_annot_wf(t);
            law_pattern_expressions_canonical(*a);
            law_pattern_expressions_canonical(*b);
            law_pattern_expressions_canonical(*c);
        },
        PatV::Closure(t, _, it, o) => {
            lemma_annot_wf(t);
            lemma_annot_wf(it);
            law_pattern_expressions_canonical(*o);
        },
        PatV::Struct(t, fs) => {
            lemma_annot_wf(t);
            assert forall|i: int| 0 <= i < fs.len() implies (pat_expr(#[trigger] fs[i].2) matches Some(e) ==> wf_expr(e)) by {
                assert(decreases_to!(p => fs));
                assert(decreases_to!(fs => fs[i]));
                assert(decreases_to!(fs[i] => fs[i].2));
                law_pattern_expressions_canonical(fs[i].2);
            }
            lemma_sfields_wf(fs);
        },
        PatV::Match(t, x, cs) => {
            lemma_annot_wf(t);
            law_pattern_expressions_canonical(*x);
            assert forall|i: int| 0 <= i < cs.len() implies (pat_expr(#[trigger] cs[i].0) matches Some(e) ==> wf_expr(e)) by {
                assert(decreases_to!(p => cs));
                assert(decreases_to!(cs => cs[i]));
                assert(decreases_to!(cs[i] => cs[i].0));
                law_pattern_expressions_canonical(cs[i].0);
            }
            assert forall|i: int| 0 <= i < cs.len() implies (pat_expr(#[trigger] cs[i].1) matches Some(e) ==> wf_expr(e)) by {
                assert(decreases_to!(p => cs));
                assert(decreases_to!(cs => cs[i]));
                assert(decreases_to!(cs[i] => cs[i].1));
                law_pattern_expressions_canonical(cs[i].1);
            }
            lemma_cases_wf(cs);
        },
        PatV::Let(t, _, _, at, ae, e) => {
            lemma_annot_wf(t);
            lemma_annot_wf(at);
            law_pattern_expressions_canonical(*ae);
            law_pattern_expressions_canonical(*e);
        },
        _ => {},
    }
}

proof fn lemma_pat_sfields_shape(fs: Seq<(Seq<char>, OptPatV, PatV)>)
    ensures
        pat_sfields(fs) is Some <==> forall|k: int| 0 <= k < fs.len() ==> pat_expr(#[trigger] fs[k].2) is Some,
        pat_sfields(fs) matches Some(v) ==> v.len() == fs.len() && forall|k: int|
            0 <= k < fs.len() ==> #[trigger] v[k] == (fs[k].0, annot(fs[k].1), pat_expr(fs[k].2).unwrap()),
    decreases fs.len(),
{
    if fs.len() > 0 {
        let init = fs.drop_last();
        lemma_pat_sfields_shape(init);
        let last = fs.len() - 1;
        assert forall|k: int| 0 <= k < init.len() implies init[k] == fs[k] by {}
        if pat_sfields(fs) is Some {
            let v = pat_sfields(fs)->Some_0;
            let v0 = pat_sfields(init)->Some_0;
            assert(v == v0.push((fs[last].0, annot(fs[last].1), pat_expr(fs[last].2).unwrap())));
            assert forall|k: int| 0 <= k < fs.len() implies pat_expr(#[trigger] fs[k].2) is Some by {
                if k < last {
                    assert(init[k] == fs[k]);
                }
            }
            assert forall|k: int| 0 <= k < fs.len() implies #[trigger] v[k] == (fs[k].0, annot(fs[k].1), pat_expr(fs[k].2).unwrap()) by {
                if k < last {
                    assert(init[k] == fs[k]);
                    assert(v[k] == v0[k]);
                }
            }
        } else {
            if forall|k: int| 0 <= k < fs.len() ==> pat_expr(#[trigger] fs[k].2) is Some {
                assert forall|k: int| 0 <= k < init.len() implies pat_expr(#[trigger] init[k].2) is Some by {
                    assert(init[k] == fs[k]);
                }
                assert(pat_expr(fs[last].2) is Some);
            }
        }
    }
}

proof fn lemma_pat_cases_shape(cs: Seq<(PatV, PatV)>)
    ensures
        pat_cases(cs) is Some <==> forall|k: int|
            0 <= k < cs.len() ==> pat_expr(#[trigger] cs[k].0) is Some && pat_expr(cs[k].1) is Some,
        pat_cases(cs) matches Some(v) ==> v.len() == cs.len() && forall|k: int|
            0 <= k < cs.len() ==> #[trigger] v[k] == (pat_expr(cs[k].0).unwrap(), pat_expr(cs[k].1).unwrap()),
    decreases cs.len(),
{
    if cs.len() > 0 {
        let init = cs.drop_last();
        lemma_pat_cases_shape(init);
        let last = cs.len() - 1;
        if pat_cases(cs) is Some {
            let v = pat_cases(cs)->Some_0;
            let v0 = pat_cases(init)->Some_0;
            assert(v == v0.push((pat_expr(cs[last].0).unwrap(), pat_expr(cs[last].1).unwrap())));
            assert forall|k: int| 0 <= k < cs.len() implies pat_expr(#[trigger] cs[k].0) is Some && pat_expr(cs[k].1) is Some by {
                if k < last {
                    assert(init[k] == cs[k]);
                }
            }
            assert forall|k: int| 0 <= k < cs.len() implies #[trigger] v[k] == (pat_expr(cs[k].0).unwrap(), pat_expr(cs[k].1).unwrap()) by {
                if k < last {
                    assert(init[k] == cs[k]);
                    assert(v[k] == v0[k]);
                }
            }
        } else {
            if forall|k: int| 0 <= k < cs.len() ==> pat_expr(#[trigger] cs[k].0) is Some && pat_expr(cs[k].1) is Some {
                assert forall|k: int| 0 <= k < init.len() implies pat_expr(#[trigger] init[k].0) is Some && pat_expr(init[k].1) is Some by {
                    assert(init[k] == cs[k]);
                }
                assert(pat_expr(cs[last].0) is Some);
            }
        }
    }
}

/// A pattern stands for an expression only if it is an expression
/// pattern, and the conversion follows the pattern's shape: a compound
/// pattern converts exactly when each of its direct sub-patterns does, and
/// then into the expression of the same kind with the same names, the
/// annotations converted to types, the structure fields and match cases in
/// their order, and each part the conversion of the matching sub-pattern.
pub proof fn law_pattern_expression_shape(p: PatV)
    ensures
        pat_expr(p) is Some ==> is_expr_v(p),
        p matches PatV::Discard(t) ==> pat_expr(p) == Some(ExprV::Discard(annot(t))),
        p matches PatV::Unit(t) ==> pat_expr(p) == Some(ExprV::Unit(annot(t))),
        p matches PatV::Int(t, i) ==> pat_expr(p) == Some(ExprV::Int(annot(t), i)),
        p matches PatV::LetName(t, n) ==> pat_expr(p) == Some(ExprV::EnvRef(annot(t), n)),
        p matches PatV::Apply(t, l, r) ==> {
            &&& (pat_expr(p) is Some <==> pat_expr(*l) is Some && pat_expr(*r) is Some)
            &&& pat_expr(p) is Some ==> pat_expr(p) == Some(
                ExprV::Apply(annot(t), Box::new(pat_expr(*l).unwrap()), Box::new(pat_expr(*r).unwrap())),
            )
        },
        p matches PatV::Cond(t, a, b, c) ==> {
            &&& (pat_expr(p) is Some <==> pat_expr(*a) is Some && pat_expr(*b) is Some && pat_expr(*c) is Some)
            &&& pat_expr(p) is Some ==> pat_expr(p) == Some(
                ExprV::Cond(
                    annot(t),
                    Box::new(pat_expr(*a).unwrap()),
                    Box::new(pat_expr(*b).unwrap()),
                    Box::new(pat_expr(*c).unwrap()),
                ),
            )
        },
        p matches PatV::Closure(t, n, it, o) ==> {
            &&& (pat_expr(p) is Some <==> pat_expr(*o) is Some)
            &&& pat_expr(p) is Some ==> pat_expr(p) == Some(
                ExprV::Closure(annot(t), n, annot(it), Box::new(pat_expr(*o).unwrap())),
            )
        },
        p matches PatV::Let(t, rec, n, at, ae, e) ==> {
            &&& (pat_expr(p) is Some <==> pat_expr(*ae) is Some && pat_expr(*e) is Some)
            &&& pat_expr(p) is Some ==> pat_expr(p) == Some(
                ExprV::Let(annot(t), rec, n, annot(at), Box::new(pat_expr(*ae).unwrap()), Box::new(pat_expr(*e).unwrap())),
            )
        },
        p matches PatV::Struct(t, fs) ==> {
            &&& (pat_expr(p) is Some <==> forall|k: int| 0 <= k < fs.len() ==> pat_expr(#[trigger] fs[k].2) is Some)
            &&& pat_expr(p) matches Some(x) ==> x matches ExprV::Struct(xt, v) && xt == annot(t) && v.len() == fs.len()
                && forall|k: int| 0 <= k < fs.len() ==> #[trigger] v[k] == (fs[k].0, annot(fs[k].1), pat_expr(fs[k].2).unwrap())
        },
        p matches PatV::Match(t, h, cs) ==> {
            &&& (pat_expr(p) is Some <==> pat_expr(*h) is Some && forall|k: int|
                0 <= k < cs.len() ==> pat_expr(#[trigger] cs[k].0) is Some && pat_expr(cs[k].1) is Some)
            &&& pat_expr(p) matches Some(x) ==> x matches ExprV::Match(xt, xh, v) && xt == annot(t) && *xh == pat_expr(*h).unwrap()
                && v.len() == cs.len() && forall|k: int|
                0 <= k < cs.len() ==> #[trigger] v[k] == (pat_expr(cs[k].0).unwrap(), pat_expr(cs[k].1).unwrap())
        },
{
    match p {
        PatV::Struct(t, fs) => lemma_pat_sfields_shape(fs),
        PatV::Match(t, h, cs) => lemma_pat_cases_shape(cs),
        _ => {},
    }
}

/// Every sum type in the annotations of a parsed expression lists its
/// members in canonical order without repetition.
pub proof fn law_parsed_expressions_canonical(toks: Seq<OutV>)
    ensures
        spec_parse_expr(toks) matches Some(e) ==> wf_expr(e),
{
    law_pattern_expressions_canonical(spec_go(seq![PatV::Start], toks));
}

/// The expression the tokens `toks` stand for, if they stand for one.
pub open spec fn spec_parse_expr(toks: Seq<OutV>) -> Option<ExprV> {
    pat_expr(spec_go(seq![PatV::Start], toks))
}

/// Parses an expression from its tokens.
pub fn parse_expr(seq: Vec<Out>) -> (r: OptExpr)
    ensures
        oev(r) == spec_parse_expr(outs_view(seq@)),
{
    let mut stack: Vec<Pat> = Vec::new();
    stack.push(Pat::Start);
    proof {
        assert(pats_v(stack@) =~= seq![PatV::Start]);
    }
    pat_into_expr(go(stack, seq))
}

} // verus!
