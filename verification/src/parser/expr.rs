pub mod pat;
pub mod rules;
pub mod stack;
pub mod reduce;
pub mod pat_type;
pub mod typed;
pub mod lr;
pub mod annotation;
pub mod follow_pat;
pub mod render;
pub mod parens;
pub mod sugar;
pub mod curry;
pub mod psum;
pub mod alts;
pub mod group;
pub mod views;

use vstd::prelude::*;

use crate::parser::expr::typed::{ecases_v, efields_v, ev, lemma_expr_views, spec_parse_expr, ExprV};
use crate::parser::infra::{MaybeExpr, MaybeType};
use crate::parser::preprocess::{outs_view, Out, OutV};
use crate::parser::types::{otv, TypeV};

verus! {

/// A Catly expression as the first parser gave it: names carry no type
/// annotation, every closure names its parameter, and `let` bindings are
/// never recursive.
#[derive(Debug, PartialEq)]
pub enum Expr {
    Unit(MaybeType),
    Int(MaybeType, i64),
    EnvRef(String),
    Apply(MaybeType, Box<Expr>, Box<Expr>),
    Cond(MaybeType, Box<Expr>, Box<Expr>, Box<Expr>),
    Closure(MaybeType, String, MaybeType, Box<Expr>),
    Struct(MaybeType, Vec<(String, MaybeType, Expr)>),
    Discard,
    Match(MaybeType, Box<Expr>, Vec<(Expr, Expr)>),
    Let(MaybeType, String, MaybeType, Box<Expr>, Box<Expr>),
}

/// The mathematical value of an `Expr`.
pub enum PlainV {
    Unit(Option<TypeV>),
    Int(Option<TypeV>, i64),
    EnvRef(Seq<char>),
    Apply(Option<TypeV>, Box<PlainV>, Box<PlainV>),
    Cond(Option<TypeV>, Box<PlainV>, Box<PlainV>, Box<PlainV>),
    Closure(Option<TypeV>, Seq<char>, Option<TypeV>, Box<PlainV>),
    Struct(Option<TypeV>, Seq<(Seq<char>, Option<TypeV>, PlainV)>),
    Discard,
    Match(Option<TypeV>, Box<PlainV>, Seq<(PlainV, PlainV)>),
    Let(Option<TypeV>, Seq<char>, Option<TypeV>, Box<PlainV>, Box<PlainV>),
}

pub open spec fn plv(e: Expr) -> PlainV
    decreases e,
{
    match e {
        Expr::Unit(t) => PlainV::Unit(otv(t)),
        Expr::Int(t, i) => PlainV::Int(otv(t), i),
        Expr::EnvRef(n) => PlainV::EnvRef(n@),
        Expr::Apply(t, l, r) => PlainV::Apply(otv(t), Box::new(plv(*l)), Box::new(plv(*r))),
        Expr::Cond(t, a, b, c) => PlainV::Cond(otv(t), Box::new(plv(*a)), Box::new(plv(*b)), Box::new(plv(*c))),
        Expr::Closure(t, n, it, o) => PlainV::Closure(otv(t), n@, otv(it), Box::new(plv(*o))),
        Expr::Struct(t, v) => PlainV::Struct(
            otv(t),
            Seq::new(
                v.len() as nat,
                |i: int| if 0 <= i < v.len() { (v[i].0@, otv(v[i].1), plv(v[i].2)) } else { (Seq::empty(), None, PlainV::Discard) },
            ),
        ),
        Expr::Discard => PlainV::Discard,
        Expr::Match(t, x, v) => PlainV::Match(
            otv(t),
            Box::new(plv(*x)),
            Seq::new(
                v.len() as nat,
                |i: int| if 0 <= i < v.len() { (plv(v[i].0), plv(v[i].1)) } else { (PlainV::Discard, PlainV::Discard) },
            ),
        ),
        Expr::Let(t, n, at, ae, b) => PlainV::Let(otv(t), n@, otv(at), Box::new(plv(*ae)), Box::new(plv(*b))),
    }
}

impl View for Expr {
    type V = PlainV;

    open spec fn view(&self) -> PlainV {
        plv(*self)
    }
}

pub open spec fn oplv(e: MaybeExpr) -> Option<PlainV> {
    match e {
        Some(e) => Some(plv(e)),
        None => None,
    }
}

pub open spec fn pfields_v(s: Seq<(String, MaybeType, Expr)>) -> Seq<(Seq<char>, Option<TypeV>, PlainV)> {
    Seq::new(s.len(), |i: int| (s[i].0@, otv(s[i].1), plv(s[i].2)))
}

pub open spec fn pcases_v(s: Seq<(Expr, Expr)>) -> Seq<(PlainV, PlainV)> {
    Seq::new(s.len(), |i: int| (plv(s[i].0), plv(s[i].1)))
}

pub proof fn lemma_plain_views(e: Expr)
    ensures
        e matches Expr::Struct(t, v) ==> plv(e) == PlainV::Struct(otv(t), pfields_v(v@)),
        e matches Expr::Match(t, x, v) ==> plv(e) == PlainV::Match(otv(t), Box::new(plv(*x)), pcases_v(v@)),
{
    match e {
        Expr::Struct(t, v) => {
            assert(plv(e)->Struct_1 =~= pfields_v(v@));
        },
        Expr::Match(t, x, v) => {
            assert(plv(e)->Match_2 =~= pcases_v(v@));
        },
        _ => {},
    }
}

fn clone_maybe_type(t: &MaybeType) -> (r: MaybeType)
    ensures
        otv(r) == otv(*t),
{
    match t {
        Some(t) => Some(t.deep_clone()),
        None => None,
    }
}

impl Expr {
    /// A copy of the expression with the same value.
    pub fn deep_clone(&self) -> (r: Expr)
        ensures
            r@ == self@,
        decreases self,
    {
        proof {
            lemma_plain_views(*self);
        }
        match self {
            Expr::Unit(t) => Expr::Unit(clone_maybe_type(t)),
            Expr::Int(t, i) => Expr::Int(clone_maybe_type(t), *i),
            Expr::EnvRef(n) => Expr::EnvRef(n.clone()),
            Expr::Apply(t, l, r) => {
                proof {
                    assert(decreases_to!(*self => (*self)->Apply_1));
                    assert(decreases_to!(*self => (*self)->Apply_2));
                }
                Expr::Apply(clone_maybe_type(t), Box::new(l.deep_clone()), Box::new(r.deep_clone()))
            },
            Expr::Cond(t, a, b, c) => {
                proof {
                    assert(decreases_to!(*self => (*self)->Cond_1));
                    assert(decreases_to!(*self => (*self)->Cond_2));
                    assert(decreases_to!(*self => (*self)->Cond_3));
                }
                Expr::Cond(clone_maybe_type(t), Box::new(a.deep_clone()), Box::new(b.deep_clone()), Box::new(c.deep_clone()))
            },
            Expr::Closure(t, n, it, o) => {
                proof {
                    assert(decreases_to!(*self => (*self)->Closure_3));
                }
                Expr::Closure(clone_maybe_type(t), n.clone(), clone_maybe_type(it), Box::new(o.deep_clone()))
            },
            Expr::Struct(t, v) => {
                let mut out: Vec<(String, MaybeType, Expr)> = Vec::new();
                let mut k: usize = 0;
                while k < v.len()
                    invariant
                        *self == Expr::Struct(*t, *v),
                        k <= v.len(),
                        out@.len() == k,
                        pfields_v(out@) == pfields_v(v@).subrange(0, k as int),
                    decreases v.len() - k,
                {
                    proof {
                        assert(decreases_to!(*self => (*self)->Struct_1));
                        vstd::std_specs::vec::axiom_vec_index_decreases(*v, k as int);
                        assert(decreases_to!(v@[k as int] => v@[k as int].2));
                    }
                    let e = v[k].2.deep_clone();
                    let f = (v[k].0.clone(), clone_maybe_type(&v[k].1), e);
                    let ghost before = out@;
                    let ghost gf = f;
                    out.push(f);
                    proof {
                        assert(out@ == before.push(gf));
                        assert(pfields_v(out@)[k as int] == pfields_v(v@)[k as int]);
                        assert(pfields_v(out@) =~= pfields_v(v@).subrange(0, k + 1));
                    }
                    k = k + 1;
                }
                let r = Expr::Struct(clone_maybe_type(t), out);
                proof {
                    assert(pfields_v(v@).subrange(0, v.len() as int) =~= pfields_v(v@));
                    lemma_plain_views(r);
                }
                r
            },
            Expr::Discard => Expr::Discard,
            Expr::Match(t, x, v) => {
                proof {
                    assert(decreases_to!(*self => (*self)->Match_1));
                }
                let head = x.deep_clone();
                let mut out: Vec<(Expr, Expr)> = Vec::new();
                let mut k: usize = 0;
                while k < v.len()
                    invariant
                        *self == Expr::Match(*t, *x, *v),
                        k <= v.len(),
                        out@.len() == k,
                        pcases_v(out@) == pcases_v(v@).subrange(0, k as int),
                    decreases v.len() - k,
                {
                    proof {
                        assert(decreases_to!(*self => (*self)->Match_2));
                        vstd::std_specs::vec::axiom_vec_index_decreases(*v, k as int);
                        assert(decreases_to!(v@[k as int] => v@[k as int].0));
                        assert(decreases_to!(v@[k as int] => v@[k as int].1));
                    }
                    let a = v[k].0.deep_clone();
                    let b = v[k].1.deep_clone();
                    let ghost before = out@;
                    let ghost gf = (a, b);
                    out.push((a, b));
                    proof {
                        assert(out@ == before.push(gf));
                        assert(pcases_v(out@)[k as int] == pcases_v(v@)[k as int]);
                        assert(pcases_v(out@) =~= pcases_v(v@).subrange(0, k + 1));
                    }
                    k = k + 1;
                }
                let r = Expr::Match(clone_maybe_type(t), Box::new(head), out);
                proof {
                    assert(pcases_v(v@).subrange(0, v.len() as int) =~= pcases_v(v@));
                    lemma_plain_views(r);
                }
                r
            },
            Expr::Let(t, n, at, ae, b) => {
                proof {
                    assert(decreases_to!(*self => (*self)->Let_3));
                    assert(decreases_to!(*self => (*self)->Let_4));
                }
                Expr::Let(
                    clone_maybe_type(t),
                    n.clone(),
                    clone_maybe_type(at),
                    Box::new(ae.deep_clone()),
                    Box::new(b.deep_clone()),
                )
            },
        }
    }
}

impl Clone for Expr {
    fn clone(&self) -> (r: Self)
        ensures
            r@ == self@,
    {
        self.deep_clone()
    }
}

/// The expression in the first parser's form, if it has one: an annotated
/// name or placeholder, or a closure with an unnamed parameter, has none.
pub open spec fn plain(e: ExprV) -> Option<PlainV>
    decreases e,
{
    match e {
        ExprV::Unit(t) => Some(PlainV::Unit(t)),
        ExprV::Int(t, i) => Some(PlainV::Int(t, i)),
        ExprV::EnvRef(t, n) => if t is None { Some(PlainV::EnvRef(n)) } else { None },
        ExprV::Discard(t) => if t is None { Some(PlainV::Discard) } else { None },
        ExprV::Apply(t, l, r) => match (plain(*l), plain(*r)) {
            (Some(a), Some(b)) => Some(PlainV::Apply(t, Box::new(a), Box::new(b))),
            _ => None,
        },
        ExprV::Cond(t, a, b, c) => match (plain(*a), plain(*b), plain(*c)) {
            (Some(x), Some(y), Some(z)) => Some(PlainV::Cond(t, Box::new(x), Box::new(y), Box::new(z))),
            _ => None,
        },
        ExprV::Closure(t, n, it, o) => match (n, plain(*o)) {
            (Some(n), Some(b)) => Some(PlainV::Closure(t, n, it, Box::new(b))),
            _ => None,
        },
        ExprV::Struct(t, v) => match plain_fields(v) {
            Some(w) => Some(PlainV::Struct(t, w)),
            None => None,
        },
        ExprV::Match(t, x, v) => match (plain(*x), plain_cases(v)) {
            (Some(a), Some(w)) => Some(PlainV::Match(t, Box::new(a), w)),
            _ => None,
        },
        ExprV::Let(t, _, n, at, ae, b) => match (plain(*ae), plain(*b)) {
            (Some(x), Some(y)) => Some(PlainV::Let(t, n, at, Box::new(x), Box::new(y))),
            _ => None,
        },
    }
}

pub open spec fn plain_fields(v: Seq<(Seq<char>, Option<TypeV>, ExprV)>) -> Option<Seq<(Seq<char>, Option<TypeV>, PlainV)>>
    decreases v,
{
    if v.len() == 0 {
        Some(Seq::empty())
    } else {
        proof {
            assert(decreases_to!(v => v[v.len() - 1]));
        }
        let f = v[v.len() - 1];
        match (plain_fields(v.drop_last()), plain(f.2)) {
            (Some(w), Some(e)) => Some(w.push((f.0, f.1, e))),
            _ => None,
        }
    }
}

pub open spec fn plain_cases(v: Seq<(ExprV, ExprV)>) -> Option<Seq<(PlainV, PlainV)>>
    decreases v,
{
    if v.len() == 0 {
        Some(Seq::empty())
    } else {
        proof {
            assert(decreases_to!(v => v[v.len() - 1]));
        }
        let c = v[v.len() - 1];
        match (plain_cases(v.drop_last()), plain(c.0), plain(c.1)) {
            (Some(w), Some(a), Some(b)) => Some(w.push((a, b))),
            _ => None,
        }
    }
}

/// The expression in the typed form that a first-form expression stands
/// for: names and placeholders carry no annotation, parameters are named
/// and no binding is recursive.
pub open spec fn typed_form(p: PlainV) -> ExprV
    decreases p,
{
    match p {
        PlainV::Unit(t) => ExprV::Unit(t),
        PlainV::Int(t, i) => ExprV::Int(t, i),
        PlainV::EnvRef(n) => ExprV::EnvRef(None, n),
        PlainV::Apply(t, l, r) => ExprV::Apply(t, Box::new(typed_form(*l)), Box::new(typed_form(*r))),
        PlainV::Cond(t, a, b, c) => ExprV::Cond(
            t,
            Box::new(typed_form(*a)),
            Box::new(typed_form(*b)),
            Box::new(typed_form(*c)),
        ),
        PlainV::Closure(t, n, it, o) => ExprV::Closure(t, Some(n), it, Box::new(typed_form(*o))),
        PlainV::Struct(t, fs) => ExprV::Struct(t, typed_fields(fs)),
        PlainV::Discard => ExprV::Discard(None),
        PlainV::Match(t, x, cs) => ExprV::Match(t, Box::new(typed_form(*x)), typed_cases(cs)),
        PlainV::Let(t, n, at, a, b) => ExprV::Let(t, false, n, at, Box::new(typed_form(*a)), Box::new(typed_form(*b))),
    }
}

pub open spec fn typed_fields(fs: Seq<(Seq<char>, Option<TypeV>, PlainV)>) -> Seq<(Seq<char>, Option<TypeV>, ExprV)>
    decreases fs,
{
    if fs.len() == 0 {
        Seq::empty()
    } else {
        proof {
            assert(decreases_to!(fs => fs[fs.len() - 1]));
        }
        let f = fs[fs.len() - 1];
        typed_fields(fs.drop_last()).push((f.0, f.1, typed_form(f.2)))
    }
}

pub open spec fn typed_cases(cs: Seq<(PlainV, PlainV)>) -> Seq<(ExprV, ExprV)>
    decreases cs,
{
    if cs.len() == 0 {
        Seq::empty()
    } else {
        proof {
            assert(decreases_to!(cs => cs[cs.len() - 1]));
        }
        let c = cs[cs.len() - 1];
        typed_cases(cs.drop_last()).push((typed_form(c.0), typed_form(c.1)))
    }
}

/// Every expression of the first form has a typed form that converts back
/// to it unchanged: the conversion keeps every annotation (of expressions,
/// of parameters, of bound names and of fields), every name and the order
/// of fields and cases.
pub proof fn law_plain_round_trip(p: PlainV)
    ensures
        plain(typed_form(p)) == Some(p),
    decreases p,
{
    match p {
        PlainV::Apply(t, l, r) => {
            law_plain_round_trip(*l);
            law_plain_round_trip(*r);
        },
        PlainV::Cond(t, a, b, c) => {
            law_plain_round_trip(*a);
            law_plain_round_trip(*b);
            law_plain_round_trip(*c);
        },
        PlainV::Closure(t, n, it, o) => {
            law_plain_round_trip(*o);
        },
        PlainV::Struct(t, fs) => {
            lemma_fields_round_trip(fs);
        },
        PlainV::Match(t, x, cs) => {
            law_plain_round_trip(*x);
            lemma_cases_round_trip(cs);
        },
        PlainV::Let(t, n, at, a, b) => {
            law_plain_round_trip(*a);
            law_plain_round_trip(*b);
        },
        _ => {},
    }
}

proof fn lemma_fields_round_trip(fs: Seq<(Seq<char>, Option<TypeV>, PlainV)>)
    ensures
        plain_fields(typed_fields(fs)) == Some(fs),
    decreases fs,
{
    if fs.len() > 0 {
        let tf = typed_fields(fs);
        let f = fs[fs.len() - 1];
        assert(decreases_to!(fs => fs[fs.len() - 1]));
        assert(decreases_to!(fs[fs.len() - 1] => fs[fs.len() - 1].2));
        law_plain_round_trip(f.2);
        lemma_fields_round_trip(fs.drop_last());
        assert(tf.drop_last() =~= typed_fields(fs.drop_last()));
        assert(tf[tf.len() - 1] == (f.0, f.1, typed_form(f.2)));
        assert(fs.drop_last().push(f) =~= fs);
    } else {
        assert(typed_fields(fs) =~= Seq::<(Seq<char>, Option<TypeV>, ExprV)>::empty());
        assert(fs =~= Seq::<(Seq<char>, Option<TypeV>, PlainV)>::empty());
    }
}

proof fn lemma_cases_round_trip(cs: Seq<(PlainV, PlainV)>)
    ensures
        plain_cases(typed_cases(cs)) == Some(cs),
    decreases cs,
{
    if cs.len() > 0 {
        let tc = typed_cases(cs);
        let c = cs[cs.len() - 1];
        assert(decreases_to!(cs => cs[cs.len() - 1]));
        assert(decreases_to!(cs[cs.len() - 1] => cs[cs.len() - 1].0));
        assert(decreases_to!(cs[cs.len() - 1] => cs[cs.len() - 1].1));
        law_plain_round_trip(c.0);
        law_plain_round_trip(c.1);
        lemma_cases_round_trip(cs.drop_last());
        assert(tc.drop_last() =~= typed_cases(cs.drop_last()));
        assert(tc[tc.len() - 1] == (typed_form(c.0), typed_form(c.1)));
        assert(cs.drop_last().push(c) =~= cs);
    } else {
        assert(typed_cases(cs) =~= Seq::<(ExprV, ExprV)>::empty());
        assert(cs =~= Seq::<(PlainV, PlainV)>::empty());
    }
}

/// The expression with every `let` binding made non-recursive.
pub open spec fn unrec(e: ExprV) -> ExprV
    decreases e,
{
    match e {
        ExprV::Apply(t, l, r) => ExprV::Apply(t, Box::new(unrec(*l)), Box::new(unrec(*r))),
        ExprV::Cond(t, a, b, c) => ExprV::Cond(t, Box::new(unrec(*a)), Box::new(unrec(*b)), Box::new(unrec(*c))),
        ExprV::Closure(t, n, it, o) => ExprV::Closure(t, n, it, Box::new(unrec(*o))),
        ExprV::Struct(t, fs) => ExprV::Struct(t, unrec_fields(fs)),
        ExprV::Match(t, x, cs) => ExprV::Match(t, Box::new(unrec(*x)), unrec_cases(cs)),
        ExprV::Let(t, _, n, at, a, b) => ExprV::Let(t, false, n, at, Box::new(unrec(*a)), Box::new(unrec(*b))),
        _ => e,
    }
}

pub open spec fn unrec_fields(fs: Seq<(Seq<char>, Option<TypeV>, ExprV)>) -> Seq<(Seq<char>, Option<TypeV>, ExprV)>
    decreases fs,
{
    if fs.len() == 0 {
        Seq::empty()
    } else {
        proof {
            assert(decreases_to!(fs => fs[fs.len() - 1]));
        }
        let f = fs[fs.len() - 1];
        unrec_fields(fs.drop_last()).push((f.0, f.1, unrec(f.2)))
    }
}

pub open spec fn unrec_cases(cs: Seq<(ExprV, ExprV)>) -> Seq<(ExprV, ExprV)>
    decreases cs,
{
    if cs.len() == 0 {
        Seq::empty()
    } else {
        proof {
            assert(decreases_to!(cs => cs[cs.len() - 1]));
        }
        let c = cs[cs.len() - 1];
        unrec_cases(cs.drop_last()).push((unrec(c.0), unrec(c.1)))
    }
}

/// The first form drops nothing but whether a binding is recursive: an
/// expression that has a first form is the typed form of it, once its
/// bindings are made non-recursive.  So an annotated name or placeholder,
/// or a closure without a parameter name, has no first form.
pub proof fn law_plain_keeps_all_but_recursion(e: ExprV)
    ensures
        plain(e) matches Some(p) ==> typed_form(p) == unrec(e),
    decreases e,
{
    match e {
        ExprV::Apply(t, l, r) => {
            law_plain_keeps_all_but_recursion(*l);
            law_plain_keeps_all_but_recursion(*r);
        },
        ExprV::Cond(t, a, b, c) => {
            law_plain_keeps_all_but_recursion(*a);
            law_plain_keeps_all_but_recursion(*b);
            law_plain_keeps_all_but_recursion(*c);
        },
        ExprV::Closure(t, n, it, o) => {
            law_plain_keeps_all_but_recursion(*o);
        },
        ExprV::Struct(t, fs) => {
            lemma_fields_back(fs);
        },
        ExprV::Match(t, x, cs) => {
            law_plain_keeps_all_but_recursion(*x);
            lemma_cases_back(cs);
        },
        ExprV::Let(t, _, n, at, a, b) => {
            law_plain_keeps_all_but_recursion(*a);
            law_plain_keeps_all_but_recursion(*b);
        },
        _ => {},
    }
}

proof fn lemma_fields_back(fs: Seq<(Seq<char>, Option<TypeV>, ExprV)>)
    ensures
        plain_fields(fs) matches Some(w) ==> typed_fields(w) == unrec_fields(fs),
    decreases fs,
{
    if fs.len() > 0 {
        let f = fs[fs.len() - 1];
        assert(decreases_to!(fs => fs[fs.len() - 1]));
        assert(decreases_to!(fs[fs.len() - 1] => fs[fs.len() - 1].2));
        law_plain_keeps_all_but_recursion(f.2);
        lemma_fields_back(fs.drop_last());
        if let Some(w) = plain_fields(fs) {
            let w0 = plain_fields(fs.drop_last())->Some_0;
            assert(w == w0.push((f.0, f.1, plain(f.2)->Some_0)));
            assert(w.drop_last() =~= w0);
            assert(w[w.len() - 1] == (f.0, f.1, plain(f.2)->Some_0));
        }
    }
}

proof fn lemma_cases_back(cs: Seq<(ExprV, ExprV)>)
    ensures
        plain_cases(cs) matches Some(w) ==> typed_cases(w) == unrec_cases(cs),
    decreases cs,
{
    if cs.len() > 0 {
        let c = cs[cs.len() - 1];
        assert(decreases_to!(cs => cs[cs.len() - 1]));
        assert(decreases_to!(cs[cs.len() - 1] => cs[cs.len() - 1].0));
        assert(decreases_to!(cs[cs.len() - 1] => cs[cs.len() - 1].1));
        law_plain_keeps_all_but_recursion(c.0);
        law_plain_keeps_all_but_recursion(c.1);
        lemma_cases_back(cs.drop_last());
        if let Some(w) = plain_cases(cs) {
            let w0 = plain_cases(cs.drop_last())->Some_0;
            assert(w == w0.push((plain(c.0)->Some_0, plain(c.1)->Some_0)));
            assert(w.drop_last() =~= w0);
            assert(w[w.len() - 1] == (plain(c.0)->Some_0, plain(c.1)->Some_0));
        }
    }
}

pub proof fn lemma_plain_fields_step(v: Seq<(Seq<char>, Option<TypeV>, ExprV)>, k: int)
    requires
        0 <= k < v.len(),
    ensures
        plain_fields(v.subrange(0, k + 1)) == match (plain_fields(v.subrange(0, k)), plain(v[k].2)) {
            (Some(w), Some(e)) => Some(w.push((v[k].0, v[k].1, e))),
            _ => None,
        },
{
    assert(v.subrange(0, k + 1).drop_last() =~= v.subrange(0, k));
}

pub proof fn lemma_plain_fields_prefix(v: Seq<(Seq<char>, Option<TypeV>, ExprV)>, k: int)
    requires
        0 <= k <= v.len(),
        plain_fields(v.subrange(0, k)) is None,
    ensures
        plain_fields(v) is None,
    decreases v.len() - k,
{
    if k < v.len() {
        lemma_plain_fields_step(v, k);
        lemma_plain_fields_prefix(v, k + 1);
    } else {
        assert(v.subrange(0, k) =~= v);
    }
}

pub proof fn lemma_plain_cases_step(v: Seq<(ExprV, ExprV)>, k: int)
    requires
        0 <= k < v.len(),
    ensures
        plain_cases(v.subrange(0, k + 1)) == match (plain_cases(v.subrange(0, k)), plain(v[k].0), plain(v[k].1)) {
            (Some(w), Some(a), Some(b)) => Some(w.push((a, b))),
            _ => None,
        },
{
    assert(v.subrange(0, k + 1).drop_last() =~= v.subrange(0, k));
}

pub proof fn lemma_plain_cases_prefix(v: Seq<(ExprV, ExprV)>, k: int)
    requires
        0 <= k <= v.len(),
        plain_cases(v.subrange(0, k)) is None,
    ensures
        plain_cases(v) is None,
    decreases v.len() - k,
{
    if k < v.len() {
        lemma_plain_cases_step(v, k);
        lemma_plain_cases_prefix(v, k + 1);
    } else {
        assert(v.subrange(0, k) =~= v);
    }
}

/// The expression in the first parser's form; `None` where that form
/// cannot hold it.
pub fn into_plain(e: typed::Expr) -> (r: MaybeExpr)
    ensures
        oplv(r) == plain(e@),
    decreases e,
{
    let ghost ee = e;
    proof {
        lemma_expr_views(e);
    }
    match e {
        typed::Expr::Unit(t) => Some(Expr::Unit(t)),
        typed::Expr::Int(t, i) => Some(Expr::Int(t, i)),
        typed::Expr::EnvRef(t, n) => match t {
            None => Some(Expr::EnvRef(n)),
            Some(_) => None,
        },
        typed::Expr::Discard(t) => match t {
            None => Some(Expr::Discard),
            Some(_) => None,
        },
        typed::Expr::Apply(t, l, r) => match (into_plain(*l), into_plain(*r)) {
            (Some(a), Some(b)) => Some(Expr::Apply(t, Box::new(a), Box::new(b))),
            _ => None,
        },
        typed::Expr::Cond(t, a, b, c) => {
            let x = into_plain(*a);
            let y = into_plain(*b);
            let z = into_plain(*c);
            match (x, y, z) {
                (Some(x), Some(y), Some(z)) => Some(Expr::Cond(t, Box::new(x), Box::new(y), Box::new(z))),
                _ => None,
            }
        },
        typed::Expr::Closure(t, n, it, o) => match n {
            Some(n) => match into_plain(*o) {
                Some(b) => Some(Expr::Closure(t, n, it, Box::new(b))),
                None => None,
            },
            None => None,
        },
        typed::Expr::Struct(t, fs) => {
            let ghost all = efields_v(fs@);
            let ghost fs0 = fs;
            let n = fs.len();
            let mut rest = fs;
            let mut out: Vec<(String, MaybeType, Expr)> = Vec::new();
            let mut k: usize = 0;
            proof {
                assert(all.subrange(0, 0) =~= Seq::<(Seq<char>, Option<TypeV>, ExprV)>::empty());
                assert(pfields_v(out@) =~= Seq::<(Seq<char>, Option<TypeV>, PlainV)>::empty());
            }
            while k < n
                invariant
                    ee == typed::Expr::Struct(t, fs0),
                    ee == e,
                    ev(ee) == ExprV::Struct(otv(t), all),
                    all == efields_v(fs0@),
                    n == fs0.len(),
                    k <= n,
                    rest@ == fs0@.subrange(k as int, n as int),
                    plain_fields(all.subrange(0, k as int)) == Some(pfields_v(out@)),
                decreases n - k,
            {
                let x = rest.remove(0);
                proof {
                    assert(x == fs0@[k as int]);
                    assert(decreases_to!(ee => ee->Struct_1));
                    vstd::std_specs::vec::axiom_vec_index_decreases(fs0, k as int);
                    assert(decreases_to!(fs0@[k as int] => fs0@[k as int].2));
                    assert(decreases_to!(e => x.2));
                    lemma_plain_fields_step(all, k as int);
                }
                let (name, ft, fe) = x;
                match into_plain(fe) {
                    Some(p) => {
                        let ghost before = pfields_v(out@);
                        let ghost gx = (name, ft, p);
                        out.push((name, ft, p));
                        proof {
                            assert(pfields_v(out@) =~= before.push((gx.0@, otv(gx.1), plv(gx.2))));
                            assert(rest@ =~= fs0@.subrange(k + 1, n as int));
                        }
                    },
                    None => {
                        proof {
                            lemma_plain_fields_prefix(all, k + 1);
                        }
                        return None;
                    },
                }
                k = k + 1;
            }
            let r = Expr::Struct(t, out);
            proof {
                assert(all.subrange(0, n as int) =~= all);
                lemma_plain_views(r);
            }
            Some(r)
        },
        typed::Expr::Match(t, h, cs) => {
            let head = match into_plain(*h) {
                Some(x) => x,
                None => {
                    return None;
                },
            };
            let ghost all = ecases_v(cs@);
            let ghost cs0 = cs;
            let n = cs.len();
            let mut rest = cs;
            let mut out: Vec<(Expr, Expr)> = Vec::new();
            let mut k: usize = 0;
            proof {
                assert(all.subrange(0, 0) =~= Seq::<(ExprV, ExprV)>::empty());
                assert(pcases_v(out@) =~= Seq::<(PlainV, PlainV)>::empty());
            }
            while k < n
                invariant
                    ee == typed::Expr::Match(t, h, cs0),
                    ee == e,
                    ev(ee) == ExprV::Match(otv(t), Box::new(ev(*h)), all),
                    plain(ev(*h)) == Some(plv(head)),
                    all == ecases_v(cs0@),
                    n == cs0.len(),
                    k <= n,
                    rest@ == cs0@.subrange(k as int, n as int),
                    plain_cases(all.subrange(0, k as int)) == Some(pcases_v(out@)),
                decreases n - k,
            {
                let x = rest.remove(0);
                proof {
                    assert(x == cs0@[k as int]);
                    assert(decreases_to!(ee => ee->Match_2));
                    vstd::std_specs::vec::axiom_vec_index_decreases(cs0, k as int);
                    assert(decreases_to!(cs0@[k as int] => cs0@[k as int].0));
                    assert(decreases_to!(cs0@[k as int] => cs0@[k as int].1));
                    assert(decreases_to!(e => x.0));
                    assert(decreases_to!(e => x.1));
                    lemma_plain_cases_step(all, k as int);
                }
                let (ce, te) = x;
                let a = into_plain(ce);
                let b = into_plain(te);
                match (a, b) {
                    (Some(a), Some(b)) => {
                        let ghost before = pcases_v(out@);
                        let ghost gx = (a, b);
                        out.push((a, b));
                        proof {
                            assert(pcases_v(out@) =~= before.push((plv(gx.0), plv(gx.1))));
                            assert(rest@ =~= cs0@.subrange(k + 1, n as int));
                        }
                    },
                    _ => {
                        proof {
                            lemma_plain_cases_prefix(all, k + 1);
                        }
                        return None;
                    },
                }
                k = k + 1;
            }
            let r = Expr::Match(t, Box::new(head), out);
            proof {
                assert(all.subrange(0, n as int) =~= all);
                lemma_plain_views(r);
            }
            Some(r)
        },
        typed::Expr::Let(t, _, n, at, ae, b) => {
            let x = into_plain(*ae);
            let y = into_plain(*b);
            match (x, y) {
                (Some(x), Some(y)) => Some(Expr::Let(t, n, at, Box::new(x), Box::new(y))),
                _ => None,
            }
        },
    }
}

/// The expression the tokens stand for, in the first parser's form.
pub open spec fn spec_parse_plain(toks: Seq<OutV>) -> Option<PlainV> {
    match spec_parse_expr(toks) {
        Some(e) => plain(e),
        None => None,
    }
}

/// Parses an expression from its tokens into the first parser's form.
pub fn parse_expr(seq: Vec<Out>) -> (r: MaybeExpr)
    ensures
        oplv(r) == spec_parse_plain(outs_view(seq@)),
{
    match typed::parse_expr(seq) {
        Some(e) => into_plain(e),
        None => None,
    }
}

} // verus!
