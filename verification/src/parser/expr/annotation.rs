use vstd::prelude::*;

use crate::parser::expr::typed::{ecases_v, efields_v, ev, lemma_expr_views, Expr, ExprV, StructField};
use crate::parser::types::{otv, Type, TypeV};

verus! {

/// The type annotation of an expression.
pub open spec fn annot_of(e: ExprV) -> Option<TypeV> {
    match e {
        ExprV::Unit(t) => t,
        ExprV::Int(t, _) => t,
        ExprV::EnvRef(t, _) => t,
        ExprV::Closure(t, _, _, _) => t,
        ExprV::Struct(t, _) => t,
        ExprV::Discard(t) => t,
        ExprV::Cond(t, _, _, _) => t,
        ExprV::Match(t, _, _) => t,
        ExprV::Apply(t, _, _) => t,
        ExprV::Let(t, _, _, _, _, _) => t,
    }
}

/// The expression with its annotation replaced by `t`.
pub open spec fn set_annot(e: ExprV, t: TypeV) -> ExprV {
    let a = Some(t);
    match e {
        ExprV::Unit(_) => ExprV::Unit(a),
        ExprV::Int(_, i) => ExprV::Int(a, i),
        ExprV::EnvRef(_, n) => ExprV::EnvRef(a, n),
        ExprV::Closure(_, n, it, o) => ExprV::Closure(a, n, it, o),
        ExprV::Struct(_, v) => ExprV::Struct(a, v),
        ExprV::Discard(_) => ExprV::Discard(a),
        ExprV::Cond(_, x, y, z) => ExprV::Cond(a, x, y, z),
        ExprV::Match(_, x, v) => ExprV::Match(a, x, v),
        ExprV::Apply(_, l, r) => ExprV::Apply(a, l, r),
        ExprV::Let(_, r, n, at, ae, b) => ExprV::Let(a, r, n, at, ae, b),
    }
}

/// An expression without annotation gets the annotation `t`; an annotated
/// one stays as it is.
pub open spec fn fallback_v(e: ExprV, t: TypeV) -> ExprV {
    if annot_of(e) is None {
        set_annot(e, t)
    } else {
        e
    }
}

/// The expression and every expression inside it carry an annotation, and
/// so do the parameter of each closure, each `let` binding and each
/// structure field.
pub open spec fn fully_typed(e: ExprV) -> bool
    decreases e,
{
    match e {
        ExprV::Unit(t) => t is Some,
        ExprV::Int(t, _) => t is Some,
        ExprV::EnvRef(t, _) => t is Some,
        ExprV::Discard(t) => t is Some,
        ExprV::Apply(t, l, r) => t is Some && fully_typed(*l) && fully_typed(*r),
        ExprV::Cond(t, a, b, c) => t is Some && fully_typed(*a) && fully_typed(*b) && fully_typed(*c),
        ExprV::Closure(t, _, it, o) => t is Some && it is Some && fully_typed(*o),
        ExprV::Struct(t, v) => t is Some && fields_typed(v),
        ExprV::Match(t, x, v) => t is Some && fully_typed(*x) && cases_typed(v),
        ExprV::Let(t, _, _, at, ae, b) => t is Some && at is Some && fully_typed(*ae) && fully_typed(*b),
    }
}

pub open spec fn fields_typed(v: Seq<(Seq<char>, Option<TypeV>, ExprV)>) -> bool
    decreases v,
{
    if v.len() == 0 {
        true
    } else {
        proof {
            assert(decreases_to!(v => v[v.len() - 1]));
        }
        fields_typed(v.drop_last()) && v[v.len() - 1].1 is Some && fully_typed(v[v.len() - 1].2)
    }
}

pub open spec fn cases_typed(v: Seq<(ExprV, ExprV)>) -> bool
    decreases v,
{
    if v.len() == 0 {
        true
    } else {
        proof {
            assert(decreases_to!(v => v[v.len() - 1]));
        }
        cases_typed(v.drop_last()) && fully_typed(v[v.len() - 1].0) && fully_typed(v[v.len() - 1].1)
    }
}

pub proof fn lemma_fields_typed_step(v: Seq<(Seq<char>, Option<TypeV>, ExprV)>, k: int)
    requires
        0 <= k < v.len(),
    ensures
        fields_typed(v.subrange(0, k + 1)) == (fields_typed(v.subrange(0, k)) && v[k].1 is Some && fully_typed(v[k].2)),
{
    assert(v.subrange(0, k + 1).drop_last() =~= v.subrange(0, k));
}

pub proof fn lemma_fields_typed_prefix(v: Seq<(Seq<char>, Option<TypeV>, ExprV)>, k: int)
    requires
        0 <= k <= v.len(),
        !fields_typed(v.subrange(0, k)),
    ensures
        !fields_typed(v),
    decreases v.len() - k,
{
    if k < v.len() {
        lemma_fields_typed_step(v, k);
        lemma_fields_typed_prefix(v, k + 1);
    } else {
        assert(v.subrange(0, k) =~= v);
    }
}

pub proof fn lemma_cases_typed_step(v: Seq<(ExprV, ExprV)>, k: int)
    requires
        0 <= k < v.len(),
    ensures
        cases_typed(v.subrange(0, k + 1)) == (cases_typed(v.subrange(0, k)) && fully_typed(v[k].0) && fully_typed(v[k].1)),
{
    assert(v.subrange(0, k + 1).drop_last() =~= v.subrange(0, k));
}

pub proof fn lemma_cases_typed_prefix(v: Seq<(ExprV, ExprV)>, k: int)
    requires
        0 <= k <= v.len(),
        !cases_typed(v.subrange(0, k)),
    ensures
        !cases_typed(v),
    decreases v.len() - k,
{
    if k < v.len() {
        lemma_cases_typed_step(v, k);
        lemma_cases_typed_prefix(v, k + 1);
    } else {
        assert(v.subrange(0, k) =~= v);
    }
}

fn clone_annot(t: &Option<Type>) -> (r: Option<Type>)
    ensures
        otv(r) == otv(*t),
{
    match t {
        Some(t) => Some(t.deep_clone()),
        None => None,
    }
}

impl Expr {
    /// A copy of the expression with the same value.
    pub fn deep_clone(&self) -> (r: Expr)
        ensures
            r@ == self@,
        decreases self,
    {
        proof {
            lemma_expr_views(*self);
        }
        match self {
            Expr::Unit(t) => Expr::Unit(clone_annot(t)),
            Expr::Int(t, i) => Expr::Int(clone_annot(t), *i),
            Expr::EnvRef(t, n) => Expr::EnvRef(clone_annot(t), n.clone()),
            Expr::Closure(t, n, it, o) => {
                let n2 = match n {
                    Some(s) => Some(s.clone()),
                    None => None,
                };
                proof {
                    assert(decreases_to!(*self => (*self)->Closure_3));
                }
                Expr::Closure(clone_annot(t), n2, clone_annot(it), Box::new(o.deep_clone()))
            },
            Expr::Struct(t, v) => {
                let mut out: Vec<StructField> = Vec::new();
                let mut k: usize = 0;
                while k < v.len()
                    invariant
                        *self == Expr::Struct(*t, *v),
                        k <= v.len(),
                        out@.len() == k,
                        efields_v(out@) == efields_v(v@).subrange(0, k as int),
                    decreases v.len() - k,
                {
                    proof {
                        assert(decreases_to!(*self => (*self)->Struct_1));
                        vstd::std_specs::vec::axiom_vec_index_decreases(*v, k as int);
                        assert(decreases_to!(v@[k as int] => v@[k as int].2));
                    }
                    let e = v[k].2.deep_clone();
                    let f = (v[k].0.clone(), clone_annot(&v[k].1), e);
                    let ghost before = out@;
                    let ghost gf = f;
                    out.push(f);
                    proof {
                        assert(out@ == before.push(gf));
                        assert(efields_v(out@)[k as int] == efields_v(v@)[k as int]);
                        assert(efields_v(out@) =~= efields_v(v@).subrange(0, k + 1));
                    }
                    k = k + 1;
                }
                let r = Expr::Struct(clone_annot(t), out);
                proof {
                    assert(efields_v(v@).subrange(0, v.len() as int) =~= efields_v(v@));
                    lemma_expr_views(r);
                }
                r
            },
            Expr::Discard(t) => Expr::Discard(clone_annot(t)),
            Expr::Cond(t, a, b, c) => {
                proof {
                    assert(decreases_to!(*self => (*self)->Cond_1));
                    assert(decreases_to!(*self => (*self)->Cond_2));
                    assert(decreases_to!(*self => (*self)->Cond_3));
                }
                Expr::Cond(clone_annot(t), Box::new(a.deep_clone()), Box::new(b.deep_clone()), Box::new(c.deep_clone()))
            },
            Expr::Match(t, x, v) => {
                proof {
                    assert(decreases_to!(*self => (*self)->Match_1));
                }
                let head = x.deep_clone();
                let mut out: Vec<(Expr, Expr)> = Vec::new();
                let mut k: usize = 0;
                while k < v.len()
                    invariant
                        *self == Expr::Match(*t, *x, *v),
                        k <= v.len(),
                        out@.len() == k,
                        ecases_v(out@) == ecases_v(v@).subrange(0, k as int),
                    decreases v.len() - k,
                {
                    proof {
                        assert(decreases_to!(*self => (*self)->Match_2));
                        vstd::std_specs::vec::axiom_vec_index_decreases(*v, k as int);
                        assert(decreases_to!(v@[k as int] => v@[k as int].0));
                        assert(decreases_to!(v@[k as int] => v@[k as int].1));
                    }
                    let a = v[k].0.deep_clone();
                    let b = v[k].1.deep_clone();
                    let ghost before = out@;
                    let ghost gf = (a, b);
                    out.push((a, b));
                    proof {
                        assert(out@ == before.push(gf));
                        assert(ecases_v(out@)[k as int] == ecases_v(v@)[k as int]);
                        assert(ecases_v(out@) =~= ecases_v(v@).subrange(0, k + 1));
                    }
                    k = k + 1;
                }
                let r = Expr::Match(clone_annot(t), Box::new(head), out);
                proof {
                    assert(ecases_v(v@).subrange(0, v.len() as int) =~= ecases_v(v@));
                    lemma_expr_views(r);
                }
                r
            },
            Expr::Apply(t, l, r) => {
                proof {
                    assert(decreases_to!(*self => (*self)->Apply_1));
                    assert(decreases_to!(*self => (*self)->Apply_2));
                }
                Expr::Apply(clone_annot(t), Box::new(l.deep_clone()), Box::new(r.deep_clone()))
            },
            Expr::Let(t, rec, n, at, ae, b) => {
                proof {
                    assert(decreases_to!(*self => (*self)->Let_4));
                    assert(decreases_to!(*self => (*self)->Let_5));
                }
                Expr::Let(
                    clone_annot(t),
                    *rec,
                    n.clone(),
                    clone_annot(at),
                    Box::new(ae.deep_clone()),
                    Box::new(b.deep_clone()),
                )
            },
        }
    }
}

impl Expr {
    /// The expression annotated with `ty` if it has no annotation yet;
    /// otherwise a copy of it.
    pub fn with_fallback_type(&self, ty: &Type) -> (r: Expr)
        ensures
            r@ == fallback_v(self@, ty@),
    {
        proof {
            lemma_expr_views(*self);
        }
        let a = Some(ty.deep_clone());
        match self {
            Expr::Unit(None) => Expr::Unit(a),
            Expr::Int(None, i) => Expr::Int(a, *i),
            Expr::EnvRef(None, n) => Expr::EnvRef(a, n.clone()),
            Expr::Apply(None, l, r) => Expr::Apply(a, Box::new(l.deep_clone()), Box::new(r.deep_clone())),
            Expr::Cond(None, b, t, e) => Expr::Cond(
                a,
                Box::new(b.deep_clone()),
                Box::new(t.deep_clone()),
                Box::new(e.deep_clone()),
            ),
            Expr::Closure(None, n, it, o) => {
                let n2 = match n {
                    Some(s) => Some(s.clone()),
                    None => None,
                };
                Expr::Closure(a, n2, clone_annot(it), Box::new(o.deep_clone()))
            },
            Expr::Struct(None, _) | Expr::Match(None, _, _) => {
                let c = self.deep_clone();
                proof {
                    lemma_expr_views(c);
                }
                match c {
                    Expr::Struct(_, v) => {
                        let r = Expr::Struct(a, v);
                        proof {
                            lemma_expr_views(r);
                        }
                        r
                    },
                    Expr::Match(_, x, v) => {
                        let r = Expr::Match(a, x, v);
                        proof {
                            lemma_expr_views(r);
                        }
                        r
                    },
                    other => other,  // ruled out by the test above
                }
            },
            Expr::Discard(None) => Expr::Discard(a),
            Expr::Let(None, rec, n, at, ae, b) => Expr::Let(
                a,
                *rec,
                n.clone(),
                clone_annot(at),
                Box::new(ae.deep_clone()),
                Box::new(b.deep_clone()),
            ),
            _ => self.deep_clone(),
        }
    }

    /// `with_fallback_type` when a type is given; otherwise a copy of the
    /// expression.
    pub fn with_opt_fallback_type(&self, ty: &Option<Type>) -> (r: Expr)
        ensures
            r@ == match otv(*ty) {
                Some(t) => fallback_v(self@, t),
                None => self@,
            },
    {
        match ty {
            Some(t) => self.with_fallback_type(t),
            None => self.deep_clone(),
        }
    }

    /// Whether the expression has no type annotation.
    pub fn is_no_type_annot(&self) -> (r: bool)
        ensures
            r == (annot_of(self@) is None),
    {
        match self {
            Expr::Unit(None) | Expr::Int(None, ..) | Expr::EnvRef(None, ..) | Expr::Apply(None, ..) | Expr::Cond(
                None,
                ..,
            ) | Expr::Closure(None, ..) | Expr::Struct(None, ..) | Expr::Discard(None) | Expr::Match(None, ..)
            | Expr::Let(None, ..) => true,
            _ => false,
        }
    }

    /// Whether the expression, and everything inside it, is annotated.
    pub fn is_fully_typed(&self) -> (r: bool)
        ensures
            r == fully_typed(self@),
        decreases self,
    {
        proof {
            lemma_expr_views(*self);
        }
        match self {
            Expr::Unit(Some(_)) | Expr::Int(Some(_), ..) | Expr::EnvRef(Some(_), ..) | Expr::Discard(Some(_)) => true,
            Expr::Apply(Some(_), l, r) => {
                proof {
                    assert(decreases_to!(*self => (*self)->Apply_1));
                    assert(decreases_to!(*self => (*self)->Apply_2));
                }
                l.is_fully_typed() && r.is_fully_typed()
            },
            Expr::Cond(Some(_), b, t, e) => {
                proof {
                    assert(decreases_to!(*self => (*self)->Cond_1));
                    assert(decreases_to!(*self => (*self)->Cond_2));
                    assert(decreases_to!(*self => (*self)->Cond_3));
                }
                b.is_fully_typed() && t.is_fully_typed() && e.is_fully_typed()
            },
            Expr::Closure(Some(_), _, Some(_), o) => {
                proof {
                    assert(decreases_to!(*self => (*self)->Closure_3));
                }
                o.is_fully_typed()
            },
            Expr::Struct(Some(_), v) => {
                let ghost all = efields_v(v@);
                let mut k: usize = 0;
                proof {
                    assert(all.subrange(0, 0) =~= Seq::<(Seq<char>, Option<TypeV>, ExprV)>::empty());
                }
                while k < v.len()
                    invariant
                        (*self) matches Expr::Struct(Some(_), w) && w == *v,
                        all == efields_v(v@),
                        ev(*self) == ExprV::Struct(ev(*self)->Struct_0, all),
                        ev(*self)->Struct_0 is Some,
                        k <= v.len(),
                        fields_typed(all.subrange(0, k as int)),
                    decreases v.len() - k,
                {
                    proof {
                        assert(decreases_to!(*self => (*self)->Struct_1));
                        vstd::std_specs::vec::axiom_vec_index_decreases(*v, k as int);
                        assert(decreases_to!(v@[k as int] => v@[k as int].2));
                        lemma_fields_typed_step(all, k as int);
                    }
                    let ok = v[k].1.is_some() && v[k].2.is_fully_typed();
                    if !ok {
                        proof {
                            lemma_fields_typed_prefix(all, k + 1);
                        }
                        return false;
                    }
                    k = k + 1;
                }
                proof {
                    assert(all.subrange(0, v.len() as int) =~= all);
                }
                true
            },
            Expr::Match(Some(_), x, v) => {
                proof {
                    assert(decreases_to!(*self => (*self)->Match_1));
                }
                if !x.is_fully_typed() {
                    return false;
                }
                let ghost all = ecases_v(v@);
                let mut k: usize = 0;
                proof {
                    assert(all.subrange(0, 0) =~= Seq::<(ExprV, ExprV)>::empty());
                }
                while k < v.len()
                    invariant
                        (*self) matches Expr::Match(Some(_), _, w) && w == *v,
                        all == ecases_v(v@),
                        ev(*self) == ExprV::Match(ev(*self)->Match_0, ev(*self)->Match_1, all),
                        ev(*self)->Match_0 is Some,
                        fully_typed(*ev(*self)->Match_1),
                        k <= v.len(),
                        cases_typed(all.subrange(0, k as int)),
                    decreases v.len() - k,
                {
                    proof {
                        assert(decreases_to!(*self => (*self)->Match_2));
                        vstd::std_specs::vec::axiom_vec_index_decreases(*v, k as int);
                        assert(decreases_to!(v@[k as int] => v@[k as int].0));
                        assert(decreases_to!(v@[k as int] => v@[k as int].1));
                        lemma_cases_typed_step(all, k as int);
                    }
                    let ok = v[k].0.is_fully_typed() && v[k].1.is_fully_typed();
                    if !ok {
                        proof {
                            lemma_cases_typed_prefix(all, k + 1);
                        }
                        return false;
                    }
                    k = k + 1;
                }
                proof {
                    assert(all.subrange(0, v.len() as int) =~= all);
                }
                true
            },
            Expr::Let(Some(_), _, _, Some(_), ae, b) => {
                proof {
                    assert(decreases_to!(*self => (*self)->Let_4));
                    assert(decreases_to!(*self => (*self)->Let_5));
                }
                ae.is_fully_typed() && b.is_fully_typed()
            },
            _ => false,
        }
    }

    /// The type annotation of the expression, if it has one.
    pub fn get_type_annot(&self) -> (r: Option<&Type>)
        ensures
            match r {
                Some(t) => annot_of(self@) == Some(t@),
                None => annot_of(self@) is None,
            },
    {
        match self {
            Expr::Unit(Some(t)) => Some(t),
            Expr::Int(Some(t), ..) => Some(t),
            Expr::EnvRef(Some(t), ..) => Some(t),
            Expr::Apply(Some(t), ..) => Some(t),
            Expr::Cond(Some(t), ..) => Some(t),
            Expr::Closure(Some(t), ..) => Some(t),
            Expr::Struct(Some(t), ..) => Some(t),
            Expr::Discard(Some(t)) => Some(t),
            Expr::Match(Some(t), ..) => Some(t),
            Expr::Let(Some(t), ..) => Some(t),
            _ => None,
        }
    }

    /// The type annotation of an expression that has one.
    pub fn unwrap_type_annot(&self) -> (r: &Type)
        requires
            annot_of(self@) is Some,
        ensures
            annot_of(self@) == Some(r@),
    {
        self.get_type_annot().unwrap()
    }
}

/// An expression given a fallback type is annotated: with its own type
/// when it had one, else with the fallback.
pub proof fn law_fallback_annotates(e: ExprV, t: TypeV)
    ensures
        annot_of(fallback_v(e, t)) == (if annot_of(e) is Some { annot_of(e) } else { Some(t) }),
{
}

/// A second fallback type changes nothing.
pub proof fn law_fallback_idempotent(e: ExprV, t1: TypeV, t2: TypeV)
    ensures
        fallback_v(fallback_v(e, t1), t2) == fallback_v(e, t1),
{
}

/// A fallback type only touches the annotation: the expression with its
/// annotation set again to the same type is unchanged.
pub proof fn law_fallback_keeps_rest(e: ExprV, t: TypeV, u: TypeV)
    ensures
        set_annot(fallback_v(e, t), u) == set_annot(e, u),
{
}

/// A fully typed expression has a type annotation.
pub proof fn law_fully_typed_is_annotated(e: ExprV)
    requires
        fully_typed(e),
    ensures
        annot_of(e) is Some,
{
}

/// The expressions directly inside an expression.
pub open spec fn children(e: ExprV) -> Seq<ExprV> {
    match e {
        ExprV::Apply(_, l, r) => seq![*l, *r],
        ExprV::Cond(_, a, b, c) => seq![*a, *b, *c],
        ExprV::Closure(_, _, _, o) => seq![*o],
        ExprV::Struct(_, fs) => Seq::new(fs.len(), |i: int| fs[i].2),
        ExprV::Match(_, x, cs) => seq![*x] + Seq::new(cs.len(), |i: int| cs[i].0) + Seq::new(cs.len(), |i: int| cs[i].1),
        ExprV::Let(_, _, _, _, ae, b) => seq![*ae, *b],
        _ => Seq::empty(),
    }
}

/// The annotations an expression holds besides its own: the parameter of
/// a closure, the bound name of a `let`, and the fields of a structure.
pub open spec fn inner_annots(e: ExprV) -> bool {
    match e {
        ExprV::Closure(_, _, it, _) => it is Some,
        ExprV::Let(_, _, _, at, _, _) => at is Some,
        ExprV::Struct(_, fs) => forall|i: int| 0 <= i < fs.len() ==> (#[trigger] fs[i]).1 is Some,
        _ => true,
    }
}

proof fn lemma_fields_typed_all(v: Seq<(Seq<char>, Option<TypeV>, ExprV)>)
    ensures
        fields_typed(v) <==> forall|i: int| 0 <= i < v.len() ==> (#[trigger] v[i]).1 is Some && fully_typed(v[i].2),
    decreases v.len(),
{
    if v.len() > 0 {
        let w = v.drop_last();
        lemma_fields_typed_all(w);
        assert forall|i: int| 0 <= i < w.len() implies w[i] == v[i] by {}
        if forall|i: int| 0 <= i < v.len() ==> (#[trigger] v[i]).1 is Some && fully_typed(v[i].2) {
            assert forall|i: int| 0 <= i < w.len() implies (#[trigger] w[i]).1 is Some && fully_typed(w[i].2) by {
                assert(w[i] == v[i]);
            }
            assert(v[v.len() - 1].1 is Some);
        }
        if fields_typed(v) {
            assert forall|i: int| 0 <= i < v.len() implies (#[trigger] v[i]).1 is Some && fully_typed(v[i].2) by {
                if i < w.len() {
                    assert(w[i] == v[i]);
                }
            }
        }
    }
}

proof fn lemma_cases_typed_all(v: Seq<(ExprV, ExprV)>)
    ensures
        cases_typed(v) <==> forall|i: int| 0 <= i < v.len() ==> fully_typed((#[trigger] v[i]).0) && fully_typed(v[i].1),
    decreases v.len(),
{
    if v.len() > 0 {
        let w = v.drop_last();
        lemma_cases_typed_all(w);
        if forall|i: int| 0 <= i < v.len() ==> fully_typed((#[trigger] v[i]).0) && fully_typed(v[i].1) {
            assert forall|i: int| 0 <= i < w.len() implies fully_typed((#[trigger] w[i]).0) && fully_typed(w[i].1) by {
                assert(w[i] == v[i]);
            }
            assert(fully_typed(v[v.len() - 1].0));
        }
        if cases_typed(v) {
            assert forall|i: int| 0 <= i < v.len() implies fully_typed((#[trigger] v[i]).0) && fully_typed(v[i].1) by {
                if i < w.len() {
                    assert(w[i] == v[i]);
                }
            }
        }
    }
}

/// An expression is fully typed exactly when it carries its own
/// annotation, the annotations of its parameter, bound name or fields,
/// and every expression directly inside it is fully typed.
pub proof fn law_fully_typed_parts(e: ExprV)
    ensures
        fully_typed(e) <==> annot_of(e) is Some && inner_annots(e) && forall|i: int|
            0 <= i < children(e).len() ==> fully_typed(#[trigger] children(e)[i]),
{
    let ch = children(e);
    match e {
        ExprV::Apply(_, l, r) => {
            assert(ch[0] == *l && ch[1] == *r);
        },
        ExprV::Cond(_, a, b, c) => {
            assert(ch[0] == *a && ch[1] == *b && ch[2] == *c);
        },
        ExprV::Closure(_, _, _, o) => {
            assert(ch[0] == *o);
        },
        ExprV::Let(_, _, _, _, ae, b) => {
            assert(ch[0] == *ae && ch[1] == *b);
        },
        ExprV::Struct(_, fs) => {
            lemma_fields_typed_all(fs);
            if annot_of(e) is Some && inner_annots(e) && forall|i: int| 0 <= i < ch.len() ==> fully_typed(#[trigger] ch[i]) {
                assert forall|i: int| 0 <= i < fs.len() implies (#[trigger] fs[i]).1 is Some && fully_typed(fs[i].2) by {
                    assert(ch[i] == fs[i].2);
                }
            }
            if fully_typed(e) {
                assert forall|i: int| 0 <= i < ch.len() implies fully_typed(#[trigger] ch[i]) by {
                    assert(ch[i] == fs[i].2);
                }
            }
        },
        ExprV::Match(_, x, cs) => {
            lemma_cases_typed_all(cs);
            let n = cs.len() as int;
            assert(ch.len() == 1 + 2 * n);
            assert(ch[0] == *x);
            assert forall|i: int| 0 <= i < n implies ch[1 + i] == (#[trigger] cs[i]).0 && ch[1 + n + i] == cs[i].1 by {}
            if annot_of(e) is Some && forall|i: int| 0 <= i < ch.len() ==> fully_typed(#[trigger] ch[i]) {
                assert(fully_typed(ch[0]));
                assert forall|i: int| 0 <= i < n implies fully_typed((#[trigger] cs[i]).0) && fully_typed(cs[i].1) by {
                    assert(fully_typed(ch[1 + i]));
                    assert(fully_typed(ch[1 + n + i]));
                }
            }
            if fully_typed(e) {
                assert forall|i: int| 0 <= i < ch.len() implies fully_typed(#[trigger] ch[i]) by {
                    if i == 0 {
                    } else if i < 1 + n {
                        assert(ch[i] == cs[i - 1].0);
                    } else {
                        assert(ch[i] == cs[i - 1 - n].1);
                    }
                }
            }
        },
        _ => {},
    }
}

impl Clone for Expr {
    fn clone(&self) -> (r: Self)
        ensures
            r@ == self@,
    {
        self.deep_clone()
    }
}

} // verus!
