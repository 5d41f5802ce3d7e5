use vstd::prelude::*;

use crate::parser::expr::pat::{ov, pv, OptBoxPat, OptPatV, Pat, PatV};
use crate::parser::expr::psum::{insert_alternative, union_alternatives};
use crate::parser::expr::rules::{at, drop_rec, typed_name, is_sym, let_chain, rules_a, rules_b, rules_c, rules_d, rules_e, rules_f, reduce_step, spec_reduce_stack, type_end, Step};
use crate::parser::expr::stack::{fail_stack, pop_top2, pop_top3, pop_top4, push_pat};
use crate::parser::expr::views::{assigns_v, cases_v, lemma_assigns_push, lemma_cases_push, lemma_named_push, named_v, lemma_stack_view, lemma_views_of_variants, pats_v, sfields_v};
use crate::parser::infra::option::Ext;
use crate::parser::keyword::Keyword;
use crate::parser::preprocess::{opt_out_view, Out};

verus! {

/// What one group of productions did to the stack.
#[derive(PartialEq, Eq, Debug, Clone, Copy, Structural)]
pub enum Outcome {
    /// No production of the group applies; the stack is unchanged.
    Skip,
    /// A production applied; reduction goes on.
    Again,
    /// Reduction stops with the stack as it is now.
    Stop,
}

/// The stack after a group of productions was tried, against its
/// specification `g` on the old stack.
pub open spec fn group_done(g: Option<Step>, r: Outcome, old_st: Seq<Pat>, new_st: Seq<Pat>) -> bool {
    match g {
        None => r == Outcome::Skip && new_st == old_st,
        Some(Step::Again(t)) => r == Outcome::Again && pats_v(new_st) == t && new_st.len() < old_st.len(),
        Some(Step::Stop(t)) => r == Outcome::Stop && pats_v(new_st) == t,
    }
}

pub fn type_end_exec(f: &Option<Out>) -> (r: bool)
    ensures
        r == type_end(opt_out_view(*f)),
{
    match f {
        None => true,
        Some(Out::Symbol(c)) => *c == ')' || *c == '}' || *c == ',' || *c == '=',
        Some(Out::Kw(_)) => true,
        _ => false,
    }
}

pub fn is_sym_exec(f: &Option<Out>, c: char) -> (r: bool)
    ensures
        r == is_sym(opt_out_view(*f), c),
{
    match f {
        Some(Out::Symbol(d)) => *d == c,
        _ => false,
    }
}

/// Success, parentheses, conditionals and closures.
pub fn reduce_a(st: &mut Vec<Pat>, f: &Option<Out>) -> (r: Outcome)
    ensures
        group_done(rules_a(pats_v(old(st)@), opt_out_view(*f)), r, old(st)@, final(st)@),
{
    let ghost s = pats_v(st@);
    let n = st.len();
    proof {
        lemma_stack_view(st@);
    }
    if n == 3 && matches!(st[0], Pat::Start) && matches!(st[2], Pat::End) && f.is_none() {
        let (_, p, _) = pop_top3(st);
        push_pat(st, p);
        proof {
            assert(pats_v(st@) =~= seq![s[1]]);
        }
        return Outcome::Stop;
    }
    if n >= 3 && matches!(st[n - 3], Pat::Mark('(')) && st[n - 2].is_expr() && matches!(st[n - 1], Pat::Mark(')')) {
        let (_, p, _) = pop_top3(st);
        push_pat(st, p);
        return Outcome::Again;
    }
    if n >= 6 && matches!(st[n - 6], Pat::Kw(Keyword::If)) && st[n - 5].is_expr() && matches!(st[n - 4], Pat::Kw(Keyword::Then))
        && st[n - 3].is_expr() && matches!(st[n - 2], Pat::Kw(Keyword::Else)) && st[n - 1].is_expr() && f.is_end_pat() {
        let (b, _, c) = pop_top3(st);
        let (_, a, _) = pop_top3(st);
        proof {
            assert(a@ == at(s, 5));
            assert(b@ == at(s, 3));
            assert(c@ == at(s, 1));
            assert(pats_v(st@) =~= s.subrange(0, n - 6));
        }
        let p = Pat::Cond(None, Box::new(a), Box::new(b), Box::new(c));
        push_pat(st, p);
        proof {
            assert(p@ == PatV::Cond(None, Box::new(at(s, 5)), Box::new(at(s, 3)), Box::new(at(s, 1))));
        }
        return Outcome::Again;
    }
    if n >= 2 && matches!(st[n - 2], Pat::Mark('-')) && matches!(st[n - 1], Pat::Mark('>')) {
        let _ = pop_top2(st);
        push_pat(st, Pat::Arrow);
        return Outcome::Again;
    }
    if n >= 2 && matches!(st[n - 2], Pat::Discard(_)) && matches!(st[n - 1], Pat::Arrow) {
        match pop_top2(st) {
            (Pat::Discard(t), _) => push_pat(st, Pat::ClosureInput(None, t)),
            _ => {},  // ruled out by the test above
        }
        return Outcome::Again;
    }
    if n >= 2 && matches!(st[n - 2], Pat::LetName(..)) && matches!(st[n - 1], Pat::Arrow) {
        match pop_top2(st) {
            (Pat::LetName(t, name), _) => push_pat(st, Pat::ClosureInput(Some(name), t)),
            _ => {},  // ruled out by the test above
        }
        return Outcome::Again;
    }
    if n >= 2 && matches!(st[n - 2], Pat::ClosureInput(..)) && st[n - 1].is_expr() && f.is_end_pat() {
        match pop_top2(st) {
            (Pat::ClosureInput(name, t), e) => push_pat(st, Pat::Closure(None, name, t, Box::new(e))),
            _ => {},  // ruled out by the test above
        }
        return Outcome::Again;
    }
    Outcome::Skip
}

/// The fields of a structure from its assignments.
pub fn assigns_to_fields(v: Vec<(bool, String, OptBoxPat, Pat)>) -> (r: Vec<(String, OptBoxPat, Pat)>)
    ensures
        sfields_v(r@) == drop_rec(assigns_v(v@)),
{
    let mut v = v;
    let ghost all = drop_rec(assigns_v(v@));
    let mut out: Vec<(String, OptBoxPat, Pat)> = Vec::new();
    proof {
        assert(sfields_v(out@) + drop_rec(assigns_v(v@)) =~= all);
    }
    while v.len() > 0
        invariant
            sfields_v(out@) + drop_rec(assigns_v(v@)) == all,
        decreases v.len(),
    {
        let ghost before = v@;
        let x = v.remove(0);
        proof {
            assert(drop_rec(assigns_v(before)) =~= seq![(x.1@, ov(x.2), pv(x.3))] + drop_rec(assigns_v(v@)));
        }
        let ghost out0 = out@;
        out.push((x.1, x.2, x.3));
        proof {
            assert(sfields_v(out@) =~= sfields_v(out0) + seq![(x.1@, ov(x.2), pv(x.3))]);
            assert(sfields_v(out@) + drop_rec(assigns_v(v@)) =~= all);
        }
    }
    proof {
        assert(drop_rec(assigns_v(v@)) =~= Seq::<(Seq<char>, OptPatV, PatV)>::empty());
        assert(sfields_v(out@) =~= all);
    }
    out
}

/// Field assignments and structures.
pub fn reduce_b(st: &mut Vec<Pat>, f: &Option<Out>) -> (r: Outcome)
    ensures
        group_done(rules_b(pats_v(old(st)@), opt_out_view(*f)), r, old(st)@, final(st)@),
{
    let ghost s = pats_v(st@);
    let n = st.len();
    proof {
        lemma_stack_view(st@);
    }
    if n >= 4 && matches!(st[n - 4], Pat::LetName(..)) && matches!(st[n - 3], Pat::Mark('=')) && st[n - 2].is_expr()
        && matches!(st[n - 1], Pat::Mark(',')) {
        match pop_top4(st) {
            (Pat::LetName(t, name), _, e, _) => push_pat(st, Pat::Assign(false, name, t, Box::new(e))),
            _ => {},  // ruled out by the test above
        }
        return Outcome::Again;
    }
    if n >= 3 && matches!(st[n - 3], Pat::LetName(..)) && matches!(st[n - 2], Pat::Mark('=')) && st[n - 1].is_expr()
        && is_sym_exec(f, '}') {
        match pop_top3(st) {
            (Pat::LetName(t, name), _, e) => push_pat(st, Pat::Assign(false, name, t, Box::new(e))),
            _ => {},  // ruled out by the test above
        }
        return Outcome::Again;
    }
    if n >= 2 && matches!(st[n - 2], Pat::Assign(..)) && matches!(st[n - 1], Pat::Assign(..)) {
        match pop_top2(st) {
            (Pat::Assign(ra, na, ta, ea), Pat::Assign(rb, nb, tb, eb)) => {
                let v = vec![(ra, na, ta, *ea), (rb, nb, tb, *eb)];
                let ghost vv = v@;
                let p = Pat::AssignSeq(v);
                proof {
                    lemma_views_of_variants(p);
                    assert(assigns_v(vv) =~= seq![
                        (vv[0].0, vv[0].1@, ov(vv[0].2), pv(vv[0].3)),
                        (vv[1].0, vv[1].1@, ov(vv[1].2), pv(vv[1].3)),
                    ]);
                }
                push_pat(st, p);
            },
            _ => {},  // ruled out by the test above
        }
        return Outcome::Again;
    }
    if n >= 2 && matches!(st[n - 2], Pat::AssignSeq(..)) && matches!(st[n - 1], Pat::Assign(..)) {
        match pop_top2(st) {
            (Pat::AssignSeq(v), Pat::Assign(rb, nb, tb, eb)) => {
                let ghost v0 = v@;
                proof {
                    lemma_views_of_variants(Pat::AssignSeq(v));
                }
                let mut v = v;
                let x = (rb, nb, tb, *eb);
                let ghost gx = x;
                v.push(x);
                let ghost vv = v@;
                let p = Pat::AssignSeq(v);
                proof {
                    lemma_views_of_variants(p);
                    lemma_assigns_push(v0, gx);
                }
                push_pat(st, p);
            },
            _ => {},  // ruled out by the test above
        }
        return Outcome::Again;
    }
    if n >= 3 && matches!(st[n - 3], Pat::Mark('{')) && matches!(st[n - 2], Pat::AssignSeq(..)) && matches!(st[n - 1], Pat::Mark('}')) {
        match pop_top3(st) {
            (_, Pat::AssignSeq(v), _) => {
                let ghost gv = v;
                proof {
                    lemma_views_of_variants(Pat::AssignSeq(gv));
                }
                let fields = assigns_to_fields(v);
                let p = Pat::Struct(None, fields);
                proof {
                    lemma_views_of_variants(p);
                }
                push_pat(st, p);
            },
            _ => {},  // ruled out by the test above
        }
        return Outcome::Again;
    }
    if n >= 3 && matches!(st[n - 3], Pat::Mark('{')) && matches!(st[n - 2], Pat::Assign(..)) && matches!(st[n - 1], Pat::Mark('}')) {
        match pop_top3(st) {
            (_, Pat::Assign(_, name, t, e), _) => {
                let v = vec![(name, t, *e)];
                let ghost vv = v@;
                let p = Pat::Struct(None, v);
                proof {
                    lemma_views_of_variants(p);
                    assert(sfields_v(vv) =~= seq![(vv[0].0@, ov(vv[0].1), pv(vv[0].2))]);
                }
                push_pat(st, p);
            },
            _ => {},  // ruled out by the test above
        }
        return Outcome::Again;
    }
    Outcome::Skip
}

/// Pattern matching.
pub fn reduce_c(st: &mut Vec<Pat>, f: &Option<Out>) -> (r: Outcome)
    ensures
        group_done(rules_c(pats_v(old(st)@), opt_out_view(*f)), r, old(st)@, final(st)@),
{
    let ghost s = pats_v(st@);
    let n = st.len();
    proof {
        lemma_stack_view(st@);
    }
    if n >= 3 && matches!(st[n - 3], Pat::Kw(Keyword::Match)) && st[n - 2].is_expr() && matches!(st[n - 1], Pat::Kw(Keyword::With)) {
        let (_, e, _) = pop_top3(st);
        push_pat(st, Pat::MatchHead(Box::new(e)));
        return Outcome::Again;
    }
    if n >= 2 && matches!(st[n - 2], Pat::Mark('|')) && st[n - 1].is_expr() && is_sym_exec(f, '-') {
        let (_, e) = pop_top2(st);
        push_pat(st, Pat::CaseHead(Box::new(e)));
        return Outcome::Again;
    }
    if n >= 3 && matches!(st[n - 3], Pat::CaseHead(..)) && matches!(st[n - 2], Pat::Arrow) && st[n - 1].is_expr()
        && f.is_end_pat() {
        match pop_top3(st) {
            (Pat::CaseHead(h), _, e) => push_pat(st, Pat::Case(h, Box::new(e))),
            _ => {},  // ruled out by the test above
        }
        return Outcome::Again;
    }
    if n >= 2 && matches!(st[n - 2], Pat::Case(..)) && matches!(st[n - 1], Pat::Case(..)) {
        match pop_top2(st) {
            (Pat::Case(ca, ta), Pat::Case(cb, tb)) => {
                let v = vec![(*ca, *ta), (*cb, *tb)];
                let ghost vv = v@;
                let p = Pat::CaseSeq(v);
                proof {
                    lemma_views_of_variants(p);
                    assert(cases_v(vv) =~= seq![(pv(vv[0].0), pv(vv[0].1)), (pv(vv[1].0), pv(vv[1].1))]);
                }
                push_pat(st, p);
            },
            _ => {},  // ruled out by the test above
        }
        return Outcome::Again;
    }
    if n >= 2 && matches!(st[n - 2], Pat::CaseSeq(..)) && matches!(st[n - 1], Pat::Case(..)) {
        match pop_top2(st) {
            (Pat::CaseSeq(v), Pat::Case(c, t)) => {
                let ghost v0 = v@;
                proof {
                    lemma_views_of_variants(Pat::CaseSeq(v));
                }
                let mut v = v;
                let x = (*c, *t);
                let ghost gx = x;
                v.push(x);
                let p = Pat::CaseSeq(v);
                proof {
                    lemma_views_of_variants(p);
                    lemma_cases_push(v0, gx);
                }
                push_pat(st, p);
            },
            _ => {},  // ruled out by the test above
        }
        return Outcome::Again;
    }
    if n >= 2 && matches!(st[n - 2], Pat::MatchHead(..)) && matches!(st[n - 1], Pat::Case(..)) && !is_sym_exec(f, '|') {
        match pop_top2(st) {
            (Pat::MatchHead(h), Pat::Case(c, t)) => {
                let v = vec![(*c, *t)];
                let ghost vv = v@;
                let p = Pat::Match(None, h, v);
                proof {
                    lemma_views_of_variants(p);
                    assert(cases_v(vv) =~= seq![(pv(vv[0].0), pv(vv[0].1))]);
                }
                push_pat(st, p);
            },
            _ => {},  // ruled out by the test above
        }
        return Outcome::Again;
    }
    if n >= 2 && matches!(st[n - 2], Pat::MatchHead(..)) && matches!(st[n - 1], Pat::CaseSeq(..)) && !is_sym_exec(f, '|') {
        match pop_top2(st) {
            (Pat::MatchHead(h), Pat::CaseSeq(v)) => {
                proof {
                    lemma_views_of_variants(Pat::CaseSeq(v));
                }
                let p = Pat::Match(None, h, v);
                proof {
                    lemma_views_of_variants(p);
                }
                push_pat(st, p);
            },
            _ => {},  // ruled out by the test above
        }
        return Outcome::Again;
    }
    Outcome::Skip
}

/// The chain of `let` bindings of `v` around `body`.
pub fn let_chain_exec(v: Vec<(bool, String, OptBoxPat, Pat)>, body: Pat) -> (r: Pat)
    ensures
        r@ == let_chain(assigns_v(v@), body@),
{
    let mut v = v;
    let mut acc = body;
    let ghost goal = let_chain(assigns_v(v@), body@);
    while v.len() > 0
        invariant
            let_chain(assigns_v(v@), acc@) == goal,
        decreases v.len(),
    {
        let ghost before = v@;
        let x = v.pop().unwrap();
        let ghost gx = x;
        let ghost acc0 = acc@;
        acc = Pat::Let(None, x.0, x.1, x.2, Box::new(x.3), Box::new(acc));
        proof {
            lemma_stack_view(Seq::<Pat>::empty());
            assert(assigns_v(before).drop_last() =~= assigns_v(v@));
            assert(acc@ == PatV::Let(None, gx.0, gx.1@, ov(gx.2), Box::new(pv(gx.3)), Box::new(acc0)));
        }
    }
    proof {
        assert(assigns_v(v@) =~= Seq::<(bool, Seq<char>, OptPatV, PatV)>::empty());
    }
    acc
}

/// Application, `let` bindings and the head of a type annotation.
pub fn reduce_d(st: &mut Vec<Pat>, f: &Option<Out>) -> (r: Outcome)
    ensures
        group_done(rules_d(pats_v(old(st)@), opt_out_view(*f)), r, old(st)@, final(st)@),
{
    let ghost s = pats_v(st@);
    let n = st.len();
    proof {
        lemma_stack_view(st@);
    }
    if n >= 2 && st[n - 2].is_expr() && st[n - 1].is_expr() {
        let (a, b) = pop_top2(st);
        push_pat(st, Pat::Apply(None, Box::new(a), Box::new(b)));
        return Outcome::Again;
    }
    if n >= 3 && matches!(st[n - 3], Pat::LetName(..)) && matches!(st[n - 2], Pat::Mark('=')) && st[n - 1].is_expr()
        && matches!(f, Some(Out::Kw(Keyword::In))) {
        match pop_top3(st) {
            (Pat::LetName(t, name), _, e) => push_pat(st, Pat::Assign(false, name, t, Box::new(e))),
            _ => {},  // ruled out by the test above
        }
        return Outcome::Again;
    }
    if n >= 4 && matches!(st[n - 4], Pat::Kw(Keyword::Let)) && matches!(st[n - 3], Pat::AssignSeq(..))
        && matches!(st[n - 2], Pat::Kw(Keyword::In)) && st[n - 1].is_expr() && f.is_end_pat() {
        match pop_top4(st) {
            (_, Pat::AssignSeq(v), _, e) => {
                proof {
                    lemma_views_of_variants(Pat::AssignSeq(v));
                }
                let p = let_chain_exec(v, e);
                push_pat(st, p);
            },
            _ => {},  // ruled out by the test above
        }
        return Outcome::Again;
    }
    if n >= 4 && matches!(st[n - 4], Pat::Kw(Keyword::Let)) && matches!(st[n - 3], Pat::Assign(..))
        && matches!(st[n - 2], Pat::Kw(Keyword::In)) && st[n - 1].is_expr() && f.is_end_pat() {
        match pop_top4(st) {
            (_, Pat::Assign(r, name, t, ae), _, e) => push_pat(st, Pat::Let(None, r, name, t, ae, Box::new(e))),
            _ => {},  // ruled out by the test above
        }
        return Outcome::Again;
    }
    if n >= 2 && st[n - 2].is_expr() && matches!(st[n - 1], Pat::Mark(':')) {
        let (e, _) = pop_top2(st);
        push_pat(st, Pat::TypedExprHead(Box::new(e)));
        return Outcome::Again;
    }
    if n >= 2 && matches!(st[n - 2], Pat::TypedExprHead(..)) && st[n - 1].is_type() && type_end_exec(f) {
        match pop_top2(st) {
            (Pat::TypedExprHead(h), t) => match (*h).with_type(t) {
                Some(e) => push_pat(st, e),
                None => {
                    fail_stack(st);
                    return Outcome::Stop;
                },
            },
            _ => {},  // ruled out by the test above
        }
        return Outcome::Again;
    }
    Outcome::Skip
}

/// Closure types and sum types.
pub fn reduce_e(st: &mut Vec<Pat>, f: &Option<Out>) -> (r: Outcome)
    ensures
        group_done(rules_e(pats_v(old(st)@), opt_out_view(*f)), r, old(st)@, final(st)@),
{
    let ghost s = pats_v(st@);
    let n = st.len();
    proof {
        lemma_stack_view(st@);
    }
    if n >= 3 && matches!(st[n - 3], Pat::Mark('(')) && st[n - 2].is_type() && matches!(st[n - 1], Pat::Mark(')')) {
        let (_, t, _) = pop_top3(st);
        push_pat(st, t);
        return Outcome::Again;
    }
    if n >= 2 && st[n - 2].is_type() && matches!(st[n - 1], Pat::Arrow) {
        let (t, _) = pop_top2(st);
        push_pat(st, Pat::ClosureTypeHead(Box::new(t)));
        return Outcome::Again;
    }
    if n >= 2 && matches!(st[n - 2], Pat::ClosureTypeHead(..)) && st[n - 1].is_type() && type_end_exec(f) {
        match pop_top2(st) {
            (Pat::ClosureTypeHead(i), o) => push_pat(st, Pat::ClosureType(i, Box::new(o))),
            _ => {},  // ruled out by the test above
        }
        return Outcome::Again;
    }
    if n >= 3 && matches!(st[n - 3], Pat::SumType(..)) && matches!(st[n - 2], Pat::Mark('|')) && matches!(st[n - 1], Pat::SumType(..)) {
        match pop_top3(st) {
            (Pat::SumType(a), _, Pat::SumType(b)) => {
                proof {
                    lemma_views_of_variants(Pat::SumType(a));
                    lemma_views_of_variants(Pat::SumType(b));
                }
                let p = Pat::SumType(union_alternatives(a, b));
                proof {
                    lemma_views_of_variants(p);
                }
                push_pat(st, p);
            },
            _ => {},  // ruled out by the test above
        }
        return Outcome::Again;
    }
    if n >= 3 && st[n - 3].is_type() && matches!(st[n - 2], Pat::Mark('|')) && matches!(st[n - 1], Pat::SumType(..)) {
        match pop_top3(st) {
            (t, _, Pat::SumType(v)) => {
                proof {
                    lemma_views_of_variants(Pat::SumType(v));
                }
                let p = Pat::SumType(insert_alternative(v, t));
                proof {
                    lemma_views_of_variants(p);
                }
                push_pat(st, p);
            },
            _ => {},  // ruled out by the test above
        }
        return Outcome::Again;
    }
    if n >= 3 && matches!(st[n - 3], Pat::SumType(..)) && matches!(st[n - 2], Pat::Mark('|')) && st[n - 1].is_type() {
        match pop_top3(st) {
            (Pat::SumType(v), _, t) => {
                proof {
                    lemma_views_of_variants(Pat::SumType(v));
                }
                let p = Pat::SumType(insert_alternative(v, t));
                proof {
                    lemma_views_of_variants(p);
                }
                push_pat(st, p);
            },
            _ => {},  // ruled out by the test above
        }
        return Outcome::Again;
    }
    if n >= 3 && st[n - 3].is_type() && matches!(st[n - 2], Pat::Mark('|')) && st[n - 1].is_type() {
        let (a, _, b) = pop_top3(st);
        let v = vec![a];
        let ghost vv = v@;
        proof {
            assert(pats_v(vv) =~= seq![pv(vv[0])]);
        }
        let p = Pat::SumType(insert_alternative(v, b));
        proof {
            lemma_views_of_variants(p);
        }
        push_pat(st, p);
        return Outcome::Again;
    }
    Outcome::Skip
}

/// A value name with a type annotation.
pub fn is_typed_name(p: &Pat) -> (r: bool)
    ensures
        r == typed_name(p@),
        r ==> *p matches Pat::LetName(Some(_), _),
{
    match p {
        Pat::LetName(Some(t), name) => {
            proof {
                assert(p@ == PatV::LetName(ov(Some(*t)), name@));
                assert(ov(Some(*t)) == Some(Box::new(pv(**t))));
            }
            true
        },
        Pat::LetName(None, name) => {
            proof {
                assert(p@ == PatV::LetName(ov(None), name@));
                assert(ov(None) == None::<Box<PatV>>);
            }
            false
        },
        _ => false,
    }
}

/// Product types.
pub fn reduce_f(st: &mut Vec<Pat>, f: &Option<Out>) -> (r: Outcome)
    ensures
        group_done(rules_f(pats_v(old(st)@), opt_out_view(*f)), r, old(st)@, final(st)@),
{
    let ghost s = pats_v(st@);
    let n = st.len();
    proof {
        lemma_stack_view(st@);
    }
    let ends = is_sym_exec(f, '}') || is_sym_exec(f, ',');
    if n >= 3 && is_typed_name(&st[n - 3]) && matches!(st[n - 2], Pat::Mark(','))
        && is_typed_name(&st[n - 1]) && ends {
        match pop_top3(st) {
            (Pat::LetName(Some(ta), na), _, Pat::LetName(Some(tb), nb)) => {
                proof {
                    assert(ov(Some(ta)) == Some(Box::new(pv(*ta))));
                    assert(ov(Some(tb)) == Some(Box::new(pv(*tb))));
                }
                let v = vec![(na, *ta), (nb, *tb)];
                let ghost vv = v@;
                let p = Pat::TypedLetNameSeq(v);
                proof {
                    lemma_views_of_variants(p);
                    assert(named_v(vv) =~= seq![(vv[0].0@, pv(vv[0].1)), (vv[1].0@, pv(vv[1].1))]);
                }
                push_pat(st, p);
            },
            _ => {},  // ruled out by the test above
        }
        return Outcome::Again;
    }
    if n >= 3 && matches!(st[n - 3], Pat::TypedLetNameSeq(..)) && matches!(st[n - 2], Pat::Mark(','))
        && is_typed_name(&st[n - 1]) && ends {
        match pop_top3(st) {
            (Pat::TypedLetNameSeq(v), _, Pat::LetName(Some(t), name)) => {
                let ghost v0 = v@;
                proof {
                    assert(ov(Some(t)) == Some(Box::new(pv(*t))));
                    lemma_views_of_variants(Pat::TypedLetNameSeq(v));
                }
                let mut v = v;
                let x = (name, *t);
                let ghost gx = x;
                v.push(x);
                let p = Pat::TypedLetNameSeq(v);
                proof {
                    lemma_views_of_variants(p);
                    lemma_named_push(v0, gx);
                }
                push_pat(st, p);
            },
            _ => {},  // ruled out by the test above
        }
        return Outcome::Again;
    }
    if n >= 3 && matches!(st[n - 3], Pat::Mark('{')) && matches!(st[n - 2], Pat::TypedLetNameSeq(..))
        && matches!(st[n - 1], Pat::Mark('}')) {
        match pop_top3(st) {
            (_, Pat::TypedLetNameSeq(v), _) => {
                proof {
                    lemma_views_of_variants(Pat::TypedLetNameSeq(v));
                }
                let p = Pat::ProdType(v);
                proof {
                    lemma_views_of_variants(p);
                }
                push_pat(st, p);
            },
            _ => {},  // ruled out by the test above
        }
        return Outcome::Again;
    }
    if n >= 4 && matches!(st[n - 4], Pat::Mark('{')) && matches!(st[n - 3], Pat::TypedLetNameSeq(..))
        && matches!(st[n - 2], Pat::Mark(',')) && matches!(st[n - 1], Pat::Mark('}')) {
        match pop_top4(st) {
            (_, Pat::TypedLetNameSeq(v), _, _) => {
                proof {
                    lemma_views_of_variants(Pat::TypedLetNameSeq(v));
                }
                let p = Pat::ProdType(v);
                proof {
                    lemma_views_of_variants(p);
                }
                push_pat(st, p);
            },
            _ => {},  // ruled out by the test above
        }
        return Outcome::Again;
    }
    if n >= 3 && matches!(st[n - 3], Pat::Mark('{')) && is_typed_name(&st[n - 2])
        && matches!(st[n - 1], Pat::Mark('}')) {
        match pop_top3(st) {
            (_, Pat::LetName(Some(t), name), _) => {
                proof {
                    assert(ov(Some(t)) == Some(Box::new(pv(*t))));
                }
                let v = vec![(name, *t)];
                let ghost vv = v@;
                let p = Pat::ProdType(v);
                proof {
                    lemma_views_of_variants(p);
                    assert(named_v(vv) =~= seq![(vv[0].0@, pv(vv[0].1))]);
                }
                push_pat(st, p);
            },
            _ => {},  // ruled out by the test above
        }
        return Outcome::Again;
    }
    if n >= 4 && matches!(st[n - 4], Pat::Mark('{')) && is_typed_name(&st[n - 3])
        && matches!(st[n - 2], Pat::Mark(',')) && matches!(st[n - 1], Pat::Mark('}')) {
        match pop_top4(st) {
            (_, Pat::LetName(Some(t), name), _, _) => {
                proof {
                    assert(ov(Some(t)) == Some(Box::new(pv(*t))));
                }
                let v = vec![(name, *t)];
                let ghost vv = v@;
                let p = Pat::ProdType(v);
                proof {
                    lemma_views_of_variants(p);
                    assert(named_v(vv) =~= seq![(vv[0].0@, pv(vv[0].1))]);
                }
                push_pat(st, p);
            },
            _ => {},  // ruled out by the test above
        }
        return Outcome::Again;
    }
    Outcome::Skip
}

/// One reduction step on the stack: `true` when a production applied and
/// reduction goes on, `false` when the parser stops with the stack as it
/// is now.
pub fn reduce_once(st: &mut Vec<Pat>, f: &Option<Out>) -> (again: bool)
    ensures
        again ==> reduce_step(pats_v(old(st)@), opt_out_view(*f)) == Step::Again(pats_v(final(st)@)),
        again ==> final(st)@.len() < old(st)@.len(),
        !again ==> reduce_step(pats_v(old(st)@), opt_out_view(*f)) == Step::Stop(pats_v(final(st)@)),
{
    let r = reduce_a(st, f);
    if r != Outcome::Skip {
        return r == Outcome::Again;
    }
    let r = reduce_b(st, f);
    if r != Outcome::Skip {
        return r == Outcome::Again;
    }
    let r = reduce_c(st, f);
    if r != Outcome::Skip {
        return r == Outcome::Again;
    }
    let r = reduce_d(st, f);
    if r != Outcome::Skip {
        return r == Outcome::Again;
    }
    let r = reduce_e(st, f);
    if r != Outcome::Skip {
        return r == Outcome::Again;
    }
    let r = reduce_f(st, f);
    if r != Outcome::Skip {
        return r == Outcome::Again;
    }
    let n = st.len();
    proof {
        lemma_stack_view(st@);
    }
    if n >= 1 && (matches!(st[n - 1], Pat::Fail) || matches!(st[n - 1], Pat::End)) {
        fail_stack(st);
    }
    false
}

/// Reduces the stack as far as the productions go, with the lookahead
/// token `f`.
pub fn reduce_stack(stack: Vec<Pat>, f: &Option<Out>) -> (r: Vec<Pat>)
    ensures
        pats_v(r@) == spec_reduce_stack(pats_v(stack@), opt_out_view(*f)),
{
    let mut st = stack;
    let ghost goal = spec_reduce_stack(pats_v(st@), opt_out_view(*f));
    loop
        invariant
            goal == spec_reduce_stack(pats_v(stack@), opt_out_view(*f)),
            spec_reduce_stack(pats_v(st@), opt_out_view(*f)) == goal,
        decreases st@.len(),
    {
        let ghost before = pats_v(st@);
        let again = reduce_once(&mut st, f);
        if !again {
            proof {
                assert(spec_reduce_stack(before, opt_out_view(*f)) == pats_v(st@));
            }
            return st;
        }
        proof {
            lemma_stack_view(st@);
        }
    }
}

} // verus!
