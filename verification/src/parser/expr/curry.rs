// Closures take one parameter each, and application groups to the left:
// `a -> b -> f x y` parses as `a -> (b -> (f x) y)`.  The proofs follow
// the parser over a run of atoms (numbers, names, `()`, `_`) above any
// stack whose top is no expression: each atom is applied to what stands
// before it, and nothing else happens until the run ends.

use vstd::prelude::*;

use crate::parser::expr::pat::{is_expr_v, PatV};
use crate::parser::expr::rules::{
    at, red, reduce_step, rules_a, rules_b, rules_c, rules_d, rules_e, rules_f, spec_reduce_stack, Step,
};
use crate::parser::expr::lr::{move_in_v, spec_go};
use crate::parser::expr::sugar::{atom, first};
use crate::parser::expr::group::{lemma_value, value_pat, value_toks};
use crate::parser::expr::typed::{pat_expr, spec_parse_expr};
use crate::parser::preprocess::OutV;

verus! {

pub open spec fn tok_pat(t: OutV) -> PatV {
    move_in_v(Some(t))
}

pub open spec fn all_atoms(c: Seq<OutV>) -> bool {
    forall|i: int| 0 <= i < c.len() ==> atom(#[trigger] c[i])
}

/// `acc` applied in turn to each of the atoms `c`.
pub open spec fn fold_apply(acc: PatV, c: Seq<OutV>) -> PatV
    decreases c.len(),
{
    if c.len() == 0 {
        acc
    } else {
        fold_apply(PatV::Apply(None, Box::new(acc), Box::new(tok_pat(c[0]))), c.drop_first())
    }
}

/// A run of atoms applied to its first one.
pub open spec fn apply_run(c: Seq<OutV>) -> PatV {
    fold_apply(tok_pat(c[0]), c.drop_first())
}

/// The parser after the last token of a run, with `rest` still to come.
pub open spec fn go_on(r: Seq<PatV>, rest: Seq<OutV>) -> PatV {
    if r.len() == 1 && rest.len() == 0 {
        r[0]
    } else {
        spec_go(r, rest)
    }
}

/// A stack whose top no atom joins on its own.
pub open spec fn open_top(p: Seq<PatV>) -> bool {
    &&& p.len() >= 1
    &&& !is_expr_v(p.last())
    &&& !(p.last() is Fail)
    &&& !(p.last() is End)
    &&& !(p.last() == PatV::Mark(')'))
}

proof fn lemma_atom_pat(t: OutV)
    requires
        atom(t),
    ensures
        is_expr_v(tok_pat(t)),
        tok_pat(t) is LetName ==> tok_pat(t)->LetName_0 is None,
        pat_expr(tok_pat(t)) is Some,
{
}

proof fn lemma_go_one(stack: Seq<PatV>, t: OutV, rest: Seq<OutV>)
    ensures
        spec_go(stack, seq![t] + rest) == go_on(spec_reduce_stack(stack.push(tok_pat(t)), first(rest)), rest),
{
    let toks = seq![t] + rest;
    assert(toks[0] == t);
    if rest.len() > 0 {
        assert(toks[1] == rest[0]);
    }
    assert(toks.drop_first() =~= rest);
}

proof fn lemma_stays(s: Seq<PatV>, f: Option<OutV>)
    requires
        s.len() >= 2,
        rules_a(s, f) is None,
        rules_b(s, f) is None,
        rules_c(s, f) is None,
        rules_d(s, f) is None,
        rules_e(s, f) is None,
        rules_f(s, f) is None,
        !(at(s, 1) is Fail),
        !(at(s, 1) is End),
    ensures
        spec_reduce_stack(s, f) == s,
{
}

/// An expression above an open top waits while an atom follows.
proof fn lemma_waits(p: Seq<PatV>, e: PatV, t: OutV)
    requires
        open_top(p),
        is_expr_v(e),
        atom(t),
    ensures
        spec_reduce_stack(p.push(e), Some(t)) == p.push(e),
{
    let s = p.push(e);
    assert(at(s, 1) == e);
    assert(at(s, 2) == p.last());
    lemma_stays(s, Some(t));
}

/// An expression and an atom above an open top become an application.
proof fn lemma_applies(p: Seq<PatV>, e: PatV, t: OutV, f: Option<OutV>)
    requires
        open_top(p),
        is_expr_v(e),
        atom(t),
    ensures
        spec_reduce_stack(p.push(e).push(tok_pat(t)), f) == spec_reduce_stack(
            p.push(PatV::Apply(None, Box::new(e), Box::new(tok_pat(t)))),
            f,
        ),
{
    lemma_atom_pat(t);
    let s = p.push(e).push(tok_pat(t));
    let app = PatV::Apply(None, Box::new(e), Box::new(tok_pat(t)));
    assert(at(s, 1) == tok_pat(t));
    assert(at(s, 2) == e);
    assert(red(s, 2, app) =~= p.push(app));
    assert(rules_a(s, f) is None);
    assert(rules_b(s, f) is None);
    assert(rules_c(s, f) is None);
    assert(reduce_step(s, f) == Step::Again(p.push(app)));
}

/// A run of atoms after an expression above an open top.
proof fn lemma_chain(p: Seq<PatV>, acc: PatV, c: Seq<OutV>, rest: Seq<OutV>)
    requires
        open_top(p),
        is_expr_v(acc),
        c.len() >= 1,
        all_atoms(c),
    ensures
        spec_go(p.push(acc), c + rest) == go_on(spec_reduce_stack(p.push(fold_apply(acc, c)), first(rest)), rest),
    decreases c.len(),
{
    let t = c[0];
    let c1 = c.drop_first();
    assert(atom(t));
    assert(c + rest =~= seq![t] + (c1 + rest));
    lemma_go_one(p.push(acc), t, c1 + rest);
    let app = PatV::Apply(None, Box::new(acc), Box::new(tok_pat(t)));
    lemma_applies(p, acc, t, first(c1 + rest));
    if c1.len() == 0 {
        assert(c1 + rest =~= rest);
        assert(fold_apply(app, c1) == app);
    } else {
        assert((c1 + rest)[0] == c1[0]);
        assert(atom(c1[0]));
        lemma_waits(p, app, c1[0]);
        assert(all_atoms(c1)) by {
            assert forall|i: int| 0 <= i < c1.len() implies atom(#[trigger] c1[i]) by {
                assert(c1[i] == c[i + 1]);
            }
        }
        lemma_chain(p, app, c1, rest);
    }
}

/// A run of atoms above an open top.
proof fn lemma_run(p: Seq<PatV>, c: Seq<OutV>, rest: Seq<OutV>)
    requires
        open_top(p),
        c.len() >= 1,
        all_atoms(c),
    ensures
        spec_go(p, c + rest) == go_on(spec_reduce_stack(p.push(apply_run(c)), first(rest)), rest),
{
    let t = c[0];
    let c1 = c.drop_first();
    assert(atom(t));
    lemma_atom_pat(t);
    assert(c + rest =~= seq![t] + (c1 + rest));
    lemma_go_one(p, t, c1 + rest);
    if c1.len() == 0 {
        assert(c1 + rest =~= rest);
    } else {
        assert((c1 + rest)[0] == c1[0]);
        assert(atom(c1[0]));
        lemma_waits(p, tok_pat(t), c1[0]);
        assert(all_atoms(c1)) by {
            assert forall|i: int| 0 <= i < c1.len() implies atom(#[trigger] c1[i]) by {
                assert(c1[i] == c[i + 1]);
            }
        }
        lemma_chain(p, tok_pat(t), c1, rest);
    }
}

proof fn lemma_fold_concat(acc: PatV, c1: Seq<OutV>, c2: Seq<OutV>)
    ensures
        fold_apply(acc, c1 + c2) == fold_apply(fold_apply(acc, c1), c2),
    decreases c1.len(),
{
    if c1.len() == 0 {
        assert(c1 + c2 =~= c2);
    } else {
        let app = PatV::Apply(None, Box::new(acc), Box::new(tok_pat(c1[0])));
        assert((c1 + c2)[0] == c1[0]);
        assert((c1 + c2).drop_first() =~= c1.drop_first() + c2);
        lemma_fold_concat(app, c1.drop_first(), c2);
    }
}

proof fn lemma_fold_expr(acc: PatV, c: Seq<OutV>)
    requires
        is_expr_v(acc),
    ensures
        is_expr_v(fold_apply(acc, c)),
    decreases c.len(),
{
    if c.len() > 0 {
        lemma_fold_expr(PatV::Apply(None, Box::new(acc), Box::new(tok_pat(c[0]))), c.drop_first());
    }
}

/// Parentheses around the first `k` atoms of a run change nothing.
proof fn lemma_group(p: Seq<PatV>, c: Seq<OutV>, k: int, rest: Seq<OutV>)
    requires
        open_top(p),
        1 <= k <= c.len(),
        all_atoms(c),
    ensures
        spec_go(p, seq![OutV::Symbol('(')] + c.subrange(0, k) + seq![OutV::Symbol(')')] + c.subrange(k, c.len() as int) + rest)
            == spec_go(p, c + rest),
{
    let c1 = c.subrange(0, k);
    let c2 = c.subrange(k, c.len() as int);
    let close = seq![OutV::Symbol(')')];
    let after = close + c2 + rest;
    let toks = seq![OutV::Symbol('(')] + c1 + close + c2 + rest;
    assert(toks =~= seq![OutV::Symbol('(')] + (c1 + after));
    assert(c1[0] == c[0]);
    assert(atom(c[0]));
    assert(all_atoms(c1)) by {
        assert forall|i: int| 0 <= i < c1.len() implies atom(#[trigger] c1[i]) by {
            assert(c1[i] == c[i]);
        }
    }
    assert(all_atoms(c2)) by {
        assert forall|i: int| 0 <= i < c2.len() implies atom(#[trigger] c2[i]) by {
            assert(c2[i] == c[i + k]);
        }
    }
    // `(` waits above `p`
    let p1 = p.push(PatV::Mark('('));
    lemma_go_one(p, OutV::Symbol('('), c1 + after);
    assert((c1 + after)[0] == c[0]);
    assert(at(p1, 1) == PatV::Mark('('));
    lemma_stays(p1, first(c1 + after));
    assert(go_on(p1, c1 + after) == spec_go(p1, c1 + after));
    // the atoms inside run up to the `)`
    assert(open_top(p1));
    lemma_run(p1, c1, after);
    let g = apply_run(c1);
    lemma_atom_pat(c[0]);
    lemma_fold_expr(tok_pat(c1[0]), c1.drop_first());
    assert(after[0] == OutV::Symbol(')'));
    assert(first(after) == Some(OutV::Symbol(')')));
    let s2 = p1.push(g);
    assert(at(s2, 1) == g);
    assert(at(s2, 2) == PatV::Mark('('));
    lemma_stays(s2, first(after));
    assert(go_on(s2, after) == spec_go(s2, after));
    // the `)` closes the group
    lemma_go_one(s2, OutV::Symbol(')'), c2 + rest);
    assert(after =~= seq![OutV::Symbol(')')] + (c2 + rest));
    let s3 = s2.push(PatV::Mark(')'));
    let f3 = first(c2 + rest);
    assert(red(s3, 3, g) =~= p.push(g));
    assert(at(s3, 1) == PatV::Mark(')'));
    assert(at(s3, 2) == g);
    assert(at(s3, 3) == PatV::Mark('('));
    assert(reduce_step(s3, f3) == Step::Again(p.push(g)));
    assert(spec_reduce_stack(s3, f3) == spec_reduce_stack(p.push(g), f3));
    assert(c1.drop_first() + c2 =~= c.drop_first());
    lemma_fold_concat(tok_pat(c[0]), c1.drop_first(), c2);
    lemma_run(p, c, rest);
    if c2.len() == 0 {
        assert(c2 + rest =~= rest);
        assert(fold_apply(g, c2) == g);
    } else {
        assert((c2 + rest)[0] == c2[0]);
        assert(atom(c2[0]));
        lemma_waits(p, g, c2[0]);
        assert(go_on(p.push(g), c2 + rest) == spec_go(p.push(g), c2 + rest));
        lemma_chain(p, g, c2, rest);
    }
}

pub open spec fn arrow() -> Seq<OutV> {
    seq![OutV::Symbol('-'), OutV::Symbol('>')]
}

/// `a ->` above an open top becomes the input of a closure.
proof fn lemma_input(p: Seq<PatV>, a: Seq<char>, rest: Seq<OutV>)
    requires
        p == seq![PatV::Start] || open_top(p) && (p.last() is ClosureInput || p.last() == PatV::Mark('(')),
        rest.len() > 0,
    ensures
        spec_go(p, seq![OutV::LetName(a)] + arrow() + rest) == spec_go(p.push(PatV::ClosureInput(Some(a), None)), rest),
{
    let r2 = seq![OutV::Symbol('>')] + rest;
    let r1 = seq![OutV::Symbol('-')] + r2;
    assert(seq![OutV::LetName(a)] + arrow() + rest =~= seq![OutV::LetName(a)] + r1);
    assert(r1[0] == OutV::Symbol('-'));
    assert(r2[0] == OutV::Symbol('>'));
    assert(first(r1) == Some(OutV::Symbol('-')));
    assert(first(r2) == Some(OutV::Symbol('>')));
    let s1 = p.push(PatV::LetName(None, a));
    lemma_go_one(p, OutV::LetName(a), r1);
    assert(at(s1, 1) == PatV::LetName(None, a));
    assert(at(s1, 2) == p.last());
    lemma_stays(s1, first(r1));
    lemma_go_one(s1, OutV::Symbol('-'), r2);
    let s2 = s1.push(PatV::Mark('-'));
    assert(at(s2, 1) == PatV::Mark('-'));
    assert(at(s2, 2) == PatV::LetName(None, a));
    lemma_stays(s2, first(r2));
    lemma_go_one(s2, OutV::Symbol('>'), rest);
    let s3 = s2.push(PatV::Mark('>'));
    let f = first(rest);
    let s4 = s1.push(PatV::Arrow);
    let ci = PatV::ClosureInput(Some(a), None);
    let s5 = p.push(ci);
    assert(red(s3, 2, PatV::Arrow) =~= s4);
    assert(at(s3, 1) == PatV::Mark('>'));
    assert(at(s3, 2) == PatV::Mark('-'));
    assert(reduce_step(s3, f) == Step::Again(s4));
    assert(red(s4, 2, ci) =~= s5);
    assert(at(s4, 1) == PatV::Arrow);
    assert(at(s4, 2) == PatV::LetName(None, a));
    assert(rules_a(s4, f) == Some(Step::Again(s5)));
    assert(at(s5, 1) == ci);
    assert(at(s5, 2) == p.last());
    lemma_stays(s5, f);
    assert(spec_reduce_stack(s4, f) == s5);
    assert(spec_reduce_stack(s3, f) == s5);
}

/// With only the end of input left, an expression alone above the start
/// is the result.
proof fn lemma_finish(g: PatV)
    requires
        is_expr_v(g),
    ensures
        spec_go(seq![PatV::Start, g], Seq::empty()) == g,
{
    let s = seq![PatV::Start, g].push(PatV::End);
    assert(s =~= seq![PatV::Start, g, PatV::End]);
    assert(reduce_step(s, None) == Step::Stop(seq![g]));
}

proof fn lemma_alone(g: PatV, f: Option<OutV>)
    requires
        is_expr_v(g),
    ensures
        spec_reduce_stack(seq![PatV::Start, g], f) == seq![PatV::Start, g],
{
    let s = seq![PatV::Start, g];
    assert(at(s, 1) == g);
    assert(at(s, 2) == PatV::Start);
    lemma_stays(s, f);
}

/// A run of atoms is their application, grouped to the left, and
/// parentheses around its first atoms change nothing.
pub proof fn law_application_groups_left(c: Seq<OutV>, k: int)
    requires
        c.len() >= 1,
        all_atoms(c),
        1 <= k <= c.len(),
    ensures
        spec_parse_expr(c) == pat_expr(apply_run(c)),
        pat_expr(apply_run(c)) is Some,
        spec_parse_expr(
            seq![OutV::Symbol('(')] + c.subrange(0, k) + seq![OutV::Symbol(')')] + c.subrange(k, c.len() as int),
        ) == spec_parse_expr(c),
{
    let p = seq![PatV::Start];
    assert(open_top(p));
    assert(c + Seq::<OutV>::empty() =~= c);
    lemma_run(p, c, Seq::empty());
    assert(atom(c[0]));
    lemma_atom_pat(c[0]);
    lemma_fold_expr(tok_pat(c[0]), c.drop_first());
    let g = apply_run(c);
    assert(p.push(g) =~= seq![PatV::Start, g]);
    lemma_alone(g, None);
    lemma_finish(g);
    lemma_group(p, c, k, Seq::empty());
    let grouped = seq![OutV::Symbol('(')] + c.subrange(0, k) + seq![OutV::Symbol(')')] + c.subrange(k, c.len() as int);
    assert(grouped + Seq::<OutV>::empty() =~= grouped);
    lemma_apply_some(tok_pat(c[0]), c.drop_first());
}

proof fn lemma_apply_some(acc: PatV, c: Seq<OutV>)
    requires
        pat_expr(acc) is Some,
        forall|i: int| 0 <= i < c.len() ==> atom(#[trigger] c[i]),
    ensures
        pat_expr(fold_apply(acc, c)) is Some,
    decreases c.len(),
{
    if c.len() > 0 {
        assert(atom(c[0]));
        lemma_atom_pat(c[0]);
        let app = PatV::Apply(None, Box::new(acc), Box::new(tok_pat(c[0])));
        assert(pat_expr(app) is Some);
        assert forall|i: int| 0 <= i < c.drop_first().len() implies atom(#[trigger] c.drop_first()[i]) by {
            assert(c.drop_first()[i] == c[i + 1]);
        }
        lemma_apply_some(app, c.drop_first());
    }
}

/// The closure `a -> b -> body` for a run of atoms `body`.
pub open spec fn curried(a: Seq<char>, b: Seq<char>, c: Seq<OutV>) -> PatV {
    PatV::Closure(
        None,
        Some(a),
        None,
        Box::new(PatV::Closure(None, Some(b), None, Box::new(apply_run(c)))),
    )
}

proof fn lemma_closes(p: Seq<PatV>, a: Seq<char>, g: PatV, f: Option<OutV>)
    requires
        p.len() >= 1,
        is_expr_v(g),
        f is None,
    ensures
        spec_reduce_stack(p.push(PatV::ClosureInput(Some(a), None)).push(g), f) == spec_reduce_stack(
            p.push(PatV::Closure(None, Some(a), None, Box::new(g))),
            f,
        ),
{
    let s = p.push(PatV::ClosureInput(Some(a), None)).push(g);
    let cl = PatV::Closure(None, Some(a), None, Box::new(g));
    assert(at(s, 1) == g);
    assert(at(s, 2) == PatV::ClosureInput(Some(a), None));
    assert(at(s, 3) == p.last());
    assert(red(s, 2, cl) =~= p.push(cl));
    assert(reduce_step(s, f) == Step::Again(p.push(cl)));
}

/// Closures take their parameters one at a time, and application groups
/// to the left: `a -> b -> body` parses as `a -> (b -> body)` and as
/// `a -> (b -> (x y ..) z ..)`, for a run of atoms `body`, and gives the
/// closure of `a` over the closure of `b` over the application.
pub proof fn law_closures_are_curried(a: Seq<char>, b: Seq<char>, c: Seq<OutV>, k: int)
    requires
        c.len() >= 1,
        all_atoms(c),
        1 <= k <= c.len(),
    ensures
        spec_parse_expr(seq![OutV::LetName(a)] + arrow() + seq![OutV::LetName(b)] + arrow() + c) == pat_expr(
            curried(a, b, c),
        ),
        pat_expr(curried(a, b, c)) is Some,
        spec_parse_expr(
            seq![OutV::LetName(a)] + arrow() + seq![OutV::Symbol('('), OutV::LetName(b)] + arrow() + c + seq![
                OutV::Symbol(')'),
            ],
        ) == pat_expr(curried(a, b, c)),
        spec_parse_expr(
            seq![OutV::LetName(a)] + arrow() + seq![OutV::Symbol('('), OutV::LetName(b)] + arrow() + seq![
                OutV::Symbol('('),
            ] + c.subrange(0, k) + seq![OutV::Symbol(')')] + c.subrange(k, c.len() as int) + seq![OutV::Symbol(')')],
        ) == pat_expr(curried(a, b, c)),
{
    assert(atom(c[0]));
    lemma_atom_pat(c[0]);
    lemma_fold_expr(tok_pat(c[0]), c.drop_first());
    lemma_apply_some(tok_pat(c[0]), c.drop_first());
    let g = apply_run(c);
    let cia = PatV::ClosureInput(Some(a), None);
    let cib = PatV::ClosureInput(Some(b), None);
    let clb = PatV::Closure(None, Some(b), None, Box::new(g));
    let cla = curried(a, b, c);
    assert(pat_expr(clb) is Some);
    assert(pat_expr(cla) is Some);
    let start = seq![PatV::Start];
    let close = seq![OutV::Symbol(')')];
    assert(c[0] == c[0]);
    // `a -> b -> body`
    let t1 = seq![OutV::LetName(a)] + arrow() + seq![OutV::LetName(b)] + arrow() + c;
    let rb = seq![OutV::LetName(b)] + arrow() + c;
    assert(t1 =~= seq![OutV::LetName(a)] + arrow() + rb);
    lemma_input(start, a, rb);
    let s1 = start.push(cia);
    lemma_input(s1, b, c);
    let p1 = s1.push(cib);
    assert(open_top(p1));
    assert(c + Seq::<OutV>::empty() =~= c);
    lemma_run(p1, c, Seq::empty());
    lemma_closes(s1, b, g, None);
    lemma_closes(start, a, clb, None);
    assert(start.push(cla) =~= seq![PatV::Start, cla]);
    lemma_alone(cla, None);
    lemma_finish(cla);
    // `a -> (b -> body)`, with or without a group in the body
    let inner = seq![OutV::LetName(b)] + arrow() + c + close;
    let t2 = seq![OutV::LetName(a)] + arrow() + seq![OutV::Symbol('('), OutV::LetName(b)] + arrow() + c + close;
    let r2 = seq![OutV::Symbol('(')] + inner;
    assert(t2 =~= seq![OutV::LetName(a)] + arrow() + r2);
    let grouped = seq![OutV::Symbol('(')] + c.subrange(0, k) + close + c.subrange(k, c.len() as int);
    let inner3 = seq![OutV::LetName(b)] + arrow() + grouped + close;
    let t3 = seq![OutV::LetName(a)] + arrow() + seq![OutV::Symbol('('), OutV::LetName(b)] + arrow() + seq![
        OutV::Symbol('('),
    ] + c.subrange(0, k) + close + c.subrange(k, c.len() as int) + close;
    let r3 = seq![OutV::Symbol('(')] + inner3;
    assert(t3 =~= seq![OutV::LetName(a)] + arrow() + r3);
    lemma_input(start, a, r2);
    lemma_input(start, a, r3);
    let s2 = s1.push(PatV::Mark('('));
    lemma_go_one(s1, OutV::Symbol('('), inner);
    lemma_go_one(s1, OutV::Symbol('('), inner3);
    assert(inner[0] == OutV::LetName(b));
    assert(inner3[0] == OutV::LetName(b));
    assert(at(s2, 1) == PatV::Mark('('));
    assert(at(s2, 2) == cia);
    lemma_stays(s2, first(inner));
    lemma_stays(s2, first(inner3));
    assert(open_top(s2));
    lemma_input(s2, b, c + close);
    lemma_input(s2, b, grouped + close);
    let p2 = s2.push(cib);
    assert(open_top(p2));
    lemma_group(p2, c, k, close);
    assert(grouped + close =~= seq![OutV::Symbol('(')] + c.subrange(0, k) + close + c.subrange(k, c.len() as int) + close);
    lemma_run(p2, c, close);
    // the body closes at `)`
    let f = first(close);
    assert(close[0] == OutV::Symbol(')'));
    let u = p2.push(g);
    let v = s2.push(clb);
    assert(at(u, 1) == g);
    assert(at(u, 2) == cib);
    assert(red(u, 2, clb) =~= v);
    assert(reduce_step(u, f) == Step::Again(v));
    assert(at(v, 1) == clb);
    assert(at(v, 2) == PatV::Mark('('));
    lemma_stays(v, f);
    assert(spec_reduce_stack(u, f) == v);
    assert(go_on(v, close) == spec_go(v, close));
    assert(close =~= seq![OutV::Symbol(')')] + Seq::<OutV>::empty());
    lemma_go_one(v, OutV::Symbol(')'), Seq::empty());
    let w = v.push(PatV::Mark(')'));
    let s1b = s1.push(clb);
    assert(red(w, 3, clb) =~= s1b);
    assert(at(w, 1) == PatV::Mark(')'));
    assert(at(w, 2) == clb);
    assert(at(w, 3) == PatV::Mark('('));
    assert(reduce_step(w, None) == Step::Again(s1b));
    assert(first(Seq::<OutV>::empty()) is None);
    assert(s1b == start.push(cia).push(clb));
    assert(spec_reduce_stack(w, None) == spec_reduce_stack(s1b, None));
    assert(spec_reduce_stack(s1b, None) == seq![PatV::Start, cla]);
    assert(go_on(seq![PatV::Start, cla], Seq::empty()) == cla);
    assert(spec_go(v, close) == cla);
    assert(spec_go(p2, c + close) == cla);
    assert(inner =~= seq![OutV::LetName(b)] + arrow() + (c + close));
    assert(spec_go(s2, inner) == cla);
    assert(spec_reduce_stack(s1.push(PatV::Mark('(')), first(inner)) == s2);
    assert(spec_go(s1, r2) == cla);
    assert(spec_go(start, t2) == cla);
    assert(inner3 =~= seq![OutV::LetName(b)] + arrow() + (grouped + close));
    assert(spec_go(p2, grouped + close) == cla);
    assert(spec_go(s2, inner3) == cla);
    assert(spec_go(s1, r3) == cla);
    assert(spec_go(start, t3) == cla);
}

pub open spec fn flat(items: Seq<Seq<OutV>>) -> Seq<OutV>
    decreases items.len(),
{
    if items.len() == 0 {
        Seq::empty()
    } else {
        items[0] + flat(items.drop_first())
    }
}

pub open spec fn all_values(items: Seq<Seq<OutV>>) -> bool {
    forall|i: int| 0 <= i < items.len() ==> value_toks(#[trigger] items[i])
}

/// `acc` applied in turn to each of the values `items`.
pub open spec fn fold_items(acc: PatV, items: Seq<Seq<OutV>>) -> PatV
    decreases items.len(),
{
    if items.len() == 0 {
        acc
    } else {
        fold_items(PatV::Apply(None, Box::new(acc), Box::new(value_pat(items[0]))), items.drop_first())
    }
}

/// A run of values applied to its first one.
pub open spec fn item_run(items: Seq<Seq<OutV>>) -> PatV {
    fold_items(value_pat(items[0]), items.drop_first())
}

proof fn lemma_values_tail(items: Seq<Seq<OutV>>)
    requires
        items.len() >= 1,
        all_values(items),
    ensures
        all_values(items.drop_first()),
        value_toks(items[0]),
        flat(items) == items[0] + flat(items.drop_first()),
{
    assert forall|i: int| 0 <= i < items.drop_first().len() implies value_toks(#[trigger] items.drop_first()[i]) by {
        assert(items.drop_first()[i] == items[i + 1]);
    }
}

/// The first token of values and what follows them is an atom or `(`.
proof fn lemma_values_first(items: Seq<Seq<OutV>>, rest: Seq<OutV>)
    requires
        items.len() >= 1,
        all_values(items),
    ensures
        first(flat(items) + rest) == Some(items[0][0]),
        atom(items[0][0]) || items[0][0] == OutV::Symbol('('),
{
    lemma_values_tail(items);
    assert((items[0] + flat(items.drop_first()) + rest)[0] == items[0][0]);
    assert(flat(items) + rest == items[0] + flat(items.drop_first()) + rest);
}

/// An expression above an open top waits while a value follows.
proof fn lemma_waits_value(p: Seq<PatV>, e: PatV, t: OutV)
    requires
        open_top(p),
        is_expr_v(e),
        atom(t) || t == OutV::Symbol('('),
    ensures
        spec_reduce_stack(p.push(e), Some(t)) == p.push(e),
{
    let s = p.push(e);
    assert(at(s, 1) == e);
    assert(at(s, 2) == p.last());
    lemma_stays(s, Some(t));
}

/// An expression and a value above an open top become an application.
proof fn lemma_applies_value(p: Seq<PatV>, e: PatV, w: PatV, f: Option<OutV>)
    requires
        open_top(p),
        is_expr_v(e),
        is_expr_v(w),
    ensures
        spec_reduce_stack(p.push(e).push(w), f) == spec_reduce_stack(p.push(PatV::Apply(None, Box::new(e), Box::new(w))), f),
{
    let s = p.push(e).push(w);
    let app = PatV::Apply(None, Box::new(e), Box::new(w));
    assert(at(s, 1) == w);
    assert(at(s, 2) == e);
    assert(red(s, 2, app) =~= p.push(app));
    assert(rules_a(s, f) is None);
    assert(rules_b(s, f) is None);
    assert(rules_c(s, f) is None);
    assert(reduce_step(s, f) == Step::Again(p.push(app)));
}

proof fn lemma_fold_items_expr(acc: PatV, items: Seq<Seq<OutV>>)
    requires
        is_expr_v(acc),
    ensures
        is_expr_v(fold_items(acc, items)),
    decreases items.len(),
{
    if items.len() > 0 {
        lemma_fold_items_expr(PatV::Apply(None, Box::new(acc), Box::new(value_pat(items[0]))), items.drop_first());
    }
}

/// A run of values after an expression above an open top.
proof fn lemma_item_chain(p: Seq<PatV>, acc: PatV, items: Seq<Seq<OutV>>, rest: Seq<OutV>)
    requires
        open_top(p),
        is_expr_v(acc),
        items.len() >= 1,
        all_values(items),
    ensures
        spec_go(p.push(acc), flat(items) + rest) == go_on(spec_reduce_stack(p.push(fold_items(acc, items)), first(rest)), rest),
    decreases items.len(),
{
    lemma_values_tail(items);
    let v = items[0];
    let items1 = items.drop_first();
    let r = flat(items1) + rest;
    assert(flat(items) + rest =~= v + r);
    assert(p.push(acc).len() >= 1);
    lemma_value(p.push(acc), v, r);
    let w = value_pat(v);
    let app = PatV::Apply(None, Box::new(acc), Box::new(w));
    lemma_applies_value(p, acc, w, first(r));
    if items1.len() == 0 {
        assert(r =~= rest);
        assert(fold_items(app, items1) == app);
        assert(crate::parser::expr::group::go_on(spec_reduce_stack(p.push(app), first(rest)), rest) == go_on(
            spec_reduce_stack(p.push(app), first(rest)),
            rest,
        ));
    } else {
        lemma_values_first(items1, rest);
        lemma_waits_value(p, app, items1[0][0]);
        assert(crate::parser::expr::group::go_on(p.push(app), r) == spec_go(p.push(app), r));
        lemma_item_chain(p, app, items1, rest);
    }
}

/// A run of values above an open top.
proof fn lemma_item_run(p: Seq<PatV>, items: Seq<Seq<OutV>>, rest: Seq<OutV>)
    requires
        open_top(p),
        items.len() >= 1,
        all_values(items),
    ensures
        is_expr_v(item_run(items)),
        spec_go(p, flat(items) + rest) == go_on(spec_reduce_stack(p.push(item_run(items)), first(rest)), rest),
{
    lemma_values_tail(items);
    let v = items[0];
    let items1 = items.drop_first();
    let r = flat(items1) + rest;
    assert(flat(items) + rest =~= v + r);
    lemma_value(p, v, r);
    let w = value_pat(v);
    lemma_fold_items_expr(w, items1);
    if items1.len() == 0 {
        assert(r =~= rest);
        assert(crate::parser::expr::group::go_on(spec_reduce_stack(p.push(w), first(rest)), rest) == go_on(
            spec_reduce_stack(p.push(w), first(rest)),
            rest,
        ));
    } else {
        lemma_values_first(items1, rest);
        lemma_waits_value(p, w, items1[0][0]);
        assert(crate::parser::expr::group::go_on(p.push(w), r) == spec_go(p.push(w), r));
        lemma_item_chain(p, w, items1, rest);
    }
}

/// The closure `a -> b -> body` for a run of values `body`.
pub open spec fn curried_items(a: Seq<char>, b: Seq<char>, items: Seq<Seq<OutV>>) -> PatV {
    PatV::Closure(
        None,
        Some(a),
        None,
        Box::new(PatV::Closure(None, Some(b), None, Box::new(item_run(items)))),
    )
}

/// Closures take their parameters one at a time: `a -> b -> body` parses
/// as `a -> (b -> body)`, for a body that is a run of values (numbers,
/// names, `()`, `_`, or expressions in parentheses), and gives the closure
/// of `a` over the closure of `b` over the application of the values.
pub proof fn law_curried_closures(a: Seq<char>, b: Seq<char>, items: Seq<Seq<OutV>>)
    requires
        items.len() >= 1,
        all_values(items),
    ensures
        spec_parse_expr(seq![OutV::LetName(a)] + arrow() + seq![OutV::LetName(b)] + arrow() + flat(items)) == pat_expr(
            curried_items(a, b, items),
        ),
        spec_parse_expr(
            seq![OutV::LetName(a)] + arrow() + seq![OutV::Symbol('('), OutV::LetName(b)] + arrow() + flat(items) + seq![
                OutV::Symbol(')'),
            ],
        ) == pat_expr(curried_items(a, b, items)),
{
    let c = flat(items);
    let cia = PatV::ClosureInput(Some(a), None);
    let cib = PatV::ClosureInput(Some(b), None);
    let start = seq![PatV::Start];
    let close = seq![OutV::Symbol(')')];
    lemma_values_first(items, Seq::empty());
    assert(c + Seq::<OutV>::empty() =~= c);
    assert(c.len() > 0);
    // `a -> b -> body`
    let t1 = seq![OutV::LetName(a)] + arrow() + seq![OutV::LetName(b)] + arrow() + c;
    let rb = seq![OutV::LetName(b)] + arrow() + c;
    assert(t1 =~= seq![OutV::LetName(a)] + arrow() + rb);
    lemma_input(start, a, rb);
    let s1 = start.push(cia);
    lemma_input(s1, b, c);
    let p1 = s1.push(cib);
    assert(open_top(p1));
    lemma_item_run(p1, items, Seq::empty());
    let g = item_run(items);
    let clb = PatV::Closure(None, Some(b), None, Box::new(g));
    let cla = curried_items(a, b, items);
    lemma_closes(s1, b, g, None);
    lemma_closes(start, a, clb, None);
    assert(start.push(cla) =~= seq![PatV::Start, cla]);
    lemma_alone(cla, None);
    lemma_finish(cla);
    assert(spec_go(start, t1) == cla);
    // `a -> (b -> body)`
    let inner = seq![OutV::LetName(b)] + arrow() + c + close;
    let t2 = seq![OutV::LetName(a)] + arrow() + seq![OutV::Symbol('('), OutV::LetName(b)] + arrow() + c + close;
    let r2 = seq![OutV::Symbol('(')] + inner;
    assert(t2 =~= seq![OutV::LetName(a)] + arrow() + r2);
    lemma_input(start, a, r2);
    let s2 = s1.push(PatV::Mark('('));
    lemma_go_one(s1, OutV::Symbol('('), inner);
    assert(inner[0] == OutV::LetName(b));
    assert(at(s2, 1) == PatV::Mark('('));
    assert(at(s2, 2) == cia);
    lemma_stays(s2, first(inner));
    assert(open_top(s2));
    lemma_input(s2, b, c + close);
    let p2 = s2.push(cib);
    assert(open_top(p2));
    lemma_item_run(p2, items, close);
    let f = first(close);
    assert(close[0] == OutV::Symbol(')'));
    let u = p2.push(g);
    let v = s2.push(clb);
    assert(at(u, 1) == g);
    assert(at(u, 2) == cib);
    assert(red(u, 2, clb) =~= v);
    assert(reduce_step(u, f) == Step::Again(v));
    assert(at(v, 1) == clb);
    assert(at(v, 2) == PatV::Mark('('));
    lemma_stays(v, f);
    assert(spec_reduce_stack(u, f) == v);
    assert(crate::parser::expr::group::go_on(v, close) == spec_go(v, close));
    assert(close =~= seq![OutV::Symbol(')')] + Seq::<OutV>::empty());
    lemma_go_one(v, OutV::Symbol(')'), Seq::empty());
    let w = v.push(PatV::Mark(')'));
    let s1b = s1.push(clb);
    assert(red(w, 3, clb) =~= s1b);
    assert(at(w, 1) == PatV::Mark(')'));
    assert(at(w, 2) == clb);
    assert(at(w, 3) == PatV::Mark('('));
    assert(reduce_step(w, None) == Step::Again(s1b));
    assert(first(Seq::<OutV>::empty()) is None);
    assert(spec_reduce_stack(w, None) == spec_reduce_stack(s1b, None));
    assert(spec_reduce_stack(s1b, None) == seq![PatV::Start, cla]);
    assert(go_on(seq![PatV::Start, cla], Seq::empty()) == cla);
    assert(spec_go(v, close) == cla);
    assert(spec_go(p2, c + close) == cla);
    assert(inner =~= seq![OutV::LetName(b)] + arrow() + (c + close));
    assert(spec_go(s2, inner) == cla);
    assert(spec_reduce_stack(s1.push(PatV::Mark('(')), first(inner)) == s2);
    assert(spec_go(s1, r2) == cla);
    assert(spec_go(start, t2) == cla);
}

} // verus!
