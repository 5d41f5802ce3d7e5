// Parentheses around the tokens of an expression or a type change nothing.
// The proof runs the parser twice side by side: on the tokens from a stack
// `Start q`, and on the tokens followed by `)` from the stack `Start ( q`.
// Every reduction does the same to `q` in both runs, except when `q` is an
// expression or type followed by `)`, and there the first run is stuck and
// fails.  At the end the `)` meets the `(` and both runs give the same result.

use vstd::prelude::*;

use crate::parser::expr::pat::{is_expr_v, is_type_v, law_with_type_accepts_expressions, OptPatV, PatV};
use crate::parser::expr::rules::{
    at, let_chain, mk, red, reduce_step, rules_a, rules_b, rules_c, rules_d, rules_e, rules_f, rules_rest, spec_reduce_stack, Step,
};
use crate::parser::expr::lr::{move_in_v, spec_go};
use crate::parser::expr::typed::spec_parse_expr;
use crate::parser::types::spec_parse_type;
use crate::parser::preprocess::OutV;

verus! {

/// A stack above its bottom symbol that holds neither a start nor an end.
pub open spec fn clean(q: Seq<PatV>) -> bool {
    forall|i: int| 0 <= i < q.len() ==> !((#[trigger] q[i]) is Start) && !(q[i] is End)
}

/// An expression or type followed by `)` right above the bottom: with
/// nothing to match the `)`, the parser can only fail from there.
pub open spec fn poisoned(q: Seq<PatV>) -> bool {
    q.len() == 2 && q[1] == mk(')') && (is_expr_v(q[0]) || is_type_v(q[0]))
}

pub open spec fn plain_stack(q: Seq<PatV>) -> Seq<PatV> {
    seq![PatV::Start] + q
}

pub open spec fn paren_stack(q: Seq<PatV>) -> Seq<PatV> {
    seq![PatV::Start, PatV::Mark('(')] + q
}

/// Two lookaheads that every production treats alike: the same token, or
/// no token against a `)`.
pub open spec fn same_follow(f: Option<OutV>, g: Option<OutV>) -> bool {
    f == g || (f is None && g == Some(OutV::Symbol(')')))
}

/// Corresponding outcomes of a reduction on the two stacks over `q`.
pub open spec fn step_rel(q: Seq<PatV>, a: Step, b: Step) -> bool {
    match (a, b) {
        (Step::Again(x), Step::Again(y)) => {
            &&& x.len() >= 1
            &&& x == plain_stack(x.drop_first())
            &&& y == paren_stack(x.drop_first())
            &&& clean(x.drop_first())
            &&& !poisoned(x.drop_first())
            &&& x.drop_first().len() < q.len()
        },
        (Step::Stop(x), Step::Stop(y)) => (x == seq![PatV::Fail] && y == seq![PatV::Fail]) || (x == plain_stack(q) && y
            == paren_stack(q)),
        _ => false,
    }
}

pub open spec fn opt_rel(q: Seq<PatV>, a: Option<Step>, b: Option<Step>) -> bool {
    match (a, b) {
        (None, None) => true,
        (Some(x), Some(y)) => step_rel(q, x, y),
        _ => false,
    }
}

/// A chain of `let` bindings around an expression is an expression.
pub proof fn lemma_let_chain_expr(v: Seq<(bool, Seq<char>, OptPatV, PatV)>, body: PatV)
    requires
        is_expr_v(body),
    ensures
        is_expr_v(let_chain(v, body)),
    decreases v.len(),
{
    if v.len() > 0 {
        let x = v.last();
        lemma_let_chain_expr(v.drop_last(), PatV::Let(None, x.0, x.1, x.2, Box::new(x.3), Box::new(body)));
    }
}

proof fn lemma_stacks(q: Seq<PatV>)
    requires
        clean(q),
    ensures
        plain_stack(q).len() == q.len() + 1,
        paren_stack(q).len() == q.len() + 2,
        forall|j: int| 1 <= j <= q.len() ==> #[trigger] at(plain_stack(q), j) == at(q, j),
        forall|j: int| 1 <= j <= q.len() ==> #[trigger] at(paren_stack(q), j) == at(q, j),
        at(plain_stack(q), q.len() as int + 1) == PatV::Start,
        at(paren_stack(q), q.len() as int + 1) == PatV::Mark('('),
        at(paren_stack(q), q.len() as int + 2) == PatV::Start,
        plain_stack(q)[0] is Start,
        q.len() >= 1 ==> !(plain_stack(q)[plain_stack(q).len() - 1] is End),
        forall|k: int, p: PatV|
            0 <= k <= q.len() ==> #[trigger] red(plain_stack(q), k, p) == plain_stack(red(q, k, p)),
        forall|k: int, p: PatV|
            0 <= k <= q.len() ==> #[trigger] red(paren_stack(q), k, p) == paren_stack(red(q, k, p)),
        forall|k: int, p: PatV|
            0 <= k <= q.len() && !(p is Start) && !(p is End) ==> clean(#[trigger] red(q, k, p)),
        forall|x: Seq<PatV>| #[trigger] plain_stack(x).drop_first() == x,
{
    assert forall|j: int| 1 <= j <= q.len() implies #[trigger] at(plain_stack(q), j) == at(q, j) by {
        assert(plain_stack(q)[plain_stack(q).len() - j] == q[q.len() - j]);
    }
    assert forall|j: int| 1 <= j <= q.len() implies #[trigger] at(paren_stack(q), j) == at(q, j) by {
        assert(paren_stack(q)[paren_stack(q).len() - j] == q[q.len() - j]);
    }
    assert forall|k: int, p: PatV| 0 <= k <= q.len() implies #[trigger] red(plain_stack(q), k, p) == plain_stack(
        red(q, k, p),
    ) by {
        assert(red(plain_stack(q), k, p) =~= plain_stack(red(q, k, p)));
    }
    assert forall|k: int, p: PatV| 0 <= k <= q.len() implies #[trigger] red(paren_stack(q), k, p) == paren_stack(
        red(q, k, p),
    ) by {
        assert(red(paren_stack(q), k, p) =~= paren_stack(red(q, k, p)));
    }
    assert forall|k: int, p: PatV| 0 <= k <= q.len() && !(p is Start) && !(p is End) implies clean(
        #[trigger] red(q, k, p),
    ) by {
        let r = red(q, k, p);
        assert forall|i: int| 0 <= i < r.len() implies !((#[trigger] r[i]) is Start) && !(r[i] is End) by {
            if i < r.len() - 1 {
                assert(r[i] == q[i]);
            }
        }
    }
    assert forall|x: Seq<PatV>| #[trigger] plain_stack(x).drop_first() == x by {
        assert(plain_stack(x).drop_first() =~= x);
    }
    if q.len() >= 1 {
        assert(plain_stack(q)[plain_stack(q).len() - 1] == q[q.len() - 1]);
    }
}

proof fn lemma_sim_a(q: Seq<PatV>, f: Option<OutV>, g: Option<OutV>)
    requires
        clean(q),
        !poisoned(q),
        same_follow(f, g),
    ensures
        opt_rel(q, rules_a(plain_stack(q), f), rules_a(paren_stack(q), g)),
{
    lemma_stacks(q);
}

proof fn lemma_sim_b(q: Seq<PatV>, f: Option<OutV>, g: Option<OutV>)
    requires
        clean(q),
        !poisoned(q),
        same_follow(f, g),
    ensures
        opt_rel(q, rules_b(plain_stack(q), f), rules_b(paren_stack(q), g)),
{
    lemma_stacks(q);
}

proof fn lemma_sim_c(q: Seq<PatV>, f: Option<OutV>, g: Option<OutV>)
    requires
        clean(q),
        !poisoned(q),
        same_follow(f, g),
    ensures
        opt_rel(q, rules_c(plain_stack(q), f), rules_c(paren_stack(q), g)),
{
    lemma_stacks(q);
}

proof fn lemma_sim_d(q: Seq<PatV>, f: Option<OutV>, g: Option<OutV>)
    requires
        clean(q),
        !poisoned(q),
        same_follow(f, g),
    ensures
        opt_rel(q, rules_d(plain_stack(q), f), rules_d(paren_stack(q), g)),
{
    lemma_stacks(q);
    if q.len() >= 2 {
        law_with_type_accepts_expressions(*at(q, 2)->TypedExprHead_0, at(q, 1));
    }
    if q.len() >= 3 && is_expr_v(at(q, 1)) {
        lemma_let_chain_expr(at(q, 3)->AssignSeq_0, at(q, 1));
    }
}

proof fn lemma_sim_e(q: Seq<PatV>, f: Option<OutV>, g: Option<OutV>)
    requires
        clean(q),
        !poisoned(q),
        same_follow(f, g),
    ensures
        opt_rel(q, rules_e(plain_stack(q), f), rules_e(paren_stack(q), g)),
{
    lemma_stacks(q);
}

proof fn lemma_sim_f(q: Seq<PatV>, f: Option<OutV>, g: Option<OutV>)
    requires
        clean(q),
        !poisoned(q),
        same_follow(f, g),
    ensures
        opt_rel(q, rules_f(plain_stack(q), f), rules_f(paren_stack(q), g)),
{
    lemma_stacks(q);
}

proof fn lemma_sim_rest(q: Seq<PatV>)
    requires
        clean(q),
        !poisoned(q),
    ensures
        step_rel(q, rules_rest(plain_stack(q)), rules_rest(paren_stack(q))),
{
    lemma_stacks(q);
}

/// One reduction on a stack over `q` and on the same stack with a `(`
/// between the bottom and `q` corresponds.
proof fn lemma_sim_step(q: Seq<PatV>, f: Option<OutV>, g: Option<OutV>)
    requires
        clean(q),
        !poisoned(q),
        same_follow(f, g),
    ensures
        step_rel(q, reduce_step(plain_stack(q), f), reduce_step(paren_stack(q), g)),
{
    lemma_sim_a(q, f, g);
    lemma_sim_b(q, f, g);
    lemma_sim_c(q, f, g);
    lemma_sim_d(q, f, g);
    lemma_sim_e(q, f, g);
    lemma_sim_f(q, f, g);
    lemma_sim_rest(q);
}

/// The outcome of reducing the two stacks: both fail, or they are again
/// the same stack with and without the `(`.
pub open spec fn stacks_rel(rp: Seq<PatV>, rq: Seq<PatV>) -> bool {
    ||| (rp == seq![PatV::Fail] && rq == seq![PatV::Fail])
    ||| {
        &&& rp.len() >= 1
        &&& rp == plain_stack(rp.drop_first())
        &&& rq == paren_stack(rp.drop_first())
        &&& clean(rp.drop_first())
        &&& !poisoned(rp.drop_first())
    }
}

proof fn lemma_sim_reduce(q: Seq<PatV>, f: Option<OutV>, g: Option<OutV>)
    requires
        clean(q),
        !poisoned(q),
        same_follow(f, g),
    ensures
        stacks_rel(spec_reduce_stack(plain_stack(q), f), spec_reduce_stack(paren_stack(q), g)),
    decreases q.len(),
{
    lemma_stacks(q);
    lemma_sim_step(q, f, g);
    match reduce_step(plain_stack(q), f) {
        Step::Stop(x) => {},
        Step::Again(x) => {
            let z = x.drop_first();
            lemma_stacks(z);
            lemma_sim_reduce(z, f, g);
        },
    }
}

/// The bottom of `s` from `b` symbols up is untouched by the reduction.
pub open spec fn keeps_bottom(s: Seq<PatV>, b: int, r: Step) -> bool {
    match r {
        Step::Again(x) => x.len() >= b && x.len() < s.len() && forall|i: int| 0 <= i < b ==> x[i] == s[i],
        Step::Stop(x) => x == s || x == seq![PatV::Fail],
    }
}

pub open spec fn opt_keeps_bottom(s: Seq<PatV>, b: int, r: Option<Step>) -> bool {
    match r {
        Some(x) => keeps_bottom(s, b, x),
        None => true,
    }
}

/// A failure at the bottom of the stack is no part of any production.
pub open spec fn fail_bottom(s: Seq<PatV>) -> bool {
    s.len() >= 1 && s[0] is Fail
}

/// A start at the bottom with a `)` two above it: no production consumes
/// that `)`.
pub open spec fn stuck_paren(s: Seq<PatV>) -> bool {
    s.len() >= 3 && s[0] is Start && s[2] == mk(')')
}

proof fn lemma_red_bottom(s: Seq<PatV>)
    ensures
        forall|k: int, p: PatV, i: int|
            0 <= k && 0 <= i < s.len() - k && k <= s.len() ==> #[trigger] red(s, k, p)[i] == s[i],
        forall|k: int, p: PatV| 0 <= k <= s.len() ==> (#[trigger] red(s, k, p)).len() == s.len() - k + 1,
{
    assert forall|k: int, p: PatV, i: int| 0 <= k && 0 <= i < s.len() - k && k <= s.len() implies #[trigger] red(
        s,
        k,
        p,
    )[i] == s[i] by {
        assert(red(s, k, p)[i] == s.subrange(0, s.len() - k)[i]);
    }
}

proof fn lemma_stuck_step_groups(s: Seq<PatV>, f: Option<OutV>, b: int)
    requires
        fail_bottom(s) && b == 1 || stuck_paren(s) && b == 3,
    ensures
        opt_keeps_bottom(s, b, rules_a(s, f)),
        opt_keeps_bottom(s, b, rules_b(s, f)),
        opt_keeps_bottom(s, b, rules_c(s, f)),
{
    lemma_red_bottom(s);
}

proof fn lemma_stuck_step_groups2(s: Seq<PatV>, f: Option<OutV>, b: int)
    requires
        fail_bottom(s) && b == 1 || stuck_paren(s) && b == 3,
    ensures
        opt_keeps_bottom(s, b, rules_d(s, f)),
        opt_keeps_bottom(s, b, rules_e(s, f)),
        opt_keeps_bottom(s, b, rules_f(s, f)),
        keeps_bottom(s, b, rules_rest(s)),
{
    lemma_red_bottom(s);
}

proof fn lemma_stuck_step(s: Seq<PatV>, f: Option<OutV>, b: int)
    requires
        fail_bottom(s) && b == 1 || stuck_paren(s) && b == 3,
    ensures
        keeps_bottom(s, b, reduce_step(s, f)),
{
    lemma_stuck_step_groups(s, f, b);
    lemma_stuck_step_groups2(s, f, b);
}

pub open spec fn stuck(s: Seq<PatV>) -> bool {
    fail_bottom(s) || stuck_paren(s)
}

pub proof fn lemma_stuck_reduce(s: Seq<PatV>, f: Option<OutV>)
    requires
        stuck(s),
    ensures
        stuck(spec_reduce_stack(s, f)),
    decreases s.len(),
{
    let b: int = if fail_bottom(s) { 1 } else { 3 };
    lemma_stuck_step(s, f, b);
    match reduce_step(s, f) {
        Step::Stop(x) => {},
        Step::Again(x) => {
            lemma_stuck_reduce(x, f);
        },
    }
}

pub proof fn lemma_stuck_push(s: Seq<PatV>, x: PatV)
    requires
        stuck(s),
    ensures
        stuck(s.push(x)),
{
}

/// A parser stack that holds a failure at its bottom, or a `)` that
/// nothing can match, ends in a failure whatever tokens come.
pub proof fn lemma_stuck_go(s: Seq<PatV>, toks: Seq<OutV>)
    requires
        stuck(s),
    ensures
        spec_go(s, toks) == PatV::Fail,
    decreases toks.len(),
{
    let head = if toks.len() > 0 { Some(toks[0]) } else { None };
    let follow = if toks.len() > 1 { Some(toks[1]) } else { None };
    let pushed = s.push(move_in_v(head));
    lemma_stuck_push(s, move_in_v(head));
    lemma_stuck_reduce(pushed, follow);
    let reduced = spec_reduce_stack(pushed, follow);
    if reduced.len() == 1 {
        assert(reduced[0] is Fail);
    }
    if toks.len() > 0 && !(reduced.len() == 1 && follow is None) {
        lemma_stuck_go(reduced, toks.drop_first());
    }
}

/// With the end of input on top, only a single symbol above the bottom
/// is a success.
pub proof fn lemma_end_result(q: Seq<PatV>)
    requires
        clean(q),
    ensures
        spec_reduce_stack(plain_stack(q).push(PatV::End), None) == (if q.len() == 1 {
            seq![q[0]]
        } else {
            seq![PatV::Fail]
        }),
{
    let s = plain_stack(q).push(PatV::End);
    assert(s.len() == q.len() + 2);
    assert(s[0] is Start);
    assert(s.last() is End);
    if q.len() == 1 {
        assert(s[1] == q[0]);
        assert(s[2] is End);
    }
    assert(rules_b(s, None) is None);
    assert(rules_c(s, None) is None);
    assert(rules_d(s, None) is None);
    assert(rules_e(s, None) is None);
    assert(rules_f(s, None) is None);
}

/// The closing `)` after an expression or a type that stands alone on the
/// stack, and then the end of input, give back that expression or type.
proof fn lemma_paren_finish(e: PatV)
    requires
        is_expr_v(e) || is_type_v(e),
    ensures
        spec_go(paren_stack(seq![e]), seq![OutV::Symbol(')')]) == e,
{
    let toks = seq![OutV::Symbol(')')];
    let s = paren_stack(seq![e]).push(PatV::Mark(')'));
    assert(s =~= seq![PatV::Start, PatV::Mark('('), e, PatV::Mark(')')]);
    let t = seq![PatV::Start, e];
    assert(red(s, 3, e) =~= t);
    assert(reduce_step(s, None) == Step::Again(t));
    assert(rules_b(t, None) is None);
    assert(rules_c(t, None) is None);
    assert(rules_d(t, None) is None);
    assert(rules_e(t, None) is None);
    assert(rules_f(t, None) is None);
    assert(reduce_step(t, None) == Step::Stop(t));
    assert(spec_reduce_stack(t, None) == t);
    assert(spec_reduce_stack(s, None) == t);
    assert(toks.drop_first() =~= Seq::<OutV>::empty());
    let u = t.push(PatV::End);
    assert(u =~= seq![PatV::Start, e, PatV::End]);
    assert(reduce_step(u, None) == Step::Stop(seq![e]));
    assert(spec_go(t, Seq::empty()) == e);
}

/// Running the parser over `q` and the tokens `toks`, and over `q` with a
/// `(` beneath it and the tokens followed by `)`, ends with the same
/// expression or type.
proof fn lemma_paren_run(q: Seq<PatV>, toks: Seq<OutV>)
    requires
        clean(q),
        !poisoned(q),
    ensures
        ({
            let r = spec_go(plain_stack(q), toks);
            (is_expr_v(r) || is_type_v(r)) ==> spec_go(paren_stack(q), toks.push(OutV::Symbol(')'))) == r
        }),
    decreases toks.len(),
{
    let r = spec_go(plain_stack(q), toks);
    let toks2 = toks.push(OutV::Symbol(')'));
    lemma_stacks(q);
    if toks.len() == 0 {
        lemma_end_result(q);
        assert(plain_stack(q).push(move_in_v(None)) == plain_stack(q).push(PatV::End));
        if is_expr_v(r) || is_type_v(r) {
            assert(q.len() == 1);
            assert(r == q[0]);
            assert(q =~= seq![q[0]]);
            assert(toks2 =~= seq![OutV::Symbol(')')]);
            lemma_paren_finish(q[0]);
        }
    } else {
        let x = move_in_v(Some(toks[0]));
        let f = if toks.len() > 1 { Some(toks[1]) } else { None };
        let g = if toks2.len() > 1 { Some(toks2[1]) } else { None };
        assert(toks2[0] == toks[0]);
        if toks.len() > 1 {
            assert(toks2[1] == toks[1]);
        }
        assert(same_follow(f, g));
        let q1 = q.push(x);
        assert(plain_stack(q).push(x) =~= plain_stack(q1));
        assert(paren_stack(q).push(x) =~= paren_stack(q1));
        assert(clean(q1)) by {
            assert forall|i: int| 0 <= i < q1.len() implies !((#[trigger] q1[i]) is Start) && !(q1[i] is End) by {
                if i < q.len() {
                    assert(q1[i] == q[i]);
                }
            }
        }
        let rest = toks.drop_first();
        assert(toks2.drop_first() =~= rest.push(OutV::Symbol(')')));
        if poisoned(q1) {
            assert(stuck(plain_stack(q1)));
            lemma_stuck_reduce(plain_stack(q1), f);
            let rp = spec_reduce_stack(plain_stack(q1), f);
            if rp.len() == 1 {
                assert(rp[0] is Fail);
            } else {
                lemma_stuck_go(rp, rest);
            }
        } else {
            lemma_sim_reduce(q1, f, g);
            let rp = spec_reduce_stack(plain_stack(q1), f);
            let rq = spec_reduce_stack(paren_stack(q1), g);
            if rp == seq![PatV::Fail] && rq == seq![PatV::Fail] {
                assert(stuck(rp));
                lemma_stuck_go(rp, rest);
            } else {
                let z = rp.drop_first();
                if rp.len() == 1 && f is None {
                    assert(rp[0] is Start);
                } else {
                    lemma_paren_run(z, rest);
                }
            }
        }
    }
}

/// The parser run on `(`, the tokens and `)` is the run on the tokens
/// with a `(` beneath them and a `)` after them.
proof fn lemma_open_paren(toks: Seq<OutV>)
    ensures
        spec_go(seq![PatV::Start], seq![OutV::Symbol('(')] + toks + seq![OutV::Symbol(')')]) == spec_go(
            paren_stack(Seq::empty()),
            toks.push(OutV::Symbol(')')),
        ),
{
    let all = seq![OutV::Symbol('(')] + toks + seq![OutV::Symbol(')')];
    let s = seq![PatV::Start, PatV::Mark('(')];
    let f = if all.len() > 1 { Some(all[1]) } else { None };
    assert(seq![PatV::Start].push(move_in_v(Some(all[0]))) =~= s);
    assert(rules_b(s, f) is None);
    assert(rules_c(s, f) is None);
    assert(rules_d(s, f) is None);
    assert(rules_e(s, f) is None);
    assert(rules_f(s, f) is None);
    assert(reduce_step(s, f) == Step::Stop(s));
    assert(spec_reduce_stack(s, f) == s);
    assert(all.drop_first() =~= toks.push(OutV::Symbol(')')));
    assert(paren_stack(Seq::empty()) =~= s);
}

/// Parentheses around the tokens of an expression change nothing.
pub proof fn law_parens_keep_expression(toks: Seq<OutV>)
    requires
        spec_parse_expr(toks) is Some,
    ensures
        spec_parse_expr(seq![OutV::Symbol('(')] + toks + seq![OutV::Symbol(')')]) == spec_parse_expr(toks),
{
    let r = spec_go(seq![PatV::Start], toks);
    assert(is_expr_v(r));
    assert(plain_stack(Seq::empty()) =~= seq![PatV::Start]);
    assert(clean(Seq::<PatV>::empty()));
    lemma_paren_run(Seq::empty(), toks);
    lemma_open_paren(toks);
}

/// Parentheses around the tokens of a type change nothing.
pub proof fn law_parens_keep_type(toks: Seq<OutV>)
    requires
        spec_parse_type(toks) is Some,
    ensures
        spec_parse_type(seq![OutV::Symbol('(')] + toks + seq![OutV::Symbol(')')]) == spec_parse_type(toks),
{
    let r = spec_go(seq![PatV::Start], toks);
    assert(is_type_v(r));
    assert(plain_stack(Seq::empty()) =~= seq![PatV::Start]);
    assert(clean(Seq::<PatV>::empty()));
    lemma_paren_run(Seq::empty(), toks);
    lemma_open_paren(toks);
}

} // verus!
