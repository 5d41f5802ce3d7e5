// A parenthesised expression or type above any stack: `( E )` pushes what
// `E` parses to on its own, and the parser goes on from there.  The proof
// runs the parser on `E` from the start and on `( E )` above the stack side
// by side, as for parentheses around a whole text: no production reaches
// through the `(` into the stack below it.

use vstd::prelude::*;

use crate::parser::expr::pat::{is_expr_v, is_type_v, law_with_type_accepts_expressions, PatV};
use crate::parser::expr::parens::{
    clean, lemma_end_result, lemma_let_chain_expr, lemma_stuck_go, lemma_stuck_reduce, plain_stack, poisoned,
    same_follow, stuck,
};
use crate::parser::expr::rules::{
    at, red, reduce_step, rules_a, rules_b, rules_c, rules_d, rules_e, rules_f, rules_rest, spec_reduce_stack, Step,
};
use crate::parser::expr::lr::{move_in_v, spec_go};
use crate::parser::expr::sugar::{atom, first};
use crate::parser::preprocess::OutV;

verus! {

/// The stack `p`, then `(`, then `q`.
pub open spec fn gstack(p: Seq<PatV>, q: Seq<PatV>) -> Seq<PatV> {
    p + seq![PatV::Mark('(')] + q
}

/// The parser after the last token of a part, with `rest` still to come.
pub open spec fn go_on(r: Seq<PatV>, rest: Seq<OutV>) -> PatV {
    if r.len() == 1 && rest.len() == 0 {
        r[0]
    } else {
        spec_go(r, rest)
    }
}

pub open spec fn gstep_rel(p: Seq<PatV>, q: Seq<PatV>, a: Step, b: Step) -> bool {
    match (a, b) {
        (Step::Again(x), Step::Again(y)) => {
            &&& x.len() >= 1
            &&& x == plain_stack(x.drop_first())
            &&& y == gstack(p, x.drop_first())
            &&& clean(x.drop_first())
            &&& !poisoned(x.drop_first())
            &&& x.drop_first().len() < q.len()
        },
        (Step::Stop(x), Step::Stop(y)) => (x == seq![PatV::Fail] && y == seq![PatV::Fail]) || (x == plain_stack(q) && y
            == gstack(p, q)),
        _ => false,
    }
}

pub open spec fn gopt_rel(p: Seq<PatV>, q: Seq<PatV>, a: Option<Step>, b: Option<Step>) -> bool {
    match (a, b) {
        (None, None) => true,
        (Some(x), Some(y)) => gstep_rel(p, q, x, y),
        _ => false,
    }
}

proof fn lemma_gstacks(p: Seq<PatV>, q: Seq<PatV>)
    requires
        clean(q),
    ensures
        plain_stack(q).len() == q.len() + 1,
        gstack(p, q).len() == p.len() + q.len() + 1,
        forall|j: int| 1 <= j <= q.len() ==> #[trigger] at(plain_stack(q), j) == at(q, j),
        forall|j: int| 1 <= j <= q.len() ==> #[trigger] at(gstack(p, q), j) == at(q, j),
        at(plain_stack(q), q.len() as int + 1) == PatV::Start,
        at(gstack(p, q), q.len() as int + 1) == PatV::Mark('('),
        plain_stack(q)[0] is Start,
        forall|k: int, x: PatV|
            0 <= k <= q.len() ==> #[trigger] red(plain_stack(q), k, x) == plain_stack(red(q, k, x)),
        forall|k: int, x: PatV| 0 <= k <= q.len() ==> #[trigger] red(gstack(p, q), k, x) == gstack(p, red(q, k, x)),
        forall|k: int, x: PatV|
            0 <= k <= q.len() && !(x is Start) && !(x is End) ==> clean(#[trigger] red(q, k, x)),
        forall|y: Seq<PatV>| #[trigger] plain_stack(y).drop_first() == y,
{
    let g = gstack(p, q);
    let s = plain_stack(q);
    assert forall|j: int| 1 <= j <= q.len() implies #[trigger] at(s, j) == at(q, j) by {
        assert(s[s.len() - j] == q[q.len() - j]);
    }
    assert forall|j: int| 1 <= j <= q.len() implies #[trigger] at(g, j) == at(q, j) by {
        assert(g[g.len() - j] == q[q.len() - j]);
    }
    assert(at(g, q.len() as int + 1) == g[p.len() as int]);
    assert forall|k: int, x: PatV| 0 <= k <= q.len() implies #[trigger] red(s, k, x) == plain_stack(red(q, k, x)) by {
        assert(red(s, k, x) =~= plain_stack(red(q, k, x)));
    }
    assert forall|k: int, x: PatV| 0 <= k <= q.len() implies #[trigger] red(g, k, x) == gstack(p, red(q, k, x)) by {
        assert(red(g, k, x) =~= gstack(p, red(q, k, x)));
    }
    assert forall|k: int, x: PatV| 0 <= k <= q.len() && !(x is Start) && !(x is End) implies clean(
        #[trigger] red(q, k, x),
    ) by {
        let r = red(q, k, x);
        assert forall|i: int| 0 <= i < r.len() implies !((#[trigger] r[i]) is Start) && !(r[i] is End) by {
            if i < r.len() - 1 {
                assert(r[i] == q[i]);
            }
        }
    }
    assert forall|y: Seq<PatV>| #[trigger] plain_stack(y).drop_first() == y by {
        assert(plain_stack(y).drop_first() =~= y);
    }
}

proof fn lemma_gsim_abc(p: Seq<PatV>, q: Seq<PatV>, f: Option<OutV>, g: Option<OutV>)
    requires
        clean(q),
        !poisoned(q),
        same_follow(f, g),
    ensures
        gopt_rel(p, q, rules_a(plain_stack(q), f), rules_a(gstack(p, q), g)),
        gopt_rel(p, q, rules_b(plain_stack(q), f), rules_b(gstack(p, q), g)),
        gopt_rel(p, q, rules_c(plain_stack(q), f), rules_c(gstack(p, q), g)),
{
    lemma_gstacks(p, q);
}

proof fn lemma_gsim_d(p: Seq<PatV>, q: Seq<PatV>, f: Option<OutV>, g: Option<OutV>)
    requires
        clean(q),
        !poisoned(q),
        same_follow(f, g),
    ensures
        gopt_rel(p, q, rules_d(plain_stack(q), f), rules_d(gstack(p, q), g)),
{
    lemma_gstacks(p, q);
    if q.len() >= 2 {
        law_with_type_accepts_expressions(*at(q, 2)->TypedExprHead_0, at(q, 1));
    }
    if q.len() >= 3 && is_expr_v(at(q, 1)) {
        lemma_let_chain_expr(at(q, 3)->AssignSeq_0, at(q, 1));
    }
}

proof fn lemma_gsim_ef(p: Seq<PatV>, q: Seq<PatV>, f: Option<OutV>, g: Option<OutV>)
    requires
        clean(q),
        !poisoned(q),
        same_follow(f, g),
    ensures
        gopt_rel(p, q, rules_e(plain_stack(q), f), rules_e(gstack(p, q), g)),
        gopt_rel(p, q, rules_f(plain_stack(q), f), rules_f(gstack(p, q), g)),
        gstep_rel(p, q, rules_rest(plain_stack(q)), rules_rest(gstack(p, q))),
{
    lemma_gstacks(p, q);
}

proof fn lemma_gsim_step(p: Seq<PatV>, q: Seq<PatV>, f: Option<OutV>, g: Option<OutV>)
    requires
        clean(q),
        !poisoned(q),
        same_follow(f, g),
    ensures
        gstep_rel(p, q, reduce_step(plain_stack(q), f), reduce_step(gstack(p, q), g)),
{
    lemma_gsim_abc(p, q, f, g);
    lemma_gsim_d(p, q, f, g);
    lemma_gsim_ef(p, q, f, g);
}

pub open spec fn gstacks_rel(p: Seq<PatV>, rp: Seq<PatV>, rq: Seq<PatV>) -> bool {
    ||| (rp == seq![PatV::Fail] && rq == seq![PatV::Fail])
    ||| {
        &&& rp.len() >= 1
        &&& rp == plain_stack(rp.drop_first())
        &&& rq == gstack(p, rp.drop_first())
        &&& clean(rp.drop_first())
        &&& !poisoned(rp.drop_first())
    }
}

proof fn lemma_gsim_reduce(p: Seq<PatV>, q: Seq<PatV>, f: Option<OutV>, g: Option<OutV>)
    requires
        clean(q),
        !poisoned(q),
        same_follow(f, g),
    ensures
        gstacks_rel(p, spec_reduce_stack(plain_stack(q), f), spec_reduce_stack(gstack(p, q), g)),
    decreases q.len(),
{
    lemma_gstacks(p, q);
    lemma_gsim_step(p, q, f, g);
    match reduce_step(plain_stack(q), f) {
        Step::Stop(x) => {},
        Step::Again(x) => {
            let z = x.drop_first();
            lemma_gstacks(p, z);
            lemma_gsim_reduce(p, z, f, g);
        },
    }
}

/// The closing `)` after an expression or type that stands alone above
/// the `(`.
proof fn lemma_group_finish(p: Seq<PatV>, e: PatV, rest: Seq<OutV>)
    requires
        is_expr_v(e) || is_type_v(e),
    ensures
        spec_go(gstack(p, seq![e]), seq![OutV::Symbol(')')] + rest) == go_on(spec_reduce_stack(p.push(e), first(rest)), rest),
{
    let toks = seq![OutV::Symbol(')')] + rest;
    let f = first(rest);
    assert(toks[0] == OutV::Symbol(')'));
    if rest.len() > 0 {
        assert(toks[1] == rest[0]);
    }
    assert(toks.drop_first() =~= rest);
    let s = gstack(p, seq![e]).push(PatV::Mark(')'));
    assert(at(s, 1) == PatV::Mark(')'));
    assert(at(s, 2) == e);
    assert(at(s, 3) == PatV::Mark('('));
    assert(red(s, 3, e) =~= p.push(e));
    assert(reduce_step(s, f) == Step::Again(p.push(e)));
    assert(spec_reduce_stack(s, f) == spec_reduce_stack(p.push(e), f));
}

/// The tokens `toks` run from the start over `q`, and the same tokens
/// followed by `)` and `rest` run over `q` above `(` and the stack `p`:
/// where the first run gives an expression or type, the second pushes it
/// on `p` and goes on with `rest`.
proof fn lemma_group_run(p: Seq<PatV>, q: Seq<PatV>, toks: Seq<OutV>, rest: Seq<OutV>)
    requires
        clean(q),
        !poisoned(q),
    ensures
        ({
            let r = spec_go(plain_stack(q), toks);
            (is_expr_v(r) || is_type_v(r)) ==> spec_go(gstack(p, q), toks + seq![OutV::Symbol(')')] + rest) == go_on(
                spec_reduce_stack(p.push(r), first(rest)),
                rest,
            )
        }),
    decreases toks.len(),
{
    let r = spec_go(plain_stack(q), toks);
    let toks2 = toks + seq![OutV::Symbol(')')] + rest;
    lemma_gstacks(p, q);
    if toks.len() == 0 {
        lemma_end_result(q);
        assert(plain_stack(q).push(move_in_v(None)) == plain_stack(q).push(PatV::End));
        if is_expr_v(r) || is_type_v(r) {
            assert(q.len() == 1);
            assert(r == q[0]);
            assert(q =~= seq![q[0]]);
            assert(toks2 =~= seq![OutV::Symbol(')')] + rest);
            lemma_group_finish(p, q[0], rest);
        }
    } else {
        let x = move_in_v(Some(toks[0]));
        let f = if toks.len() > 1 { Some(toks[1]) } else { None };
        let g = if toks2.len() > 1 { Some(toks2[1]) } else { None };
        assert(toks2[0] == toks[0]);
        if toks.len() > 1 {
            assert(toks2[1] == toks[1]);
        } else {
            assert(toks2[1] == OutV::Symbol(')'));
        }
        assert(same_follow(f, g));
        let q1 = q.push(x);
        assert(plain_stack(q).push(x) =~= plain_stack(q1));
        assert(gstack(p, q).push(x) =~= gstack(p, q1));
        assert(clean(q1)) by {
            assert forall|i: int| 0 <= i < q1.len() implies !((#[trigger] q1[i]) is Start) && !(q1[i] is End) by {
                if i < q.len() {
                    assert(q1[i] == q[i]);
                }
            }
        }
        let rest1 = toks.drop_first();
        assert(toks2.drop_first() =~= rest1 + seq![OutV::Symbol(')')] + rest);
        if poisoned(q1) {
            assert(stuck(plain_stack(q1)));
            lemma_stuck_reduce(plain_stack(q1), f);
            let rp = spec_reduce_stack(plain_stack(q1), f);
            if rp.len() == 1 {
                assert(rp[0] is Fail);
            } else {
                lemma_stuck_go(rp, rest1);
            }
        } else {
            lemma_gsim_reduce(p, q1, f, g);
            let rp = spec_reduce_stack(plain_stack(q1), f);
            let rq = spec_reduce_stack(gstack(p, q1), g);
            if rp == seq![PatV::Fail] && rq == seq![PatV::Fail] {
                assert(stuck(rp));
                lemma_stuck_go(rp, rest1);
            } else {
                let z = rp.drop_first();
                if rp.len() == 1 && f is None {
                    assert(rp[0] is Start);
                } else {
                    lemma_group_run(p, z, rest1, rest);
                }
            }
        }
    }
}

/// `( E )` above any stack pushes what `E` parses to, when that is an
/// expression or a type, and the parser goes on with the tokens after it.
pub proof fn lemma_group(p: Seq<PatV>, toks: Seq<OutV>, rest: Seq<OutV>)
    requires
        p.len() >= 1,
        is_expr_v(spec_go(seq![PatV::Start], toks)) || is_type_v(spec_go(seq![PatV::Start], toks)),
    ensures
        spec_go(p, seq![OutV::Symbol('(')] + toks + seq![OutV::Symbol(')')] + rest) == go_on(
            spec_reduce_stack(p.push(spec_go(seq![PatV::Start], toks)), first(rest)),
            rest,
        ),
{
    let all = seq![OutV::Symbol('(')] + toks + seq![OutV::Symbol(')')] + rest;
    let after = toks + seq![OutV::Symbol(')')] + rest;
    assert(all =~= seq![OutV::Symbol('(')] + after);
    assert(all[0] == OutV::Symbol('('));
    assert(all.drop_first() =~= after);
    let f = if all.len() > 1 { Some(all[1]) } else { None };
    let s = p.push(PatV::Mark('('));
    assert(at(s, 1) == PatV::Mark('('));
    assert(rules_a(s, f) is None);
    assert(rules_b(s, f) is None);
    assert(rules_c(s, f) is None);
    assert(rules_d(s, f) is None);
    assert(rules_e(s, f) is None);
    assert(rules_f(s, f) is None);
    assert(reduce_step(s, f) == Step::Stop(s));
    assert(spec_reduce_stack(s, f) == s);
    assert(p.push(move_in_v(Some(OutV::Symbol('(')))) == s);
    assert(spec_go(p, all) == spec_go(s, after));
    assert(gstack(p, Seq::empty()) =~= s);
    assert(plain_stack(Seq::empty()) =~= seq![PatV::Start]);
    assert(clean(Seq::<PatV>::empty()));
    lemma_group_run(p, Seq::empty(), toks, rest);
}

/// The tokens of a value: an atom, or an expression in parentheses.
pub open spec fn value_toks(v: Seq<OutV>) -> bool {
    ||| v.len() == 1 && atom(v[0])
    ||| {
        &&& v.len() >= 2
        &&& v[0] == OutV::Symbol('(')
        &&& v[v.len() - 1] == OutV::Symbol(')')
        &&& is_expr_v(spec_go(seq![PatV::Start], v.subrange(1, v.len() - 1)))
    }
}

/// What a value parses to.
pub open spec fn value_pat(v: Seq<OutV>) -> PatV {
    if v.len() == 1 {
        move_in_v(Some(v[0]))
    } else {
        spec_go(seq![PatV::Start], v.subrange(1, v.len() - 1))
    }
}

/// A value above any stack pushes what it parses to, and the parser goes
/// on with the tokens after it.
pub proof fn lemma_value(p: Seq<PatV>, v: Seq<OutV>, rest: Seq<OutV>)
    requires
        p.len() >= 1,
        value_toks(v),
    ensures
        is_expr_v(value_pat(v)),
        spec_go(p, v + rest) == go_on(spec_reduce_stack(p.push(value_pat(v)), first(rest)), rest),
{
    if v.len() == 1 {
        let toks = v + rest;
        assert(toks[0] == v[0]);
        if rest.len() > 0 {
            assert(toks[1] == rest[0]);
        }
        assert(toks.drop_first() =~= rest);
    } else {
        let inner = v.subrange(1, v.len() - 1);
        assert(v + rest =~= seq![OutV::Symbol('(')] + inner + seq![OutV::Symbol(')')] + rest);
        lemma_group(p, inner, rest);
    }
}

} // verus!
