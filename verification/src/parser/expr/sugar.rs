// `let a = x, b = y, ... in body` and `let a = x in let b = y in ... body`
// parse alike.  After the bindings the two runs stand on different stacks:
// one with a single binding sequence, one with the bindings nested.  Above
// them the parser does the same in both runs until the body is closed;
// then the one rule of the first run and the rules of the second run, one
// per binding, build the same nested `let`, and from there on the runs are
// one.

use vstd::prelude::*;

use crate::parser::expr::pat::{is_expr_v, law_with_type_accepts_expressions, OptPatV, PatV};
use crate::parser::expr::rules::{
    at, expr_end, let_chain, red, reduce_step, rules_a, rules_b, rules_c, rules_d, rules_e, rules_f, rules_rest,
    spec_reduce_stack, Step,
};
use crate::parser::expr::lr::{move_in_v, spec_go};
use crate::parser::expr::parens::{clean, lemma_let_chain_expr};
use crate::parser::expr::group::{go_on, lemma_value, value_pat, value_toks};
use crate::parser::expr::typed::spec_parse_expr;
use crate::parser::keyword::Keyword;
use crate::parser::preprocess::OutV;

verus! {

/// A token that stands for an expression on its own: a number, the unit
/// or discard value, or a value name.
pub open spec fn atom(t: OutV) -> bool {
    t is IntValue || t is UnitValue || t is DiscardValue || t is LetName
}

/// The binding of the name `n` to the value `v`, as the parser records it.
pub open spec fn binding(n: Seq<char>, v: Seq<OutV>) -> (bool, Seq<char>, OptPatV, PatV) {
    (false, n, None, value_pat(v))
}

/// The bindings of the names to the values of `bs`.
pub open spec fn bindings_of(bs: Seq<(Seq<char>, Seq<OutV>)>) -> Seq<(bool, Seq<char>, OptPatV, PatV)> {
    Seq::new(bs.len(), |i: int| binding(bs[i].0, bs[i].1))
}

pub open spec fn values(bs: Seq<(Seq<char>, Seq<OutV>)>) -> bool {
    forall|i: int| 0 <= i < bs.len() ==> value_toks(#[trigger] bs[i].1)
}

pub open spec fn assign_of(x: (bool, Seq<char>, OptPatV, PatV)) -> PatV {
    PatV::Assign(x.0, x.1, x.2, Box::new(x.3))
}

/// The stack after `let a = x, b = y, ... in`.
pub open spec fn pre_seq(xs: Seq<(bool, Seq<char>, OptPatV, PatV)>) -> Seq<PatV> {
    seq![PatV::Start, PatV::Kw(Keyword::Let), PatV::AssignSeq(xs), PatV::Kw(Keyword::In)]
}

/// The stack after `let a = x in let b = y in ...`.
pub open spec fn pre_nest(xs: Seq<(bool, Seq<char>, OptPatV, PatV)>) -> Seq<PatV>
    decreases xs.len(),
{
    if xs.len() == 0 {
        seq![PatV::Start]
    } else {
        pre_nest(xs.drop_last()) + seq![PatV::Kw(Keyword::Let), assign_of(xs.last()), PatV::Kw(Keyword::In)]
    }
}

proof fn lemma_nest_shape(xs: Seq<(bool, Seq<char>, OptPatV, PatV)>)
    ensures
        pre_nest(xs).len() == 1 + 3 * xs.len(),
        pre_nest(xs)[0] is Start,
        pre_nest(xs).last() is Start || pre_nest(xs).last() == PatV::Kw(Keyword::In),
        forall|i: int| 1 <= i < pre_nest(xs).len() ==> !(#[trigger] pre_nest(xs)[i] is Start) && !(pre_nest(xs)[i] is End),
    decreases xs.len(),
{
    if xs.len() > 0 {
        let p0 = pre_nest(xs.drop_last());
        lemma_nest_shape(xs.drop_last());
        let p = pre_nest(xs);
        assert forall|i: int| 1 <= i < p.len() implies !(#[trigger] p[i] is Start) && !(p[i] is End) by {
            if i < p0.len() {
                assert(p[i] == p0[i]);
            }
        }
    }
}

/// The body above the bindings is one expression and the lookahead may
/// close it: both runs close the bindings here.
pub open spec fn closes(q: Seq<PatV>, f: Option<OutV>) -> bool {
    q.len() == 1 && is_expr_v(q[0]) && expr_end(f)
}

/// Corresponding outcomes of a reduction on the two stacks over `q`.
pub open spec fn sstep_rel(
    xs: Seq<(bool, Seq<char>, OptPatV, PatV)>,
    q: Seq<PatV>,
    a: Step,
    b: Step,
) -> bool {
    match (a, b) {
        (Step::Again(s), Step::Again(t)) => {
            &&& s.len() >= 4
            &&& s == pre_seq(xs) + s.subrange(4, s.len() as int)
            &&& t == pre_nest(xs) + s.subrange(4, s.len() as int)
            &&& clean(s.subrange(4, s.len() as int))
            &&& s.len() - 4 < q.len()
        },
        (Step::Stop(s), Step::Stop(t)) => (s == seq![PatV::Fail] && t == seq![PatV::Fail]) || (s == pre_seq(xs) + q
            && t == pre_nest(xs) + q),
        _ => false,
    }
}

pub open spec fn sopt_rel(
    xs: Seq<(bool, Seq<char>, OptPatV, PatV)>,
    q: Seq<PatV>,
    a: Option<Step>,
    b: Option<Step>,
) -> bool {
    match (a, b) {
        (None, None) => true,
        (Some(u), Some(v)) => sstep_rel(xs, q, u, v),
        _ => false,
    }
}

proof fn lemma_pre(xs: Seq<(bool, Seq<char>, OptPatV, PatV)>, q: Seq<PatV>)
    requires
        clean(q),
        xs.len() >= 2,
    ensures
        (pre_seq(xs) + q).len() == q.len() + 4,
        (pre_nest(xs) + q).len() >= q.len() + 7,
        forall|j: int| 1 <= j <= q.len() ==> #[trigger] at(pre_seq(xs) + q, j) == at(q, j),
        forall|j: int| 1 <= j <= q.len() ==> #[trigger] at(pre_nest(xs) + q, j) == at(q, j),
        at(pre_seq(xs) + q, q.len() as int + 1) == PatV::Kw(Keyword::In),
        at(pre_seq(xs) + q, q.len() as int + 2) == PatV::AssignSeq(xs),
        at(pre_seq(xs) + q, q.len() as int + 3) == PatV::Kw(Keyword::Let),
        at(pre_seq(xs) + q, q.len() as int + 4) == PatV::Start,
        at(pre_nest(xs) + q, q.len() as int + 1) == PatV::Kw(Keyword::In),
        at(pre_nest(xs) + q, q.len() as int + 2) == assign_of(xs[xs.len() - 1]),
        at(pre_nest(xs) + q, q.len() as int + 3) == PatV::Kw(Keyword::Let),
        at(pre_nest(xs) + q, q.len() as int + 4) == PatV::Kw(Keyword::In),
        at(pre_nest(xs) + q, q.len() as int + 5) == assign_of(xs[xs.len() - 2]),
        at(pre_nest(xs) + q, q.len() as int + 6) == PatV::Kw(Keyword::Let),
        at(pre_nest(xs) + q, q.len() as int + 7) is Start || at(pre_nest(xs) + q, q.len() as int + 7) == PatV::Kw(
            Keyword::In,
        ),
        (pre_nest(xs) + q)[0] is Start,
        forall|k: int, p: PatV|
            0 <= k <= q.len() ==> #[trigger] red(pre_seq(xs) + q, k, p) == pre_seq(xs) + red(q, k, p),
        forall|k: int, p: PatV|
            0 <= k <= q.len() ==> #[trigger] red(pre_nest(xs) + q, k, p) == pre_nest(xs) + red(q, k, p),
        forall|k: int, p: PatV|
            0 <= k <= q.len() && !(p is Start) && !(p is End) ==> clean(#[trigger] red(q, k, p)),
        forall|z: Seq<PatV>| #[trigger] (pre_seq(xs) + z).subrange(4, (pre_seq(xs) + z).len() as int) == z,
{
    let s1 = pre_seq(xs) + q;
    let s2 = pre_nest(xs) + q;
    let xs1 = xs.drop_last();
    let xs2 = xs1.drop_last();
    let p0 = pre_nest(xs2);
    lemma_nest_shape(xs2);
    let six = seq![
        PatV::Kw(Keyword::Let),
        assign_of(xs[xs.len() - 2]),
        PatV::Kw(Keyword::In),
        PatV::Kw(Keyword::Let),
        assign_of(xs[xs.len() - 1]),
        PatV::Kw(Keyword::In),
    ];
    assert(xs1.last() == xs[xs.len() - 2]);
    assert(xs.last() == xs[xs.len() - 1]);
    assert(pre_nest(xs) == pre_nest(xs1) + seq![PatV::Kw(Keyword::Let), assign_of(xs.last()), PatV::Kw(Keyword::In)]);
    assert(pre_nest(xs1) == p0 + seq![PatV::Kw(Keyword::Let), assign_of(xs1.last()), PatV::Kw(Keyword::In)]);
    assert(pre_nest(xs) =~= p0 + six);
    let l = p0.len() as int;
    assert(s2 =~= p0 + six + q);
    assert forall|j: int| 1 <= j <= q.len() implies #[trigger] at(s1, j) == at(q, j) by {
        assert(s1[s1.len() - j] == q[q.len() - j]);
    }
    assert forall|j: int| 1 <= j <= q.len() implies #[trigger] at(s2, j) == at(q, j) by {
        assert(s2[s2.len() - j] == q[q.len() - j]);
    }
    assert(at(s1, q.len() as int + 1) == s1[3]);
    assert(at(s1, q.len() as int + 2) == s1[2]);
    assert(at(s1, q.len() as int + 3) == s1[1]);
    assert(at(s1, q.len() as int + 4) == s1[0]);
    assert(at(s2, q.len() as int + 1) == s2[l + 5]);
    assert(at(s2, q.len() as int + 2) == s2[l + 4]);
    assert(at(s2, q.len() as int + 3) == s2[l + 3]);
    assert(at(s2, q.len() as int + 4) == s2[l + 2]);
    assert(at(s2, q.len() as int + 5) == s2[l + 1]);
    assert(at(s2, q.len() as int + 6) == s2[l]);
    assert(at(s2, q.len() as int + 7) == s2[l - 1]);
    assert(s2[l - 1] == p0.last());
    assert(s2[0] == p0[0]);
    assert forall|k: int, p: PatV| 0 <= k <= q.len() implies #[trigger] red(s1, k, p) == pre_seq(xs) + red(q, k, p) by {
        assert(red(s1, k, p) =~= pre_seq(xs) + red(q, k, p));
    }
    assert forall|k: int, p: PatV| 0 <= k <= q.len() implies #[trigger] red(s2, k, p) == pre_nest(xs) + red(q, k, p) by {
        assert(red(s2, k, p) =~= pre_nest(xs) + red(q, k, p));
    }
    assert forall|k: int, p: PatV| 0 <= k <= q.len() && !(p is Start) && !(p is End) implies clean(
        #[trigger] red(q, k, p),
    ) by {
        let r = red(q, k, p);
        assert forall|i: int| 0 <= i < r.len() implies !((#[trigger] r[i]) is Start) && !(r[i] is End) by {
            if i < r.len() - 1 {
                assert(r[i] == q[i]);
            }
        }
    }
    assert forall|z: Seq<PatV>| #[trigger] (pre_seq(xs) + z).subrange(4, (pre_seq(xs) + z).len() as int) == z by {
        assert((pre_seq(xs) + z).subrange(4, (pre_seq(xs) + z).len() as int) =~= z);
    }
}

proof fn lemma_sim_ab(xs: Seq<(bool, Seq<char>, OptPatV, PatV)>, q: Seq<PatV>, f: Option<OutV>)
    requires
        xs.len() >= 2,
        clean(q),
        !closes(q, f),
    ensures
        sopt_rel(xs, q, rules_a(pre_seq(xs) + q, f), rules_a(pre_nest(xs) + q, f)),
        sopt_rel(xs, q, rules_b(pre_seq(xs) + q, f), rules_b(pre_nest(xs) + q, f)),
{
    lemma_pre(xs, q);
}

proof fn lemma_sim_c(xs: Seq<(bool, Seq<char>, OptPatV, PatV)>, q: Seq<PatV>, f: Option<OutV>)
    requires
        xs.len() >= 2,
        clean(q),
        !closes(q, f),
    ensures
        sopt_rel(xs, q, rules_c(pre_seq(xs) + q, f), rules_c(pre_nest(xs) + q, f)),
{
    lemma_pre(xs, q);
}

proof fn lemma_sim_d(xs: Seq<(bool, Seq<char>, OptPatV, PatV)>, q: Seq<PatV>, f: Option<OutV>)
    requires
        xs.len() >= 2,
        clean(q),
        !closes(q, f),
    ensures
        sopt_rel(xs, q, rules_d(pre_seq(xs) + q, f), rules_d(pre_nest(xs) + q, f)),
{
    lemma_pre(xs, q);
    if q.len() >= 2 {
        law_with_type_accepts_expressions(*at(q, 2)->TypedExprHead_0, at(q, 1));
    }
    if q.len() >= 3 && is_expr_v(at(q, 1)) {
        lemma_let_chain_expr(at(q, 3)->AssignSeq_0, at(q, 1));
    }
}

proof fn lemma_sim_ef(xs: Seq<(bool, Seq<char>, OptPatV, PatV)>, q: Seq<PatV>, f: Option<OutV>)
    requires
        xs.len() >= 2,
        clean(q),
        !closes(q, f),
    ensures
        sopt_rel(xs, q, rules_e(pre_seq(xs) + q, f), rules_e(pre_nest(xs) + q, f)),
        sopt_rel(xs, q, rules_f(pre_seq(xs) + q, f), rules_f(pre_nest(xs) + q, f)),
{
    lemma_pre(xs, q);
}

proof fn lemma_sim_rest(xs: Seq<(bool, Seq<char>, OptPatV, PatV)>, q: Seq<PatV>)
    requires
        xs.len() >= 2,
        clean(q),
    ensures
        sstep_rel(xs, q, rules_rest(pre_seq(xs) + q), rules_rest(pre_nest(xs) + q)),
{
    lemma_pre(xs, q);
}

proof fn lemma_sim_step(xs: Seq<(bool, Seq<char>, OptPatV, PatV)>, q: Seq<PatV>, f: Option<OutV>)
    requires
        xs.len() >= 2,
        clean(q),
        !closes(q, f),
    ensures
        sstep_rel(xs, q, reduce_step(pre_seq(xs) + q, f), reduce_step(pre_nest(xs) + q, f)),
{
    lemma_sim_ab(xs, q, f);
    lemma_sim_c(xs, q, f);
    lemma_sim_d(xs, q, f);
    lemma_sim_ef(xs, q, f);
    lemma_sim_rest(xs, q);
}

/// Where the body closes, the nested bindings close one after the other
/// into the chain of `let`s.
proof fn lemma_close_nest(xs: Seq<(bool, Seq<char>, OptPatV, PatV)>, e: PatV, f: Option<OutV>)
    requires
        xs.len() >= 1,
        is_expr_v(e),
        expr_end(f),
    ensures
        spec_reduce_stack(pre_nest(xs) + seq![e], f) == spec_reduce_stack(seq![PatV::Start, let_chain(xs, e)], f),
    decreases xs.len(),
{
    let x = xs.last();
    let xs0 = xs.drop_last();
    let p = pre_nest(xs0);
    lemma_nest_shape(xs0);
    let inner = PatV::Let(None, x.0, x.1, x.2, Box::new(x.3), Box::new(e));
    let s = pre_nest(xs) + seq![e];
    assert(s =~= p + seq![PatV::Kw(Keyword::Let), assign_of(x), PatV::Kw(Keyword::In), e]);
    let t = p.push(inner);
    assert(at(s, 1) == e);
    assert(at(s, 2) == PatV::Kw(Keyword::In));
    assert(at(s, 3) == assign_of(x));
    assert(at(s, 4) == PatV::Kw(Keyword::Let));
    assert(at(s, 5) == p.last());
    assert(red(s, 4, inner) =~= t);
    assert(rules_a(s, f) is None);
    assert(rules_b(s, f) is None);
    assert(rules_c(s, f) is None);
    assert(reduce_step(s, f) == Step::Again(t));
    assert(spec_reduce_stack(s, f) == spec_reduce_stack(t, f));
    assert(let_chain(xs, e) == let_chain(xs0, inner));
    if xs0.len() == 0 {
        assert(p =~= seq![PatV::Start]);
        assert(t =~= seq![PatV::Start, inner]);
        assert(let_chain(xs0, inner) == inner);
    } else {
        assert(t =~= pre_nest(xs0) + seq![inner]);
        lemma_close_nest(xs0, inner, f);
    }
}

/// Where the body closes, both runs build the same nested `let`.
proof fn lemma_close(xs: Seq<(bool, Seq<char>, OptPatV, PatV)>, e: PatV, f: Option<OutV>)
    requires
        xs.len() >= 1,
        is_expr_v(e),
        expr_end(f),
    ensures
        spec_reduce_stack(pre_seq(xs) + seq![e], f) == spec_reduce_stack(pre_nest(xs) + seq![e], f),
{
    let done = seq![PatV::Start, let_chain(xs, e)];
    let s1 = pre_seq(xs) + seq![e];
    assert(s1 =~= seq![PatV::Start, PatV::Kw(Keyword::Let), PatV::AssignSeq(xs), PatV::Kw(Keyword::In), e]);
    assert(red(s1, 4, let_chain(xs, e)) =~= done);
    assert(rules_a(s1, f) is None);
    assert(rules_b(s1, f) is None);
    assert(rules_c(s1, f) is None);
    assert(reduce_step(s1, f) == Step::Again(done));
    lemma_close_nest(xs, e, f);
}

/// The two runs after a reduction: the same stack, or again the two
/// stacks over a common top.
pub open spec fn srel(xs: Seq<(bool, Seq<char>, OptPatV, PatV)>, rp: Seq<PatV>, rq: Seq<PatV>) -> bool {
    ||| rp == rq
    ||| {
        &&& rp.len() >= 4
        &&& rp == pre_seq(xs) + rp.subrange(4, rp.len() as int)
        &&& rq == pre_nest(xs) + rp.subrange(4, rp.len() as int)
        &&& clean(rp.subrange(4, rp.len() as int))
    }
}

proof fn lemma_sim_reduce(xs: Seq<(bool, Seq<char>, OptPatV, PatV)>, q: Seq<PatV>, f: Option<OutV>)
    requires
        xs.len() >= 2,
        clean(q),
    ensures
        srel(xs, spec_reduce_stack(pre_seq(xs) + q, f), spec_reduce_stack(pre_nest(xs) + q, f)),
    decreases q.len(),
{
    lemma_pre(xs, q);
    if closes(q, f) {
        assert(q =~= seq![q[0]]);
        lemma_close(xs, q[0], f);
    } else {
        lemma_sim_step(xs, q, f);
        match reduce_step(pre_seq(xs) + q, f) {
            Step::Stop(s) => {},
            Step::Again(s) => {
                let z = s.subrange(4, s.len() as int);
                lemma_sim_reduce(xs, z, f);
            },
        }
    }
}

/// With the end of input on top, the stacks over the bindings fail.
proof fn lemma_end_fails(s: Seq<PatV>)
    requires
        s.len() >= 5,
        s.last() is End,
    ensures
        spec_reduce_stack(s, None) == seq![PatV::Fail],
{
    assert(rules_a(s, None) is None);
    assert(rules_b(s, None) is None);
    assert(rules_c(s, None) is None);
    assert(rules_d(s, None) is None);
    assert(rules_e(s, None) is None);
    assert(rules_f(s, None) is None);
}

/// The rest of the two runs, over the common top `q`, ends alike.
proof fn lemma_sim_run(xs: Seq<(bool, Seq<char>, OptPatV, PatV)>, q: Seq<PatV>, toks: Seq<OutV>)
    requires
        xs.len() >= 2,
        clean(q),
    ensures
        spec_go(pre_seq(xs) + q, toks) == spec_go(pre_nest(xs) + q, toks),
    decreases toks.len(),
{
    lemma_pre(xs, q);
    if toks.len() == 0 {
        lemma_end_fails((pre_seq(xs) + q).push(PatV::End));
        lemma_end_fails((pre_nest(xs) + q).push(PatV::End));
    } else {
        let t = move_in_v(Some(toks[0]));
        let f = if toks.len() > 1 { Some(toks[1]) } else { None };
        let q1 = q.push(t);
        assert((pre_seq(xs) + q).push(t) =~= pre_seq(xs) + q1);
        assert((pre_nest(xs) + q).push(t) =~= pre_nest(xs) + q1);
        assert(clean(q1)) by {
            assert forall|i: int| 0 <= i < q1.len() implies !((#[trigger] q1[i]) is Start) && !(q1[i] is End) by {
                if i < q.len() {
                    assert(q1[i] == q[i]);
                }
            }
        }
        lemma_sim_reduce(xs, q1, f);
        let rp = spec_reduce_stack(pre_seq(xs) + q1, f);
        let rq = spec_reduce_stack(pre_nest(xs) + q1, f);
        if rp != rq {
            let z = rp.subrange(4, rp.len() as int);
            lemma_sim_run(xs, z, toks.drop_first());
        }
    }
}

pub open spec fn first(r: Seq<OutV>) -> Option<OutV> {
    if r.len() > 0 { Some(r[0]) } else { None }
}

proof fn lemma_go_cons(stack: Seq<PatV>, t: OutV, rest: Seq<OutV>, reduced: Seq<PatV>)
    requires
        spec_reduce_stack(stack.push(move_in_v(Some(t))), first(rest)) == reduced,
        reduced.len() > 1,
    ensures
        spec_go(stack, seq![t] + rest) == spec_go(reduced, rest),
{
    let toks = seq![t] + rest;
    assert(toks[0] == t);
    if rest.len() > 0 {
        assert(toks[1] == rest[0]);
    }
    assert(toks.drop_first() =~= rest);
}

proof fn lemma_stays(s: Seq<PatV>, f: Option<OutV>)
    requires
        s.len() >= 2,
        rules_a(s, f) is None,
        rules_b(s, f) is None,
        rules_c(s, f) is None,
        rules_d(s, f) is None,
        rules_e(s, f) is None,
        rules_f(s, f) is None,
        !(at(s, 1) is Fail),
        !(at(s, 1) is End),
    ensures
        spec_reduce_stack(s, f) == s,
{
}

pub open spec fn kw_tok(k: Keyword) -> OutV {
    OutV::Kw(k)
}

/// The stack inside `let` after the bindings `ys` and their commas.
pub open spec fn bound(ys: Seq<(bool, Seq<char>, OptPatV, PatV)>) -> Seq<PatV> {
    if ys.len() == 0 {
        seq![PatV::Start, PatV::Kw(Keyword::Let)]
    } else if ys.len() == 1 {
        seq![PatV::Start, PatV::Kw(Keyword::Let), assign_of(ys[0])]
    } else {
        seq![PatV::Start, PatV::Kw(Keyword::Let), PatV::AssignSeq(ys)]
    }
}

/// The tokens `a = v` and the separator after them.
pub open spec fn bind_toks(a: Seq<char>, v: Seq<OutV>, sep: OutV) -> Seq<OutV> {
    seq![OutV::LetName(a), OutV::Symbol('=')] + v + seq![sep]
}

/// The bindings of `bs` separated by commas and closed by `in`.
pub open spec fn seq_binds(bs: Seq<(Seq<char>, Seq<OutV>)>) -> Seq<OutV>
    decreases bs.len(),
{
    if bs.len() == 0 {
        Seq::empty()
    } else if bs.len() == 1 {
        bind_toks(bs[0].0, bs[0].1, kw_tok(Keyword::In))
    } else {
        bind_toks(bs[0].0, bs[0].1, OutV::Symbol(',')) + seq_binds(bs.drop_first())
    }
}

/// The bindings of `bs`, each in a `let ... in` of its own.
pub open spec fn nest_binds(bs: Seq<(Seq<char>, Seq<OutV>)>) -> Seq<OutV>
    decreases bs.len(),
{
    if bs.len() == 0 {
        Seq::empty()
    } else {
        seq![kw_tok(Keyword::Let)] + bind_toks(bs[0].0, bs[0].1, kw_tok(Keyword::In)) + nest_binds(bs.drop_first())
    }
}

/// A new binding joins the bindings before it.
proof fn lemma_combine(ys: Seq<(bool, Seq<char>, OptPatV, PatV)>, x: (bool, Seq<char>, OptPatV, PatV), f: Option<OutV>)
    ensures
        spec_reduce_stack(bound(ys).push(assign_of(x)), f) == bound(ys.push(x)),
{
    let s = bound(ys).push(assign_of(x));
    let r = bound(ys.push(x));
    if ys.len() == 0 {
        assert(s =~= r);
        assert(at(s, 1) == assign_of(x));
        assert(at(s, 2) == PatV::Kw(Keyword::Let));
        lemma_stays(s, f);
    } else {
        if ys.len() == 1 {
            assert(s =~= seq![PatV::Start, PatV::Kw(Keyword::Let), assign_of(ys[0]), assign_of(x)]);
            assert(seq![ys[0], x] =~= ys.push(x));
        } else {
            assert(s =~= seq![PatV::Start, PatV::Kw(Keyword::Let), PatV::AssignSeq(ys), assign_of(x)]);
        }
        assert(red(s, 2, PatV::AssignSeq(ys.push(x))) =~= r);
        assert(rules_a(s, f) is None);
        assert(reduce_step(s, f) == Step::Again(r));
        assert(at(r, 1) == PatV::AssignSeq(ys.push(x)));
        assert(at(r, 2) == PatV::Kw(Keyword::Let));
        lemma_stays(r, f);
    }
}

proof fn lemma_first(t: OutV, rest: Seq<OutV>)
    ensures
        first(seq![t] + rest) == Some(t),
{
    assert((seq![t] + rest)[0] == t);
}

/// `a = v` and the separator after it, inside the `let`.
proof fn lemma_bind_step(ys: Seq<(bool, Seq<char>, OptPatV, PatV)>, a: Seq<char>, v: Seq<OutV>, sep: OutV, rest: Seq<OutV>)
    requires
        value_toks(v),
        sep == OutV::Symbol(',') || sep == kw_tok(Keyword::In),
    ensures
        sep == OutV::Symbol(',') ==> spec_go(bound(ys), bind_toks(a, v, sep) + rest) == spec_go(
            bound(ys.push(binding(a, v))),
            rest,
        ),
        sep == kw_tok(Keyword::In) ==> spec_go(bound(ys), bind_toks(a, v, sep) + rest) == spec_go(
            bound(ys.push(binding(a, v))).push(PatV::Kw(Keyword::In)),
            rest,
        ),
{
    let x = binding(a, v);
    let pvv = value_pat(v);
    let r3 = seq![sep] + rest;
    let r2 = v + r3;
    let r1 = seq![OutV::Symbol('=')] + r2;
    assert(bind_toks(a, v, sep) + rest =~= seq![OutV::LetName(a)] + r1);
    lemma_first(OutV::Symbol('='), r2);
    lemma_first(sep, rest);
    let b = bound(ys);
    let s1 = b.push(PatV::LetName(None, a));
    lemma_stays(s1, first(r1));
    lemma_go_cons(b, OutV::LetName(a), r1, s1);
    let s2 = s1.push(PatV::Mark('='));
    lemma_stays(s2, first(r2));
    lemma_go_cons(s1, OutV::Symbol('='), r2, s2);
    lemma_value(s2, v, r3);
    let t3 = s2.push(pvv);
    let nb = bound(ys.push(x));
    assert(first(r3) == Some(sep));
    if sep == OutV::Symbol(',') {
        lemma_stays(t3, first(r3));
        assert(go_on(t3, r3) == spec_go(t3, r3));
        let t4 = t3.push(PatV::Mark(','));
        let f = first(rest);
        assert(red(t4, 4, assign_of(x)) =~= b.push(assign_of(x)));
        assert(rules_a(t4, f) is None);
        assert(reduce_step(t4, f) == Step::Again(b.push(assign_of(x))));
        lemma_combine(ys, x, f);
        assert(spec_reduce_stack(t4, f) == nb);
        lemma_go_cons(t3, OutV::Symbol(','), rest, nb);
    } else {
        let f = first(r3);
        assert(red(t3, 3, assign_of(x)) =~= b.push(assign_of(x)));
        assert(rules_a(t3, f) is None);
        assert(rules_b(t3, f) is None);
        assert(rules_c(t3, f) is None);
        assert(reduce_step(t3, f) == Step::Again(b.push(assign_of(x))));
        lemma_combine(ys, x, f);
        assert(spec_reduce_stack(t3, f) == nb);
        assert(go_on(nb, r3) == spec_go(nb, r3));
        let t4 = nb.push(PatV::Kw(Keyword::In));
        lemma_stays(t4, first(rest));
        lemma_go_cons(nb, kw_tok(Keyword::In), rest, t4);
    }
}

/// The bindings of `bs`, separated by commas and closed by `in`, after
/// the bindings `ys`.
proof fn lemma_seq_run(ys: Seq<(bool, Seq<char>, OptPatV, PatV)>, bs: Seq<(Seq<char>, Seq<OutV>)>, rest: Seq<OutV>)
    requires
        bs.len() >= 1,
        values(bs),
    ensures
        spec_go(bound(ys), seq_binds(bs) + rest) == spec_go(
            bound(ys + bindings_of(bs)).push(PatV::Kw(Keyword::In)),
            rest,
        ),
    decreases bs.len(),
{
    let x = binding(bs[0].0, bs[0].1);
    assert(value_toks(bs[0].1));
    if bs.len() == 1 {
        lemma_bind_step(ys, bs[0].0, bs[0].1, kw_tok(Keyword::In), rest);
        assert(ys + bindings_of(bs) =~= ys.push(x));
    } else {
        let bs1 = bs.drop_first();
        assert(seq_binds(bs) + rest =~= bind_toks(bs[0].0, bs[0].1, OutV::Symbol(',')) + (seq_binds(bs1) + rest));
        lemma_bind_step(ys, bs[0].0, bs[0].1, OutV::Symbol(','), seq_binds(bs1) + rest);
        assert(values(bs1)) by {
            assert forall|i: int| 0 <= i < bs1.len() implies value_toks(#[trigger] bs1[i].1) by {
                assert(bs1[i] == bs[i + 1]);
            }
        }
        lemma_seq_run(ys.push(x), bs1, rest);
        assert(ys.push(x) + bindings_of(bs1) =~= ys + bindings_of(bs));
    }
}

/// The bindings of `bs`, each in a `let ... in` of its own, above the
/// nested bindings `ys`.
proof fn lemma_nest_step(ys: Seq<(bool, Seq<char>, OptPatV, PatV)>, a: Seq<char>, v: Seq<OutV>, r5: Seq<OutV>)
    requires
        value_toks(v),
    ensures
        spec_go(pre_nest(ys), seq![kw_tok(Keyword::Let)] + bind_toks(a, v, kw_tok(Keyword::In)) + r5) == spec_go(
            pre_nest(ys.push(binding(a, v))),
            r5,
        ),
{
    let x = binding(a, v);
    let pvv = value_pat(v);
    let r4 = seq![kw_tok(Keyword::In)] + r5;
    let r3 = v + r4;
    let r2 = seq![OutV::Symbol('=')] + r3;
    let r1 = seq![OutV::LetName(a)] + r2;
    assert(seq![kw_tok(Keyword::Let)] + bind_toks(a, v, kw_tok(Keyword::In)) + r5 =~= seq![kw_tok(Keyword::Let)] + r1);
    lemma_first(OutV::LetName(a), r2);
    lemma_first(OutV::Symbol('='), r3);
    lemma_first(kw_tok(Keyword::In), r5);
    let p = pre_nest(ys);
    lemma_nest_shape(ys);
    let s0 = p.push(PatV::Kw(Keyword::Let));
    assert(at(s0, 2) == p.last());
    lemma_stays(s0, first(r1));
    lemma_go_cons(p, kw_tok(Keyword::Let), r1, s0);
    let s1 = s0.push(PatV::LetName(None, a));
    lemma_stays(s1, first(r2));
    lemma_go_cons(s0, OutV::LetName(a), r2, s1);
    let s2 = s1.push(PatV::Mark('='));
    lemma_stays(s2, first(r3));
    lemma_go_cons(s1, OutV::Symbol('='), r3, s2);
    lemma_value(s2, v, r4);
    let t3 = s2.push(pvv);
    let f = first(r4);
    assert(f == Some(kw_tok(Keyword::In)));
    let s3 = s0.push(assign_of(x));
    assert(at(t3, 5) == p.last());
    assert(red(t3, 3, assign_of(x)) =~= s3);
    assert(rules_a(t3, f) is None);
    assert(rules_b(t3, f) is None);
    assert(rules_c(t3, f) is None);
    assert(reduce_step(t3, f) == Step::Again(s3));
    assert(at(s3, 2) == PatV::Kw(Keyword::Let));
    lemma_stays(s3, f);
    assert(spec_reduce_stack(t3, f) == s3);
    assert(go_on(s3, r4) == spec_go(s3, r4));
    let s4 = s3.push(PatV::Kw(Keyword::In));
    assert(ys.push(x).drop_last() =~= ys);
    assert(s4 =~= pre_nest(ys.push(x)));
    lemma_stays(s4, first(r5));
    lemma_go_cons(s3, kw_tok(Keyword::In), r5, s4);
}

proof fn lemma_nest_run(ys: Seq<(bool, Seq<char>, OptPatV, PatV)>, bs: Seq<(Seq<char>, Seq<OutV>)>, rest: Seq<OutV>)
    requires
        values(bs),
    ensures
        spec_go(pre_nest(ys), nest_binds(bs) + rest) == spec_go(pre_nest(ys + bindings_of(bs)), rest),
    decreases bs.len(),
{
    if bs.len() == 0 {
        assert(nest_binds(bs) + rest =~= rest);
        assert(ys + bindings_of(bs) =~= ys);
    } else {
        let a = bs[0].0;
        let v = bs[0].1;
        assert(value_toks(v));
        let x = binding(a, v);
        let bs1 = bs.drop_first();
        let r5 = nest_binds(bs1) + rest;
        assert(nest_binds(bs) + rest =~= seq![kw_tok(Keyword::Let)] + bind_toks(a, v, kw_tok(Keyword::In)) + r5);
        lemma_nest_step(ys, a, v, r5);
        assert(values(bs1)) by {
            assert forall|i: int| 0 <= i < bs1.len() implies value_toks(#[trigger] bs1[i].1) by {
                assert(bs1[i] == bs[i + 1]);
            }
        }
        lemma_nest_run(ys.push(x), bs1, rest);
        assert(ys.push(x) + bindings_of(bs1) =~= ys + bindings_of(bs));
    }
}

/// Bindings of names to values (numbers, names, `()`, `_`, or any
/// expression in parentheses) may share one `let`:
/// `let a = x, b = y, ... in body` parses as
/// `let a = x in let b = y in ... in body`, whatever the tokens of the body.
pub proof fn law_let_sugar(bs: Seq<(Seq<char>, Seq<OutV>)>, body: Seq<OutV>)
    requires
        bs.len() >= 1,
        values(bs),
    ensures
        spec_parse_expr(seq![kw_tok(Keyword::Let)] + seq_binds(bs) + body) == spec_parse_expr(nest_binds(bs) + body),
{
    let empty = Seq::<(bool, Seq<char>, OptPatV, PatV)>::empty();
    if bs.len() == 1 {
        assert(bs.drop_first().len() == 0);
        assert(nest_binds(bs.drop_first()) =~= Seq::<OutV>::empty());
        assert(seq![kw_tok(Keyword::Let)] + seq_binds(bs) + body =~= nest_binds(bs) + body);
    } else {
        let xs = bindings_of(bs);
        // the shared `let`
        let toks1 = seq![kw_tok(Keyword::Let)] + seq_binds(bs) + body;
        let rest1 = seq_binds(bs) + body;
        assert(toks1 =~= seq![kw_tok(Keyword::Let)] + rest1);
        assert(seq_binds(bs) =~= bind_toks(bs[0].0, bs[0].1, OutV::Symbol(',')) + seq_binds(bs.drop_first()));
        assert(rest1[0] == OutV::LetName(bs[0].0));
        assert(first(rest1) == Some(OutV::LetName(bs[0].0)));
        let s0 = seq![PatV::Start, PatV::Kw(Keyword::Let)];
        assert(seq![PatV::Start].push(move_in_v(Some(kw_tok(Keyword::Let)))) =~= s0);
        lemma_stays(s0, first(rest1));
        lemma_go_cons(seq![PatV::Start], kw_tok(Keyword::Let), rest1, s0);
        assert(bound(empty) == s0);
        lemma_seq_run(empty, bs, body);
        assert(empty + xs =~= xs);
        assert(bound(xs).push(PatV::Kw(Keyword::In)) =~= pre_seq(xs));
        // the nested `let`s
        assert(pre_nest(empty) == seq![PatV::Start]);
        lemma_nest_run(empty, bs, body);
        // the body
        assert(clean(Seq::<PatV>::empty()));
        lemma_sim_run(xs, Seq::empty(), body);
        assert(pre_seq(xs) + Seq::<PatV>::empty() =~= pre_seq(xs));
        assert(pre_nest(xs) + Seq::<PatV>::empty() =~= pre_nest(xs));
    }
}

} // verus!
