// A type written as alternatives `A | B | ...` parses to the sum of the
// set of the names: the order in which the names are written, and any
// repetition among them, do not change the type.

use vstd::prelude::*;

use crate::parser::expr::pat::{is_type_v, PatV};
use crate::parser::expr::pat_type::{pat_type, pat_types};
use crate::parser::expr::psum::{
    insert_pat, lemma_insert_same, lemma_pat_types_char, lemma_same_push, lemma_same_trans, lemma_same_types,
    same_alternatives,
};
use crate::parser::expr::rules::{at, red, reduce_step, rules_a, rules_b, rules_c, rules_d, rules_e, rules_f, spec_reduce_stack, Step};
use crate::parser::expr::lr::{move_in_v, spec_go};
use crate::parser::expr::sugar::first;
use crate::parser::expr::group::{go_on, lemma_group};
use crate::parser::preprocess::OutV;
use crate::parser::types::{canon_types, law_sum_is_a_set, spec_parse_type, TypeV};

verus! {

/// `| m` for each name `m` of `ms`.
pub open spec fn alt_tail(ms: Seq<Seq<char>>) -> Seq<OutV>
    decreases ms.len(),
{
    if ms.len() == 0 {
        Seq::empty()
    } else {
        seq![OutV::Symbol('|'), OutV::TypeName(ms[0])] + alt_tail(ms.drop_first())
    }
}

/// The tokens of the names `ns` written as alternatives: `n0 | n1 | ...`.
pub open spec fn alt_tokens(ns: Seq<Seq<char>>) -> Seq<OutV> {
    seq![OutV::TypeName(ns[0])] + alt_tail(ns.drop_first())
}

pub open spec fn name_pats(ns: Seq<Seq<char>>) -> Seq<PatV> {
    Seq::new(ns.len(), |i: int| PatV::TypeName(ns[i]))
}

pub open spec fn name_types(ns: Seq<Seq<char>>) -> Seq<TypeV> {
    Seq::new(ns.len(), |i: int| TypeV::Namely(ns[i]))
}

/// The pattern after one more alternative `m`.
pub open spec fn next_alt(x: PatV, m: Seq<char>) -> PatV {
    match x {
        PatV::SumType(c) => PatV::SumType(insert_pat(c, PatV::TypeName(m))),
        _ => PatV::SumType(insert_pat(seq![x], PatV::TypeName(m))),
    }
}

pub open spec fn run_alts(x: PatV, ms: Seq<Seq<char>>) -> PatV
    decreases ms.len(),
{
    if ms.len() == 0 {
        x
    } else {
        run_alts(next_alt(x, ms[0]), ms.drop_first())
    }
}

proof fn lemma_alt_run(x: PatV, ms: Seq<Seq<char>>)
    requires
        is_type_v(x),
    ensures
        spec_go(seq![PatV::Start, x], alt_tail(ms)) == run_alts(x, ms),
    decreases ms.len(),
{
    let s = seq![PatV::Start, x];
    if ms.len() == 0 {
        let e = s.push(PatV::End);
        assert(e =~= seq![PatV::Start, x, PatV::End]);
        assert(reduce_step(e, None) == Step::Stop(seq![x]));
        assert(alt_tail(ms) =~= Seq::<OutV>::empty());
    } else {
        let m = ms[0];
        let rest = alt_tail(ms.drop_first());
        let toks = alt_tail(ms);
        let r1 = seq![OutV::TypeName(m)] + rest;
        assert(toks =~= seq![OutV::Symbol('|')] + r1);
        assert(toks[0] == OutV::Symbol('|'));
        assert(toks[1] == OutV::TypeName(m));
        assert(toks.drop_first() =~= r1);
        // `|` waits
        let s1 = s.push(PatV::Mark('|'));
        let f1 = Some(OutV::TypeName(m));
        assert(at(s1, 1) == PatV::Mark('|'));
        assert(at(s1, 2) == x);
        assert(rules_a(s1, f1) is None);
        assert(rules_b(s1, f1) is None);
        assert(rules_c(s1, f1) is None);
        assert(rules_d(s1, f1) is None);
        assert(rules_e(s1, f1) is None);
        assert(rules_f(s1, f1) is None);
        assert(reduce_step(s1, f1) == Step::Stop(s1));
        assert(spec_reduce_stack(s1, f1) == s1);
        assert(seq![PatV::Start, x].push(move_in_v(Some(OutV::Symbol('|')))) == s1);
        assert(spec_go(s, toks) == spec_go(s1, r1));
        // the name joins the sum
        let f2 = first(rest);
        if rest.len() > 0 {
            assert(r1[1] == rest[0]);
        }
        assert(r1[0] == OutV::TypeName(m));
        assert(r1.drop_first() =~= rest);
        let s2 = s1.push(PatV::TypeName(m));
        let y = next_alt(x, m);
        let s3 = seq![PatV::Start, y];
        assert(at(s2, 1) == PatV::TypeName(m));
        assert(at(s2, 2) == PatV::Mark('|'));
        assert(at(s2, 3) == x);
        assert(red(s2, 3, y) =~= s3);
        assert(rules_a(s2, f2) is None);
        assert(rules_b(s2, f2) is None);
        assert(rules_c(s2, f2) is None);
        assert(rules_d(s2, f2) is None);
        assert(reduce_step(s2, f2) == Step::Again(s3));
        assert(at(s3, 1) == y);
        assert(at(s3, 2) == PatV::Start);
        assert(rules_a(s3, f2) is None);
        assert(rules_b(s3, f2) is None);
        assert(rules_c(s3, f2) is None);
        assert(rules_d(s3, f2) is None);
        assert(rules_e(s3, f2) is None);
        assert(rules_f(s3, f2) is None);
        assert(reduce_step(s3, f2) == Step::Stop(s3));
        assert(spec_reduce_stack(s3, f2) == s3);
        assert(spec_reduce_stack(s2, f2) == s3);
        assert(spec_go(s1, r1) == spec_go(s3, rest));
        lemma_alt_run(y, ms.drop_first());
    }
}

proof fn lemma_alt_types(c: Seq<PatV>, pre: Seq<Seq<char>>, ms: Seq<Seq<char>>)
    requires
        same_alternatives(c, name_pats(pre)),
    ensures
        pat_type(run_alts(PatV::SumType(c), ms)) == pat_type(PatV::SumType(name_pats(pre + ms))),
    decreases ms.len(),
{
    if ms.len() == 0 {
        assert(pre + ms =~= pre);
        lemma_same_types(c, name_pats(pre));
    } else {
        let t = PatV::TypeName(ms[0]);
        lemma_insert_same(c, t);
        lemma_same_push(c, name_pats(pre), t);
        lemma_same_trans(insert_pat(c, t), c.push(t), name_pats(pre).push(t));
        assert(name_pats(pre).push(t) =~= name_pats(pre.push(ms[0])));
        assert(pre.push(ms[0]) + ms.drop_first() =~= pre + ms);
        lemma_alt_types(insert_pat(c, t), pre.push(ms[0]), ms.drop_first());
    }
}

proof fn lemma_names_type(ns: Seq<Seq<char>>)
    ensures
        pat_type(PatV::SumType(name_pats(ns))) == Some(TypeV::Sum(canon_types(name_types(ns)))),
{
    lemma_pat_types_char(name_pats(ns));
    assert(pat_types(name_pats(ns)) is Some);
    assert(pat_types(name_pats(ns))->Some_0 =~= name_types(ns));
}

/// Alternatives `n0 | n1 | ...` of two or more type names parse to the sum
/// of the set of those names: names written in another order, or with
/// repetitions, give the same type.
pub proof fn law_alternatives_are_a_set(ns1: Seq<Seq<char>>, ns2: Seq<Seq<char>>)
    requires
        ns1.len() >= 2,
        ns2.len() >= 2,
        forall|n: Seq<char>| ns1.contains(n) <==> ns2.contains(n),
    ensures
        spec_parse_type(alt_tokens(ns1)) == Some(TypeV::Sum(canon_types(name_types(ns1)))),
        spec_parse_type(alt_tokens(ns1)) == spec_parse_type(alt_tokens(ns2)),
{
    lemma_parse_alts(ns1);
    lemma_parse_alts(ns2);
    let a = name_types(ns1);
    let b = name_types(ns2);
    assert forall|u: TypeV| a.contains(u) <==> b.contains(u) by {
        if a.contains(u) {
            let i = choose|i: int| 0 <= i < a.len() && a[i] == u;
            assert(ns1.contains(ns1[i]));
            let j = choose|j: int| 0 <= j < ns2.len() && ns2[j] == ns1[i];
            assert(b[j] == u);
        }
        if b.contains(u) {
            let j = choose|j: int| 0 <= j < b.len() && b[j] == u;
            assert(ns2.contains(ns2[j]));
            let i = choose|i: int| 0 <= i < ns1.len() && ns1[i] == ns2[j];
            assert(a[i] == u);
        }
    }
    law_sum_is_a_set(a, b);
}

proof fn lemma_parse_alts(ns: Seq<Seq<char>>)
    requires
        ns.len() >= 2,
    ensures
        spec_parse_type(alt_tokens(ns)) == Some(TypeV::Sum(canon_types(name_types(ns)))),
{
    let toks = alt_tokens(ns);
    let rest = alt_tail(ns.drop_first());
    let ms = ns.drop_first();
    assert(rest =~= seq![OutV::Symbol('|'), OutV::TypeName(ms[0])] + alt_tail(ms.drop_first()));
    assert(toks[0] == OutV::TypeName(ns[0]));
    assert(toks[1] == OutV::Symbol('|'));
    assert(toks.drop_first() =~= rest);
    let s1 = seq![PatV::Start, PatV::TypeName(ns[0])];
    let f = Some(OutV::Symbol('|'));
    assert(seq![PatV::Start].push(move_in_v(Some(OutV::TypeName(ns[0])))) =~= s1);
    assert(at(s1, 1) == PatV::TypeName(ns[0]));
    assert(at(s1, 2) == PatV::Start);
    assert(rules_a(s1, f) is None);
    assert(rules_b(s1, f) is None);
    assert(rules_c(s1, f) is None);
    assert(rules_d(s1, f) is None);
    assert(rules_e(s1, f) is None);
    assert(rules_f(s1, f) is None);
    assert(reduce_step(s1, f) == Step::Stop(s1));
    assert(spec_go(seq![PatV::Start], toks) == spec_go(s1, rest));
    lemma_alt_run(PatV::TypeName(ns[0]), ms);
    // the first two names form the sum
    let t0 = PatV::TypeName(ns[0]);
    let t1 = PatV::TypeName(ms[0]);
    let c = insert_pat(seq![t0], t1);
    assert(run_alts(t0, ms) == run_alts(PatV::SumType(c), ms.drop_first()));
    lemma_insert_same(seq![t0], t1);
    assert(seq![t0].push(t1) =~= name_pats(seq![ns[0], ms[0]]));
    lemma_alt_types(c, seq![ns[0], ms[0]], ms.drop_first());
    assert(seq![ns[0], ms[0]] + ms.drop_first() =~= ns);
    lemma_names_type(ns);
}

/// The parser on alternatives of names.
proof fn lemma_go_alts(ns: Seq<Seq<char>>)
    requires
        ns.len() >= 1,
    ensures
        spec_go(seq![PatV::Start], alt_tokens(ns)) == run_alts(PatV::TypeName(ns[0]), ns.drop_first()),
{
    let toks = alt_tokens(ns);
    let rest = alt_tail(ns.drop_first());
    let ms = ns.drop_first();
    assert(toks[0] == OutV::TypeName(ns[0]));
    assert(toks.drop_first() =~= rest);
    let s1 = seq![PatV::Start, PatV::TypeName(ns[0])];
    let f = if toks.len() > 1 { Some(toks[1]) } else { None };
    if ms.len() > 0 {
        assert(rest =~= seq![OutV::Symbol('|'), OutV::TypeName(ms[0])] + alt_tail(ms.drop_first()));
        assert(toks[1] == OutV::Symbol('|'));
    } else {
        assert(rest =~= Seq::<OutV>::empty());
        assert(toks.len() == 1);
    }
    assert(seq![PatV::Start].push(move_in_v(Some(OutV::TypeName(ns[0])))) =~= s1);
    assert(at(s1, 1) == PatV::TypeName(ns[0]));
    assert(at(s1, 2) == PatV::Start);
    assert(rules_a(s1, f) is None);
    assert(rules_b(s1, f) is None);
    assert(rules_c(s1, f) is None);
    assert(rules_d(s1, f) is None);
    assert(rules_e(s1, f) is None);
    assert(rules_f(s1, f) is None);
    assert(reduce_step(s1, f) == Step::Stop(s1));
    assert(spec_go(seq![PatV::Start], toks) == spec_go(s1, rest));
    lemma_alt_run(PatV::TypeName(ns[0]), ms);
}

proof fn lemma_run_alts_type(x: PatV, ms: Seq<Seq<char>>)
    requires
        is_type_v(x),
    ensures
        is_type_v(run_alts(x, ms)),
    decreases ms.len(),
{
    if ms.len() > 0 {
        lemma_run_alts_type(next_alt(x, ms[0]), ms.drop_first());
    }
}

/// Alternatives grouped in parentheses and followed by more alternatives
/// give the same type as all the alternatives written in a row.
pub proof fn law_grouped_alternatives(ns1: Seq<Seq<char>>, ns2: Seq<Seq<char>>)
    requires
        ns1.len() >= 2,
        ns2.len() >= 1,
    ensures
        spec_parse_type(seq![OutV::Symbol('(')] + alt_tokens(ns1) + seq![OutV::Symbol(')')] + alt_tail(ns2))
            == spec_parse_type(alt_tokens(ns1 + ns2)),
{
    let start = seq![PatV::Start];
    lemma_go_alts(ns1);
    let ms = ns1.drop_first();
    let t0 = PatV::TypeName(ns1[0]);
    let t1 = PatV::TypeName(ms[0]);
    let c = insert_pat(seq![t0], t1);
    let x = run_alts(t0, ms);
    assert(x == run_alts(PatV::SumType(c), ms.drop_first()));
    lemma_run_alts_type(PatV::SumType(c), ms.drop_first());
    assert(spec_go(start, alt_tokens(ns1)) == x);
    let rest = alt_tail(ns2);
    lemma_group(start, alt_tokens(ns1), rest);
    assert(rest =~= seq![OutV::Symbol('|'), OutV::TypeName(ns2[0])] + alt_tail(ns2.drop_first()));
    assert(rest[0] == OutV::Symbol('|'));
    let f = first(rest);
    let s = seq![PatV::Start, x];
    assert(start.push(x) =~= s);
    assert(at(s, 1) == x);
    assert(at(s, 2) == PatV::Start);
    assert(rules_a(s, f) is None);
    assert(rules_b(s, f) is None);
    assert(rules_c(s, f) is None);
    assert(rules_d(s, f) is None);
    assert(rules_e(s, f) is None);
    assert(rules_f(s, f) is None);
    assert(reduce_step(s, f) == Step::Stop(s));
    assert(go_on(s, rest) == spec_go(s, rest));
    lemma_alt_run(x, ns2);
    // all the alternatives in a row
    let all = ns1 + ns2;
    lemma_go_alts(all);
    assert(all[0] == ns1[0]);
    assert(all.drop_first() =~= ms + ns2);
    assert(run_alts(t0, ms + ns2) == run_alts(PatV::SumType(c), (ms + ns2).drop_first()));
    assert((ms + ns2).drop_first() =~= ms.drop_first() + ns2);
    lemma_run_alts_concat(PatV::SumType(c), ms.drop_first(), ns2);
}

proof fn lemma_run_alts_concat(x: PatV, m1: Seq<Seq<char>>, m2: Seq<Seq<char>>)
    ensures
        run_alts(x, m1 + m2) == run_alts(run_alts(x, m1), m2),
    decreases m1.len(),
{
    if m1.len() == 0 {
        assert(m1 + m2 =~= m2);
    } else {
        assert((m1 + m2)[0] == m1[0]);
        assert((m1 + m2).drop_first() =~= m1.drop_first() + m2);
        lemma_run_alts_concat(next_alt(x, m1[0]), m1.drop_first(), m2);
    }
}

/// The alternatives after the head `h ->` of a closure type: the closure
/// type is closed only at the end, over the whole sum.
proof fn lemma_alt_run_arrow(h: PatV, x: PatV, ms: Seq<Seq<char>>)
    requires
        is_type_v(h),
        is_type_v(x),
        ms.len() >= 1,
    ensures
        spec_go(seq![PatV::Start, PatV::ClosureTypeHead(Box::new(h)), x], alt_tail(ms)) == PatV::ClosureType(
            Box::new(h),
            Box::new(run_alts(x, ms)),
        ),
    decreases ms.len(),
{
    let cth = PatV::ClosureTypeHead(Box::new(h));
    let s = seq![PatV::Start, cth, x];
    let m = ms[0];
    let ms1 = ms.drop_first();
    let rest = alt_tail(ms1);
    let toks = alt_tail(ms);
    let r1 = seq![OutV::TypeName(m)] + rest;
    assert(toks =~= seq![OutV::Symbol('|')] + r1);
    assert(toks[0] == OutV::Symbol('|'));
    assert(toks[1] == OutV::TypeName(m));
    assert(toks.drop_first() =~= r1);
    // `|` waits
    let s1 = s.push(PatV::Mark('|'));
    let f1 = Some(OutV::TypeName(m));
    assert(at(s1, 1) == PatV::Mark('|'));
    assert(at(s1, 2) == x);
    assert(at(s1, 3) == cth);
    assert(rules_a(s1, f1) is None);
    assert(rules_b(s1, f1) is None);
    assert(rules_c(s1, f1) is None);
    assert(rules_d(s1, f1) is None);
    assert(rules_e(s1, f1) is None);
    assert(rules_f(s1, f1) is None);
    assert(reduce_step(s1, f1) == Step::Stop(s1));
    assert(spec_reduce_stack(s1, f1) == s1);
    assert(s.push(move_in_v(Some(OutV::Symbol('|')))) == s1);
    assert(spec_go(s, toks) == spec_go(s1, r1));
    // the name joins the sum
    let f2 = first(rest);
    if rest.len() > 0 {
        assert(r1[1] == rest[0]);
        assert(rest =~= seq![OutV::Symbol('|'), OutV::TypeName(ms1[0])] + alt_tail(ms1.drop_first()));
        assert(rest[0] == OutV::Symbol('|'));
    } else {
        assert(rest =~= Seq::<OutV>::empty());
    }
    assert(r1[0] == OutV::TypeName(m));
    assert(r1.drop_first() =~= rest);
    let s2 = s1.push(PatV::TypeName(m));
    let y = next_alt(x, m);
    let s3 = seq![PatV::Start, cth, y];
    assert(at(s2, 1) == PatV::TypeName(m));
    assert(at(s2, 2) == PatV::Mark('|'));
    assert(at(s2, 3) == x);
    assert(at(s2, 4) == cth);
    assert(red(s2, 3, y) =~= s3);
    assert(rules_a(s2, f2) is None);
    assert(rules_b(s2, f2) is None);
    assert(rules_c(s2, f2) is None);
    assert(rules_d(s2, f2) is None);
    assert(reduce_step(s2, f2) == Step::Again(s3));
    assert(at(s3, 1) == y);
    assert(at(s3, 2) == cth);
    assert(rules_a(s3, f2) is None);
    assert(rules_b(s3, f2) is None);
    assert(rules_c(s3, f2) is None);
    assert(rules_d(s3, f2) is None);
    if ms1.len() > 0 {
        // another `|` follows: the closure type stays open
        assert(rules_e(s3, f2) is None);
        assert(rules_f(s3, f2) is None);
        assert(reduce_step(s3, f2) == Step::Stop(s3));
        assert(spec_reduce_stack(s3, f2) == s3);
        assert(spec_reduce_stack(s2, f2) == s3);
        assert(spec_go(s1, r1) == spec_go(s3, rest));
        lemma_alt_run_arrow(h, y, ms1);
        assert(run_alts(x, ms) == run_alts(y, ms1));
    } else {
        // the end: the closure type closes over the sum
        let ct = PatV::ClosureType(Box::new(h), Box::new(y));
        let s4 = seq![PatV::Start, ct];
        assert(red(s3, 2, ct) =~= s4);
        assert(reduce_step(s3, f2) == Step::Again(s4));
        assert(at(s4, 1) == ct);
        assert(at(s4, 2) == PatV::Start);
        assert(rules_a(s4, f2) is None);
        assert(rules_b(s4, f2) is None);
        assert(rules_c(s4, f2) is None);
        assert(rules_d(s4, f2) is None);
        assert(rules_e(s4, f2) is None);
        assert(rules_f(s4, f2) is None);
        assert(reduce_step(s4, f2) == Step::Stop(s4));
        assert(spec_reduce_stack(s4, f2) == s4);
        assert(spec_reduce_stack(s3, f2) == s4);
        assert(spec_reduce_stack(s2, f2) == s4);
        assert(spec_go(s1, r1) == spec_go(s4, rest));
        let e = s4.push(PatV::End);
        assert(e =~= seq![PatV::Start, ct, PatV::End]);
        assert(reduce_step(e, None) == Step::Stop(seq![ct]));
        assert(spec_go(s4, rest) == ct);
        assert(run_alts(y, ms1) == y);
    }
}

/// The tokens of the closure type from the name `a` to the alternatives
/// of `ns`: `a -> n0 | n1 | ...`.
pub open spec fn arrow_alt_tokens(a: Seq<char>, ns: Seq<Seq<char>>) -> Seq<OutV> {
    seq![OutV::TypeName(a), OutV::Symbol('-'), OutV::Symbol('>')] + alt_tokens(ns)
}

/// The result type of an arrow takes in every alternative after it: `|`
/// does not close a closure type, so `a -> n0 | n1 | ...` is the closure
/// type from `a` to the sum of the names.
pub proof fn law_arrow_takes_whole_sum(a: Seq<char>, ns: Seq<Seq<char>>)
    requires
        ns.len() >= 2,
    ensures
        spec_parse_type(arrow_alt_tokens(a, ns)) == Some(
            TypeV::Closure(Box::new(TypeV::Namely(a)), Box::new(TypeV::Sum(canon_types(name_types(ns))))),
        ),
{
    let ta = PatV::TypeName(a);
    let cth = PatV::ClosureTypeHead(Box::new(ta));
    let toks = arrow_alt_tokens(a, ns);
    let ms = ns.drop_first();
    let tail = alt_tail(ms);
    assert(tail =~= seq![OutV::Symbol('|'), OutV::TypeName(ms[0])] + alt_tail(ms.drop_first()));
    let r3 = alt_tokens(ns);
    let r2 = seq![OutV::Symbol('>')] + r3;
    let r1 = seq![OutV::Symbol('-')] + r2;
    assert(toks =~= seq![OutV::TypeName(a)] + r1);
    // `a`
    let s1 = seq![PatV::Start, ta];
    assert(toks[0] == OutV::TypeName(a));
    assert(toks[1] == OutV::Symbol('-'));
    assert(toks.drop_first() =~= r1);
    assert(seq![PatV::Start].push(move_in_v(Some(OutV::TypeName(a)))) =~= s1);
    assert(at(s1, 1) == ta);
    let f1 = Some(OutV::Symbol('-'));
    assert(rules_a(s1, f1) is None);
    assert(rules_b(s1, f1) is None);
    assert(rules_c(s1, f1) is None);
    assert(rules_d(s1, f1) is None);
    assert(rules_e(s1, f1) is None);
    assert(rules_f(s1, f1) is None);
    assert(reduce_step(s1, f1) == Step::Stop(s1));
    assert(spec_go(seq![PatV::Start], toks) == spec_go(s1, r1));
    // `-`
    let s2 = s1.push(PatV::Mark('-'));
    assert(r1[0] == OutV::Symbol('-'));
    assert(r1[1] == OutV::Symbol('>'));
    assert(r1.drop_first() =~= r2);
    let f2 = Some(OutV::Symbol('>'));
    assert(at(s2, 1) == PatV::Mark('-'));
    assert(at(s2, 2) == ta);
    assert(rules_a(s2, f2) is None);
    assert(rules_b(s2, f2) is None);
    assert(rules_c(s2, f2) is None);
    assert(rules_d(s2, f2) is None);
    assert(rules_e(s2, f2) is None);
    assert(rules_f(s2, f2) is None);
    assert(reduce_step(s2, f2) == Step::Stop(s2));
    assert(spec_go(s1, r1) == spec_go(s2, r2));
    // `>`: the arrow and then the head of the closure type
    let t3 = s2.push(PatV::Mark('>'));
    assert(r2[0] == OutV::Symbol('>'));
    assert(r2[1] == OutV::TypeName(ns[0]));
    assert(r2.drop_first() =~= r3);
    let f3 = Some(OutV::TypeName(ns[0]));
    let u3 = s1.push(PatV::Arrow);
    let s3 = seq![PatV::Start, cth];
    assert(at(t3, 1) == PatV::Mark('>'));
    assert(at(t3, 2) == PatV::Mark('-'));
    assert(red(t3, 2, PatV::Arrow) =~= u3);
    assert(reduce_step(t3, f3) == Step::Again(u3));
    assert(at(u3, 1) == PatV::Arrow);
    assert(at(u3, 2) == ta);
    assert(red(u3, 2, cth) =~= s3);
    assert(rules_a(u3, f3) is None);
    assert(rules_b(u3, f3) is None);
    assert(rules_c(u3, f3) is None);
    assert(rules_d(u3, f3) is None);
    assert(reduce_step(u3, f3) == Step::Again(s3));
    assert(at(s3, 1) == cth);
    assert(rules_a(s3, f3) is None);
    assert(rules_b(s3, f3) is None);
    assert(rules_c(s3, f3) is None);
    assert(rules_d(s3, f3) is None);
    assert(rules_e(s3, f3) is None);
    assert(rules_f(s3, f3) is None);
    assert(reduce_step(s3, f3) == Step::Stop(s3));
    assert(spec_reduce_stack(s3, f3) == s3);
    assert(spec_reduce_stack(u3, f3) == s3);
    assert(spec_reduce_stack(t3, f3) == s3);
    assert(spec_go(s2, r2) == spec_go(s3, r3));
    // the first name waits for the `|`
    let t0 = PatV::TypeName(ns[0]);
    let s4 = s3.push(t0);
    assert(r3[0] == OutV::TypeName(ns[0]));
    assert(r3[1] == OutV::Symbol('|'));
    assert(r3.drop_first() =~= tail);
    let f4 = Some(OutV::Symbol('|'));
    assert(at(s4, 1) == t0);
    assert(at(s4, 2) == cth);
    assert(rules_a(s4, f4) is None);
    assert(rules_b(s4, f4) is None);
    assert(rules_c(s4, f4) is None);
    assert(rules_d(s4, f4) is None);
    assert(rules_e(s4, f4) is None);
    assert(rules_f(s4, f4) is None);
    assert(reduce_step(s4, f4) == Step::Stop(s4));
    assert(spec_go(s3, r3) == spec_go(s4, tail));
    assert(s4 =~= seq![PatV::Start, cth, t0]);
    lemma_alt_run_arrow(ta, t0, ms);
    // the type of the sum
    let t1 = PatV::TypeName(ms[0]);
    let c = insert_pat(seq![t0], t1);
    assert(run_alts(t0, ms) == run_alts(PatV::SumType(c), ms.drop_first()));
    lemma_insert_same(seq![t0], t1);
    assert(seq![t0].push(t1) =~= name_pats(seq![ns[0], ms[0]]));
    lemma_alt_types(c, seq![ns[0], ms[0]], ms.drop_first());
    assert(seq![ns[0], ms[0]] + ms.drop_first() =~= ns);
    lemma_names_type(ns);
    let body = run_alts(t0, ms);
    assert(spec_go(seq![PatV::Start], toks) == PatV::ClosureType(Box::new(ta), Box::new(body)));
    assert(pat_type(body) == pat_type(PatV::SumType(name_pats(ns))));
    assert(pat_type(ta) == Some(TypeV::Namely(a)));
    assert(pat_type(PatV::ClosureType(Box::new(ta), Box::new(body))) == Some(
        TypeV::Closure(Box::new(TypeV::Namely(a)), Box::new(TypeV::Sum(canon_types(name_types(ns))))),
    ));
}

proof fn lemma_keeps(s: Seq<PatV>, f: Option<OutV>)
    requires
        s.len() >= 2,
        rules_a(s, f) is None,
        rules_b(s, f) is None,
        rules_c(s, f) is None,
        rules_d(s, f) is None,
        rules_e(s, f) is None,
        rules_f(s, f) is None,
        !(at(s, 1) is Fail),
        !(at(s, 1) is End),
    ensures
        spec_reduce_stack(s, f) == s,
{
}

proof fn lemma_step_go(stack: Seq<PatV>, t: OutV, rest: Seq<OutV>, reduced: Seq<PatV>)
    requires
        spec_reduce_stack(stack.push(move_in_v(Some(t))), first(rest)) == reduced,
        reduced.len() > 1,
    ensures
        spec_go(stack, seq![t] + rest) == spec_go(reduced, rest),
{
    let toks = seq![t] + rest;
    assert(toks[0] == t);
    if rest.len() > 0 {
        assert(toks[1] == rest[0]);
    }
    assert(toks.drop_first() =~= rest);
}

/// `-` and `>` after a type on top of `s` make it the head of a closure
/// type.
proof fn lemma_arrow_head(s: Seq<PatV>, x: PatV, rest: Seq<OutV>)
    requires
        s.len() >= 1,
        is_type_v(x),
        s.last() is Start || s.last() is ClosureTypeHead,
        rest.len() >= 1,
        rest[0] is TypeName,
    ensures
        spec_go(s.push(x), seq![OutV::Symbol('-'), OutV::Symbol('>')] + rest) == spec_go(
            s.push(PatV::ClosureTypeHead(Box::new(x))),
            rest,
        ),
{
    let r2 = seq![OutV::Symbol('>')] + rest;
    assert(seq![OutV::Symbol('-'), OutV::Symbol('>')] + rest =~= seq![OutV::Symbol('-')] + r2);
    assert(r2[0] == OutV::Symbol('>'));
    assert(rest[0] == (seq![OutV::Symbol('>')] + rest)[1]);
    let s1 = s.push(x);
    let s2 = s1.push(PatV::Mark('-'));
    let f2 = first(r2);
    assert(f2 == Some(OutV::Symbol('>')));
    assert(at(s2, 1) == PatV::Mark('-'));
    assert(at(s2, 2) == x);
    lemma_keeps(s2, f2);
    lemma_step_go(s1, OutV::Symbol('-'), r2, s2);
    let f3 = first(rest);
    assert(f3 == Some(rest[0]));
    let t3 = s2.push(PatV::Mark('>'));
    let u3 = s1.push(PatV::Arrow);
    let cth = PatV::ClosureTypeHead(Box::new(x));
    let s3 = s.push(cth);
    assert(at(t3, 1) == PatV::Mark('>'));
    assert(at(t3, 2) == PatV::Mark('-'));
    assert(red(t3, 2, PatV::Arrow) =~= u3);
    assert(reduce_step(t3, f3) == Step::Again(u3));
    assert(at(u3, 1) == PatV::Arrow);
    assert(at(u3, 2) == x);
    assert(red(u3, 2, cth) =~= s3);
    assert(rules_a(u3, f3) is None);
    assert(rules_b(u3, f3) is None);
    assert(rules_c(u3, f3) is None);
    assert(rules_d(u3, f3) is None);
    assert(reduce_step(u3, f3) == Step::Again(s3));
    assert(at(s3, 1) == cth);
    assert(at(s3, 2) == s.last());
    lemma_keeps(s3, f3);
    assert(spec_reduce_stack(u3, f3) == s3);
    assert(spec_reduce_stack(t3, f3) == s3);
    lemma_step_go(s2, OutV::Symbol('>'), rest, s3);
}

/// Arrows group to the right: `a -> b -> c` is the closure type from `a`
/// to the closure type from `b` to `c`.
pub proof fn law_arrows_group_right(a: Seq<char>, b: Seq<char>, c: Seq<char>)
    ensures
        spec_parse_type(
            seq![
                OutV::TypeName(a),
                OutV::Symbol('-'),
                OutV::Symbol('>'),
                OutV::TypeName(b),
                OutV::Symbol('-'),
                OutV::Symbol('>'),
                OutV::TypeName(c),
            ],
        ) == Some(
            TypeV::Closure(
                Box::new(TypeV::Namely(a)),
                Box::new(TypeV::Closure(Box::new(TypeV::Namely(b)), Box::new(TypeV::Namely(c)))),
            ),
        ),
{
    let ta = PatV::TypeName(a);
    let tb = PatV::TypeName(b);
    let tc = PatV::TypeName(c);
    let arrow = seq![OutV::Symbol('-'), OutV::Symbol('>')];
    let rc = seq![OutV::TypeName(c)];
    let rb = seq![OutV::TypeName(b)] + arrow + rc;
    let ra = arrow + rb;
    let toks = seq![
        OutV::TypeName(a),
        OutV::Symbol('-'),
        OutV::Symbol('>'),
        OutV::TypeName(b),
        OutV::Symbol('-'),
        OutV::Symbol('>'),
        OutV::TypeName(c),
    ];
    assert(toks =~= seq![OutV::TypeName(a)] + ra);
    let st = seq![PatV::Start];
    let s1 = st.push(ta);
    assert(ra[0] == OutV::Symbol('-'));
    assert(at(s1, 1) == ta);
    lemma_keeps(s1, first(ra));
    lemma_step_go(st, OutV::TypeName(a), ra, s1);
    assert(rb[0] == OutV::TypeName(b));
    lemma_arrow_head(st, ta, rb);
    let ha = PatV::ClosureTypeHead(Box::new(ta));
    let p = st.push(ha);
    let rb1 = arrow + rc;
    assert(rb =~= seq![OutV::TypeName(b)] + rb1);
    let s2 = p.push(tb);
    assert(rb1[0] == OutV::Symbol('-'));
    assert(at(s2, 1) == tb);
    assert(at(s2, 2) == ha);
    lemma_keeps(s2, first(rb1));
    lemma_step_go(p, OutV::TypeName(b), rb1, s2);
    assert(rc[0] == OutV::TypeName(c));
    lemma_arrow_head(p, tb, rc);
    let hb = PatV::ClosureTypeHead(Box::new(tb));
    let q = p.push(hb);
    // `c` closes both closure types
    let t3 = q.push(tc);
    let inner = PatV::ClosureType(Box::new(tb), Box::new(tc));
    let whole = PatV::ClosureType(Box::new(ta), Box::new(inner));
    let u3 = p.push(inner);
    let s3 = st.push(whole);
    assert(at(t3, 1) == tc);
    assert(at(t3, 2) == hb);
    assert(red(t3, 2, inner) =~= u3);
    assert(rules_a(t3, None) is None);
    assert(rules_b(t3, None) is None);
    assert(rules_c(t3, None) is None);
    assert(rules_d(t3, None) is None);
    assert(reduce_step(t3, None) == Step::Again(u3));
    assert(at(u3, 1) == inner);
    assert(at(u3, 2) == ha);
    assert(red(u3, 2, whole) =~= s3);
    assert(rules_a(u3, None) is None);
    assert(rules_b(u3, None) is None);
    assert(rules_c(u3, None) is None);
    assert(rules_d(u3, None) is None);
    assert(reduce_step(u3, None) == Step::Again(s3));
    assert(at(s3, 1) == whole);
    lemma_keeps(s3, None);
    assert(spec_reduce_stack(u3, None) == s3);
    assert(spec_reduce_stack(t3, None) == s3);
    assert(rc =~= seq![OutV::TypeName(c)] + Seq::<OutV>::empty());
    lemma_step_go(q, OutV::TypeName(c), Seq::empty(), s3);
    let e = s3.push(PatV::End);
    assert(e =~= seq![PatV::Start, whole, PatV::End]);
    assert(reduce_step(e, None) == Step::Stop(seq![whole]));
    assert(spec_go(s3, Seq::empty()) == whole);
    assert(spec_go(q, rc) == whole);
    assert(spec_go(s2, rb1) == whole);
    assert(spec_go(p, rb) == whole);
    assert(spec_go(s1, ra) == whole);
    assert(spec_go(st, toks) == whole);
    assert(pat_type(ta) == Some(TypeV::Namely(a)));
    assert(pat_type(tb) == Some(TypeV::Namely(b)));
    assert(pat_type(tc) == Some(TypeV::Namely(c)));
    assert(pat_type(inner) == Some(TypeV::Closure(Box::new(TypeV::Namely(b)), Box::new(TypeV::Namely(c)))));
    assert(pat_type(whole) == Some(
        TypeV::Closure(
            Box::new(TypeV::Namely(a)),
            Box::new(TypeV::Closure(Box::new(TypeV::Namely(b)), Box::new(TypeV::Namely(c)))),
        ),
    ));
}

} // verus!
