use vstd::prelude::*;

use crate::parser::define::pat::{dpats_v, dpv, DPatV, Pat};
use crate::parser::expr::pat_type::wf_type;
use crate::parser::expr::typed::{law_parsed_expressions_canonical, parse_expr, spec_parse_expr, wf_annot, wf_expr};
use crate::parser::keyword::Keyword;
use crate::parser::preprocess::{opt_out_view, outs_view, Out, OutV};
use crate::parser::types::{law_parsed_types_canonical, parse_type, spec_parse_type};

verus! {

/// The `k`-th symbol from the top of the stack (`k` = 1 is the top).
pub open spec fn dat(s: Seq<DPatV>, k: int) -> DPatV {
    s[s.len() - k]
}

/// The stack with its top `k` symbols replaced by `p`.
pub open spec fn dred(s: Seq<DPatV>, k: int, p: DPatV) -> Seq<DPatV> {
    s.subrange(0, s.len() - k).push(p)
}

/// The stack ends with `def`, an unannotated name and `:`: the tokens of
/// the annotation follow.
pub open spec fn def_colon(s: Seq<DPatV>) -> bool {
    &&& s.len() >= 3
    &&& dat(s, 3) == DPatV::Kw(Keyword::Def)
    &&& dat(s, 2) is LetName
    &&& dat(s, 2)->LetName_0 is None
    &&& dat(s, 1) == DPatV::Mark(':')
}

pub open spec fn any_top(s: Seq<DPatV>) -> bool {
    s.len() >= 1 && dat(s, 1) is AnyInSeq
}

/// The symbol pushed for the next token.
pub open spec fn dmove_in(s: Seq<DPatV>, head: Option<OutV>) -> DPatV {
    match head {
        None => DPatV::End,
        Some(x) => if def_colon(s) {
            DPatV::AnyInSeq(seq![x])
        } else if any_top(s) {
            DPatV::AnyIn(x)
        } else {
            match x {
                OutV::LetName(n) => DPatV::LetName(None, n),
                OutV::TypeName(n) => DPatV::TypeName(n),
                OutV::Kw(k) => DPatV::Kw(k),
                OutV::Symbol(c) => if c == '=' || c == ':' {
                    DPatV::Mark(c)
                } else {
                    DPatV::Fail
                },
                _ => DPatV::Fail,
            }
        },
    }
}

/// The outcome of one reduction attempt of the definition parser.
pub enum DStep {
    Stop(Seq<DPatV>),
    Again(Seq<DPatV>),
}

/// One reduction of the definition grammar on the stack `s` with the
/// lookahead token `f`.
pub open spec fn dreduce_step(s: Seq<DPatV>, f: Option<OutV>) -> DStep {
    let n = s.len();
    if n == 3 && s[0] is Start && s[2] is End {
        // Start p End -> p
        DStep::Stop(seq![s[1]])
    } else if n >= 3 && dat(s, 3) == DPatV::Kw(Keyword::Type) && dat(s, 2) is TypeName && dat(s, 1) == DPatV::Mark(
        '=',
    ) {
        // KwType TypeName `=` -> TypeDefHead End
        DStep::Again(dred(s, 3, DPatV::TypeDefHead(dat(s, 2)->TypeName_0)).push(DPatV::End))
    } else if n >= 2 && dat(s, 2) is AnyInSeq && dat(s, 1) is AnyIn {
        // AnyInSeq AnyIn -> AnyInSeq
        DStep::Again(dred(s, 2, DPatV::AnyInSeq(dat(s, 2)->AnyInSeq_0.push(dat(s, 1)->AnyIn_0))))
    } else if n >= 1 && dat(s, 1) is AnyInSeq && f == Some(OutV::Symbol('=')) {
        // AnyInSeq :`=` -> Type
        match spec_parse_type(dat(s, 1)->AnyInSeq_0) {
            Some(t) => DStep::Again(dred(s, 1, DPatV::Type(t))),
            None => DStep::Stop(seq![DPatV::Fail]),
        }
    } else if n >= 4 && dat(s, 4) == DPatV::Kw(Keyword::Def) && dat(s, 3) is LetName && dat(s, 3)->LetName_0 is None
        && dat(s, 2) == DPatV::Mark(':') && dat(s, 1) is Type {
        // KwDef: LetName `:` Type -> LetName   (untyped name)
        DStep::Again(dred(s, 3, DPatV::LetName(Some(dat(s, 1)->Type_0), dat(s, 3)->LetName_1)))
    } else if n >= 3 && dat(s, 3) == DPatV::Kw(Keyword::Def) && dat(s, 2) is LetName && dat(s, 1) == DPatV::Mark(
        '=',
    ) {
        // KwDef LetName `=` -> ExprDefHead End
        DStep::Again(dred(s, 3, DPatV::ExprDefHead(dat(s, 2)->LetName_0, dat(s, 2)->LetName_1)).push(DPatV::End))
    } else if n >= 1 && dat(s, 1) is Fail {
        DStep::Stop(seq![DPatV::Fail])
    } else if n >= 1 && dat(s, 1) is End {
        DStep::Stop(seq![DPatV::Fail])
    } else {
        DStep::Stop(s)
    }
}

pub open spec fn any_rank(s: Seq<DPatV>) -> int {
    if any_top(s) { 1 } else { 0 }
}

/// Reduction of the definition grammar repeated until it stops.
pub open spec fn spec_dreduce(s: Seq<DPatV>, f: Option<OutV>) -> Seq<DPatV>
    decreases s.len(), any_rank(s),
{
    match dreduce_step(s, f) {
        DStep::Stop(r) => r,
        DStep::Again(r) => if r.len() < s.len() || (r.len() == s.len() && any_rank(r) < any_rank(s)) {
            spec_dreduce(r, f)
        } else {
            r
        },
    }
}

/// What a single symbol left on the stack becomes: a head is completed by
/// parsing the rest of the tokens as a type or an expression.
pub open spec fn dfinish(p: DPatV, tail: Seq<OutV>) -> DPatV {
    match p {
        DPatV::TypeDefHead(n) => match spec_parse_type(tail) {
            Some(t) => DPatV::TypeDef(n, t),
            None => DPatV::Fail,
        },
        DPatV::ExprDefHead(t, n) => match spec_parse_expr(tail) {
            Some(e) => DPatV::ExprDef(n, t, e),
            None => DPatV::Fail,
        },
        _ => DPatV::Fail,
    }
}

/// The definition parser run on the tokens `toks` from the stack `stack`.
pub open spec fn spec_dgo(stack: Seq<DPatV>, toks: Seq<OutV>) -> DPatV
    decreases toks.len(),
{
    let head = if toks.len() > 0 { Some(toks[0]) } else { None };
    let follow = if toks.len() > 1 { Some(toks[1]) } else { None };
    let tail = if toks.len() > 0 { toks.drop_first() } else { toks };
    let reduced = spec_dreduce(stack.push(dmove_in(stack, head)), follow);
    if reduced.len() == 1 {
        dfinish(reduced[0], tail)
    } else if toks.len() == 0 {
        // never reached: see `lemma_dend_stops`
        DPatV::Fail
    } else {
        spec_dgo(reduced, tail)
    }
}

/// Every type carried by a symbol keeps its sum types canonical.
pub open spec fn dpat_wf(p: DPatV) -> bool {
    match p {
        DPatV::Type(t) => wf_type(t),
        DPatV::LetName(t, _) => wf_annot(t),
        DPatV::TypeDef(_, t) => wf_type(t),
        DPatV::ExprDefHead(t, _) => wf_annot(t),
        DPatV::ExprDef(_, t, e) => wf_annot(t) && wf_expr(e),
        _ => true,
    }
}

pub open spec fn dstack_wf(s: Seq<DPatV>) -> bool {
    forall|i: int| 0 <= i < s.len() ==> dpat_wf(#[trigger] s[i])
}

proof fn lemma_dstep_wf(s: Seq<DPatV>, f: Option<OutV>)
    requires
        dstack_wf(s),
    ensures
        match dreduce_step(s, f) {
            DStep::Again(x) => dstack_wf(x),
            DStep::Stop(x) => dstack_wf(x),
        },
{
    if s.len() >= 1 {
        law_parsed_types_canonical(dat(s, 1)->AnyInSeq_0);
    }
    let n = s.len();
    assert forall|k: int, p: DPatV| 0 <= k <= n && dpat_wf(p) implies dstack_wf(#[trigger] dred(s, k, p)) by {
        let r = dred(s, k, p);
        assert forall|i: int| 0 <= i < r.len() implies dpat_wf(#[trigger] r[i]) by {
            if i < r.len() - 1 {
                assert(r[i] == s[i]);
            }
        }
    }
    assert forall|x: Seq<DPatV>| dstack_wf(x) implies dstack_wf(#[trigger] x.push(DPatV::End)) by {
        assert forall|i: int| 0 <= i < x.push(DPatV::End).len() implies dpat_wf(#[trigger] x.push(DPatV::End)[i]) by {
            if i < x.len() {
                assert(x.push(DPatV::End)[i] == x[i]);
            }
        }
    }
    if n >= 1 {
        assert(dpat_wf(dat(s, 1)));
    }
    if n >= 2 {
        assert(dpat_wf(dat(s, 2)));
    }
    if n == 3 {
        assert(dpat_wf(s[1]));
    }
}

proof fn lemma_dreduce_wf(s: Seq<DPatV>, f: Option<OutV>)
    requires
        dstack_wf(s),
    ensures
        dstack_wf(spec_dreduce(s, f)),
    decreases s.len(), any_rank(s),
{
    lemma_dstep_wf(s, f);
    match dreduce_step(s, f) {
        DStep::Stop(x) => {},
        DStep::Again(x) => {
            if x.len() < s.len() || (x.len() == s.len() && any_rank(x) < any_rank(s)) {
                lemma_dreduce_wf(x, f);
            }
        },
    }
}

/// Every sum type in a definition read by the parser from a stack of
/// canonical symbols is canonical.
pub proof fn lemma_dgo_wf(stack: Seq<DPatV>, toks: Seq<OutV>)
    requires
        dstack_wf(stack),
    ensures
        dpat_wf(spec_dgo(stack, toks)),
    decreases toks.len(),
{
    let head = if toks.len() > 0 { Some(toks[0]) } else { None };
    let follow = if toks.len() > 1 { Some(toks[1]) } else { None };
    let tail = if toks.len() > 0 { toks.drop_first() } else { toks };
    let pushed = stack.push(dmove_in(stack, head));
    assert(dstack_wf(pushed)) by {
        assert forall|i: int| 0 <= i < pushed.len() implies dpat_wf(#[trigger] pushed[i]) by {
            if i < stack.len() {
                assert(pushed[i] == stack[i]);
            }
        }
    }
    lemma_dreduce_wf(pushed, follow);
    let reduced = spec_dreduce(pushed, follow);
    if reduced.len() == 1 {
        assert(dpat_wf(reduced[0]));
        law_parsed_types_canonical(tail);
        law_parsed_expressions_canonical(tail);
    } else if toks.len() > 0 {
        lemma_dgo_wf(reduced, tail);
    }
}

/// Once the end of input is on top of the stack, reduction leaves a single
/// symbol.
pub proof fn lemma_dend_stops(s: Seq<DPatV>, f: Option<OutV>)
    requires
        s.len() > 0,
        s.last() is End,
    ensures
        spec_dreduce(s, f).len() == 1,
{
}

pub proof fn lemma_dstack_view(s: Seq<Pat>)
    ensures
        dpats_v(s).len() == s.len(),
        forall|i: int| 0 <= i < s.len() ==> dpats_v(s)[i] == dpv(#[trigger] s[i]),
{
}

/// Removes the top of the stack.
fn dpop(st: &mut Vec<Pat>) -> (p: Pat)
    requires
        old(st)@.len() > 0,
    ensures
        final(st)@ == old(st)@.subrange(0, old(st)@.len() - 1),
        dpats_v(final(st)@) == dpats_v(old(st)@).subrange(0, old(st)@.len() - 1),
        p == old(st)@[old(st)@.len() - 1],
{
    let p = st.pop().unwrap();
    proof {
        assert(dpats_v(st@) =~= dpats_v(old(st)@).subrange(0, old(st)@.len() - 1));
    }
    p
}

/// Pushes a symbol on the stack.
fn dpush(st: &mut Vec<Pat>, p: Pat)
    ensures
        final(st)@ == old(st)@.push(p),
        dpats_v(final(st)@) == dpats_v(old(st)@).push(dpv(p)),
{
    let ghost g = p;
    st.push(p);
    proof {
        assert(dpats_v(st@) =~= dpats_v(old(st)@).push(dpv(g)));
    }
}

/// One reduction step: `true` when a production applied.
fn dreduce_once(st: &mut Vec<Pat>, f: &Option<Out>) -> (again: bool)
    ensures
        again ==> dreduce_step(dpats_v(old(st)@), opt_out_view(*f)) == DStep::Again(dpats_v(final(st)@)),
        again ==> final(st)@.len() < old(st)@.len() || (final(st)@.len() == old(st)@.len() && any_rank(
            dpats_v(final(st)@),
        ) < any_rank(dpats_v(old(st)@))),
        !again ==> dreduce_step(dpats_v(old(st)@), opt_out_view(*f)) == DStep::Stop(dpats_v(final(st)@)),
{
    let ghost s = dpats_v(st@);
    let n = st.len();
    proof {
        lemma_dstack_view(st@);
    }
    if n == 3 && matches!(st[0], Pat::Start) && matches!(st[2], Pat::End) {
        let _ = dpop(st);
        let p = dpop(st);
        let _ = dpop(st);
        dpush(st, p);
        proof {
            assert(dpats_v(st@) =~= seq![s[1]]);
        }
        return false;
    }
    if n >= 3 && matches!(st[n - 3], Pat::Kw(Keyword::Type)) && matches!(st[n - 2], Pat::TypeName(_))
        && matches!(st[n - 1], Pat::Mark('=')) {
        let _ = dpop(st);
        let name = dpop(st);
        let _ = dpop(st);
        proof {
            assert(dpats_v(st@) =~= s.subrange(0, n - 3));
        }
        match name {
            Pat::TypeName(nm) => dpush(st, Pat::TypeDefHead(nm)),
            _ => {},  // ruled out by the test above
        }
        dpush(st, Pat::End);
        return true;
    }
    if n >= 2 && matches!(st[n - 2], Pat::AnyInSeq(_)) && matches!(st[n - 1], Pat::AnyIn(_)) {
        let x = dpop(st);
        let sq = dpop(st);
        proof {
            assert(dpats_v(st@) =~= s.subrange(0, n - 2));
        }
        match (sq, x) {
            (Pat::AnyInSeq(v), Pat::AnyIn(o)) => {
                let ghost v0 = v@;
                let ghost go = o;
                let mut v = v;
                v.push(o);
                proof {
                    assert(outs_view(v@) =~= outs_view(v0).push(go@));
                }
                dpush(st, Pat::AnyInSeq(v));
            },
            _ => {},  // ruled out by the test above
        }
        return true;
    }
    if n >= 1 && matches!(st[n - 1], Pat::AnyInSeq(_)) && matches!(f, Some(Out::Symbol('='))) {
        let sq = dpop(st);
        proof {
            assert(dpats_v(st@) =~= s.subrange(0, n - 1));
        }
        match sq {
            Pat::AnyInSeq(v) => match parse_type(v) {
                Some(t) => {
                    dpush(st, Pat::Type(t));
                    return true;
                },
                None => {
                    *st = Vec::new();
                    dpush(st, Pat::Fail);
                    proof {
                        assert(dpats_v(st@) =~= seq![DPatV::Fail]);
                    }
                    return false;
                },
            },
            _ => {
                return true;  // ruled out by the test above
            },
        }
    }
    if n >= 4 && matches!(st[n - 4], Pat::Kw(Keyword::Def)) && matches!(st[n - 3], Pat::LetName(None, _))
        && matches!(st[n - 2], Pat::Mark(':')) && matches!(st[n - 1], Pat::Type(_)) {
        let ty = dpop(st);
        let _ = dpop(st);
        let name = dpop(st);
        proof {
            assert(dpats_v(st@) =~= s.subrange(0, n - 3));
        }
        match (name, ty) {
            (Pat::LetName(_, nm), Pat::Type(t)) => dpush(st, Pat::LetName(Some(t), nm)),
            _ => {},  // ruled out by the test above
        }
        return true;
    }
    if n >= 3 && matches!(st[n - 3], Pat::Kw(Keyword::Def)) && matches!(st[n - 2], Pat::LetName(..))
        && matches!(st[n - 1], Pat::Mark('=')) {
        let _ = dpop(st);
        let name = dpop(st);
        let _ = dpop(st);
        proof {
            assert(dpats_v(st@) =~= s.subrange(0, n - 3));
        }
        match name {
            Pat::LetName(t, nm) => dpush(st, Pat::ExprDefHead(t, nm)),
            _ => {},  // ruled out by the test above
        }
        dpush(st, Pat::End);
        return true;
    }
    if n >= 1 && (matches!(st[n - 1], Pat::Fail) || matches!(st[n - 1], Pat::End)) {
        *st = Vec::new();
        dpush(st, Pat::Fail);
        proof {
            assert(dpats_v(st@) =~= seq![DPatV::Fail]);
        }
    }
    false
}

/// Reduces the stack of the definition parser as far as the productions
/// go.
fn dreduce(stack: Vec<Pat>, f: &Option<Out>) -> (r: Vec<Pat>)
    ensures
        dpats_v(r@) == spec_dreduce(dpats_v(stack@), opt_out_view(*f)),
{
    let mut st = stack;
    let ghost goal = spec_dreduce(dpats_v(st@), opt_out_view(*f));
    loop
        invariant
            goal == spec_dreduce(dpats_v(stack@), opt_out_view(*f)),
            spec_dreduce(dpats_v(st@), opt_out_view(*f)) == goal,
        decreases st@.len(), any_rank(dpats_v(st@)),
    {
        let ghost before = dpats_v(st@);
        let again = dreduce_once(&mut st, f);
        if !again {
            proof {
                assert(spec_dreduce(before, opt_out_view(*f)) == dpats_v(st@));
            }
            return st;
        }
        proof {
            lemma_dstack_view(st@);
        }
    }
}

/// The symbol for the next token; the stack decides whether it belongs to
/// a type annotation still to be parsed.
pub fn move_in(stack: &Vec<Pat>, head: Option<Out>) -> (r: Pat)
    ensures
        dpv(r) == dmove_in(dpats_v(stack@), opt_out_view(head)),
{
    proof {
        lemma_dstack_view(stack@);
    }
    let n = stack.len();
    match head {
        None => Pat::End,
        Some(x) => {
            if n >= 3 && matches!(stack[n - 3], Pat::Kw(Keyword::Def)) && matches!(stack[n - 2], Pat::LetName(None, _))
                && matches!(stack[n - 1], Pat::Mark(':')) {
                let ghost gx = x;
                let v = vec![x];
                proof {
                    assert(outs_view(v@) =~= seq![gx@]);
                }
                Pat::AnyInSeq(v)
            } else if n >= 1 && matches!(stack[n - 1], Pat::AnyInSeq(_)) {
                Pat::AnyIn(x)
            } else {
                match x {
                    Out::LetName(nm) => Pat::LetName(None, nm),
                    Out::TypeName(nm) => Pat::TypeName(nm),
                    Out::Kw(kw) => Pat::Kw(kw),
                    Out::Symbol(c) => if c == '=' || c == ':' {
                        Pat::Mark(c)
                    } else {
                        Pat::Fail
                    },
                    _ => Pat::Fail,
                }
            }
        },
    }
}

/// Completes a head left alone on the stack by parsing the remaining tokens.
fn finish(p: Pat, tail: Vec<Out>) -> (r: Pat)
    ensures
        dpv(r) == dfinish(dpv(p), outs_view(tail@)),
{
    match p {
        Pat::TypeDefHead(n) => match parse_type(tail) {
            Some(t) => Pat::TypeDef(n, t),
            None => Pat::Fail,
        },
        Pat::ExprDefHead(t, n) => match parse_expr(tail) {
            Some(e) => Pat::ExprDef(n, t, e),
            None => Pat::Fail,
        },
        _ => Pat::Fail,
    }
}

/// Takes the next token off the front of `rest` and gives it with a copy
/// of the token after it.
fn next_tokens(rest: &mut Vec<Out>) -> (r: (Option<Out>, Option<Out>))
    ensures
        opt_out_view(r.0) == (if outs_view(old(rest)@).len() > 0 {
            Some(outs_view(old(rest)@)[0])
        } else {
            None::<OutV>
        }),
        opt_out_view(r.1) == (if outs_view(old(rest)@).len() > 1 {
            Some(outs_view(old(rest)@)[1])
        } else {
            None::<OutV>
        }),
        outs_view(final(rest)@) == (if outs_view(old(rest)@).len() > 0 {
            outs_view(old(rest)@).drop_first()
        } else {
            outs_view(old(rest)@)
        }),
        final(rest)@.len() == if old(rest)@.len() > 0 { old(rest)@.len() - 1 } else { 0 },
{
    if rest.len() == 0 {
        return (None, None);
    }
    let h = rest.remove(0);
    let f = if rest.len() > 0 { Some(rest[0].deep_clone()) } else { None };
    proof {
        assert(outs_view(rest@) =~= outs_view(old(rest)@).drop_first());
    }
    (Some(h), f)
}

/// Runs the definition parser on the tokens `seq` from the stack `stack`.
pub fn go(stack: Vec<Pat>, seq: Vec<Out>) -> (r: Pat)
    ensures
        dpv(r) == spec_dgo(dpats_v(stack@), outs_view(seq@)),
{
    let ghost goal = spec_dgo(dpats_v(stack@), outs_view(seq@));
    let mut st = stack;
    let mut rest = seq;
    loop
        invariant
            goal == spec_dgo(dpats_v(stack@), outs_view(seq@)),
            spec_dgo(dpats_v(st@), outs_view(rest@)) == goal,
        decreases rest@.len(),
    {
        let ghost toks = outs_view(rest@);
        let ghost before = st@;
        let ghost len0 = rest@.len();
        let (head, follow) = next_tokens(&mut rest);
        let p = move_in(&st, head);
        let ghost gp = p;
        dpush(&mut st, p);
        st = dreduce(st, &follow);
        if st.len() == 1 {
            proof {
                lemma_dstack_view(st@);
            }
            let top = st.pop().unwrap();
            return finish(top, rest);
        }
        proof {
            if len0 == 0 {
                lemma_dend_stops(dpats_v(before).push(dpv(gp)), opt_out_view(follow));
            }
        }
    }
}

} // verus!
