use vstd::prelude::*;

use crate::parser::expr::pat::{Pat, PatV};
use crate::parser::expr::reduce::reduce_stack;
use crate::parser::expr::rules::{reduce_step, rules_b, rules_c, rules_d, rules_e, rules_f, spec_reduce_stack};
use crate::parser::expr::views::{lemma_pats_push, lemma_stack_view, pats_v};
use crate::parser::preprocess::{opt_out_view, outs_view, Out, OutV};

verus! {

/// The symbols a mark may stand for in an expression.
pub open spec fn expr_mark(c: char) -> bool {
    c == '(' || c == ')' || c == '-' || c == '>' || c == '{' || c == '}' || c == '=' || c == ',' || c == '|'
        || c == ':'
}

/// The symbol pushed on the stack for the next token; `End` once the
/// tokens are used up.
pub open spec fn move_in_v(head: Option<OutV>) -> PatV {
    match head {
        Some(OutV::LetName(n)) => PatV::LetName(None, n),
        Some(OutV::TypeName(n)) => PatV::TypeName(n),
        Some(OutV::Kw(k)) => PatV::Kw(k),
        Some(OutV::IntValue(i)) => PatV::Int(None, i),
        Some(OutV::UnitValue) => PatV::Unit(None),
        Some(OutV::DiscardValue) => PatV::Discard(None),
        Some(OutV::Symbol(c)) => if expr_mark(c) {
            PatV::Mark(c)
        } else {
            PatV::Fail
        },
        None => PatV::End,
    }
}

/// The parser run on the tokens `toks` from the stack `stack`: move the
/// next token in, reduce with the token after it as lookahead, and go on
/// until a single symbol is left with no token to follow.
pub open spec fn spec_go(stack: Seq<PatV>, toks: Seq<OutV>) -> PatV
    decreases toks.len(),
{
    let head = if toks.len() > 0 { Some(toks[0]) } else { None };
    let follow = if toks.len() > 1 { Some(toks[1]) } else { None };
    let reduced = spec_reduce_stack(stack.push(move_in_v(head)), follow);
    if reduced.len() == 1 && follow is None {
        reduced[0]
    } else if toks.len() == 0 {
        // never reached: see `lemma_end_stops`
        PatV::Fail
    } else {
        spec_go(reduced, toks.drop_first())
    }
}

/// Once the end of input is on top of the stack, reduction always leaves
/// a single symbol: the parsed pattern or a failure.
pub proof fn lemma_end_stops(s: Seq<PatV>)
    requires
        s.len() > 0,
        s.last() is End,
    ensures
        spec_reduce_stack(s, None).len() == 1,
{
    let st = reduce_step(s, None);
    assert(rules_b(s, None) is None);
    assert(rules_c(s, None) is None);
    assert(rules_d(s, None) is None);
    assert(rules_e(s, None) is None);
    assert(rules_f(s, None) is None);
    assert(st is Stop && st->Stop_0.len() == 1);
}

/// The parser never runs past the end of its input.
pub proof fn lemma_go_ends(stack: Seq<PatV>)
    ensures
        spec_go(stack, Seq::empty()) == spec_reduce_stack(stack.push(PatV::End), None)[0],
{
    lemma_end_stops(stack.push(PatV::End));
}

/// The symbol for the next token; the stack it goes on is not consulted.
pub fn move_in(stack: &Vec<Pat>, head: Option<Out>) -> (r: Pat)
    ensures
        r@ == move_in_v(opt_out_view(head)),
{
    proof {
        lemma_stack_view(Seq::<Pat>::empty());
    }
    match head {
        Some(o) => match o {
            Out::LetName(n) => Pat::LetName(None, n),
            Out::TypeName(n) => Pat::TypeName(n),
            Out::Kw(kw) => Pat::Kw(kw),
            Out::IntValue(i) => Pat::Int(None, i),
            Out::UnitValue => Pat::Unit(None),
            Out::DiscardValue => Pat::Discard(None),
            Out::Symbol(c) => {
                if c == '(' || c == ')' || c == '-' || c == '>' || c == '{' || c == '}' || c == '=' || c == ','
                    || c == '|' || c == ':' {
                    Pat::Mark(c)
                } else {
                    Pat::Fail
                }
            },
        },
        None => Pat::End,
    }
}

/// Runs the parser on the tokens `seq` from the stack `stack` and gives the
/// symbol it ends with.
pub fn go(stack: Vec<Pat>, seq: Vec<Out>) -> (r: Pat)
    ensures
        r@ == spec_go(pats_v(stack@), outs_view(seq@)),
{
    let n = seq.len();
    let ghost toks = outs_view(seq@);
    let ghost goal = spec_go(pats_v(stack@), toks);
    let mut st = stack;
    let mut i: usize = 0;
    proof {
        assert(toks.subrange(0, n as int) =~= toks);
    }
    loop
        invariant
            n == seq.len(),
            toks == outs_view(seq@),
            toks.len() == n,
            i <= n,
            goal == spec_go(pats_v(stack@), outs_view(seq@)),
            spec_go(pats_v(st@), toks.subrange(i as int, n as int)) == goal,
        decreases n - i,
    {
        let ghost rest = toks.subrange(i as int, n as int);
        let head = if i < n { Some(seq[i].deep_clone()) } else { None };
        let follow = if i < n && i + 1 < n { Some(seq[i + 1].deep_clone()) } else { None };
        proof {
            if i < n {
                assert(rest[0] == seq@[i as int]@);
            }
            if i + 1 < n {
                assert(rest[1] == seq@[i + 1]@);
            }
            assert(opt_out_view(head) == (if rest.len() > 0 { Some(rest[0]) } else { None::<OutV> }));
            assert(opt_out_view(follow) == (if rest.len() > 1 { Some(rest[1]) } else { None::<OutV> }));
        }
        let ghost before = st@;
        let p = move_in(&st, head);
        let ghost gp = p;
        st.push(p);
        proof {
            lemma_pats_push(before, gp);
        }
        st = reduce_stack(st, &follow);
        if st.len() == 1 && follow.is_none() {
            proof {
                lemma_stack_view(st@);
            }
            return st.pop().unwrap();
        }
        proof {
            if i >= n {
                lemma_end_stops(pats_v(before).push(gp@));
            }
            assert(rest.drop_first() =~= toks.subrange(i + 1, n as int));
        }
        i = i + 1;
    }
}

} // verus!
