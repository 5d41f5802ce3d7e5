use vstd::prelude::*;

use crate::parser::expr::pat::{Pat, PatV};
use crate::parser::expr::rules::at;
use crate::parser::expr::views::{lemma_pats_push, pats_v};

verus! {

/// Removes the top of the parser stack.
pub fn pop_pat(st: &mut Vec<Pat>) -> (p: Pat)
    requires
        old(st)@.len() > 0,
    ensures
        final(st)@.len() == old(st)@.len() - 1,
        pats_v(final(st)@) == pats_v(old(st)@).subrange(0, old(st)@.len() - 1),
        final(st)@ == old(st)@.subrange(0, old(st)@.len() - 1),
        p@ == at(pats_v(old(st)@), 1),
        p == old(st)@[old(st)@.len() - 1],
{
    let p = st.pop().unwrap();
    proof {
        assert(pats_v(st@) =~= pats_v(old(st)@).subrange(0, old(st)@.len() - 1));
    }
    p
}

/// Pushes a symbol on the parser stack.
pub fn push_pat(st: &mut Vec<Pat>, p: Pat)
    ensures
        final(st)@.len() == old(st)@.len() + 1,
        pats_v(final(st)@) == pats_v(old(st)@).push(p@),
{
    let ghost g = p;
    st.push(p);
    proof {
        lemma_pats_push(old(st)@, g);
    }
}

/// Removes the two symbols on top of the stack, deepest first.
pub fn pop_top2(st: &mut Vec<Pat>) -> (r: (Pat, Pat))
    requires
        old(st)@.len() >= 2,
    ensures
        final(st)@.len() == old(st)@.len() - 2,
        pats_v(final(st)@) == pats_v(old(st)@).subrange(0, old(st)@.len() - 2),
        final(st)@ == old(st)@.subrange(0, old(st)@.len() - 2),
        r.0@ == at(pats_v(old(st)@), 2),
        r.1@ == at(pats_v(old(st)@), 1),
        r.0 == old(st)@[old(st)@.len() - 2],
        r.1 == old(st)@[old(st)@.len() - 1],
{
    let b = pop_pat(st);
    let a = pop_pat(st);
    proof {
        assert(pats_v(st@) =~= pats_v(old(st)@).subrange(0, old(st)@.len() - 2));
    }
    (a, b)
}

/// Removes the three symbols on top of the stack, deepest first.
pub fn pop_top3(st: &mut Vec<Pat>) -> (r: (Pat, Pat, Pat))
    requires
        old(st)@.len() >= 3,
    ensures
        final(st)@.len() == old(st)@.len() - 3,
        pats_v(final(st)@) == pats_v(old(st)@).subrange(0, old(st)@.len() - 3),
        final(st)@ == old(st)@.subrange(0, old(st)@.len() - 3),
        r.0@ == at(pats_v(old(st)@), 3),
        r.1@ == at(pats_v(old(st)@), 2),
        r.2@ == at(pats_v(old(st)@), 1),
        r.0 == old(st)@[old(st)@.len() - 3],
        r.1 == old(st)@[old(st)@.len() - 2],
        r.2 == old(st)@[old(st)@.len() - 1],
{
    let c = pop_pat(st);
    let (a, b) = pop_top2(st);
    proof {
        assert(pats_v(st@) =~= pats_v(old(st)@).subrange(0, old(st)@.len() - 3));
    }
    (a, b, c)
}

/// Removes the four symbols on top of the stack, deepest first.
pub fn pop_top4(st: &mut Vec<Pat>) -> (r: (Pat, Pat, Pat, Pat))
    requires
        old(st)@.len() >= 4,
    ensures
        final(st)@.len() == old(st)@.len() - 4,
        pats_v(final(st)@) == pats_v(old(st)@).subrange(0, old(st)@.len() - 4),
        final(st)@ == old(st)@.subrange(0, old(st)@.len() - 4),
        r.0@ == at(pats_v(old(st)@), 4),
        r.1@ == at(pats_v(old(st)@), 3),
        r.2@ == at(pats_v(old(st)@), 2),
        r.3@ == at(pats_v(old(st)@), 1),
        r.0 == old(st)@[old(st)@.len() - 4],
        r.1 == old(st)@[old(st)@.len() - 3],
        r.2 == old(st)@[old(st)@.len() - 2],
        r.3 == old(st)@[old(st)@.len() - 1],
{
    let (c, d) = pop_top2(st);
    let (a, b) = pop_top2(st);
    proof {
        assert(pats_v(st@) =~= pats_v(old(st)@).subrange(0, old(st)@.len() - 4));
    }
    (a, b, c, d)
}

/// Replaces the whole stack by a single failure.
pub fn fail_stack(st: &mut Vec<Pat>)
    ensures
        pats_v(final(st)@) == seq![PatV::Fail],
{
    *st = Vec::new();
    push_pat(st, Pat::Fail);
    proof {
        assert(pats_v(st@) =~= seq![PatV::Fail]);
    }
}

} // verus!
