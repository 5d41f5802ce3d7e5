use vstd::prelude::*;

use crate::parser::define::{parse_define, spec_parse_define, Define, DefineV};
use crate::parser::keyword::spec_is_top_level;
use crate::parser::preprocess::{no_blanks, outs_view, Out, OutV};

verus! {

/// A token that opens a top-level definition.
pub open spec fn opens_def(x: OutV) -> bool {
    x matches OutV::Kw(k) && spec_is_top_level(k)
}

/// One step of the split: a token that opens a definition closes the
/// current group (dropping a blank at its end) and starts a new one; any
/// other token joins the current group.
pub open spec fn split_step(a: Seq<Seq<OutV>>, p: Seq<OutV>, x: OutV) -> (Seq<Seq<OutV>>, Seq<OutV>) {
    if opens_def(x) {
        if p.len() == 0 {
            (a, seq![x])
        } else {
            let q = if p.last() == OutV::Symbol(' ') { p.drop_last() } else { p };
            (a.push(q), seq![x])
        }
    } else {
        (a, p.push(x))
    }
}

/// The closed groups and the current group after the tokens `s`.
pub open spec fn split_state(s: Seq<OutV>) -> (Seq<Seq<OutV>>, Seq<OutV>)
    decreases s.len(),
{
    if s.len() == 0 {
        (Seq::empty(), Seq::empty())
    } else {
        let st = split_state(s.drop_last());
        split_step(st.0, st.1, s.last())
    }
}

/// The tokens of a program split into one group per top-level definition.
pub open spec fn spec_split(s: Seq<OutV>) -> Seq<Seq<OutV>> {
    let st = split_state(s);
    if st.1.len() == 0 {
        st.0
    } else {
        st.0.push(st.1)
    }
}

/// The groups put back together.
pub open spec fn flatten(a: Seq<Seq<OutV>>) -> Seq<OutV>
    decreases a.len(),
{
    if a.len() == 0 {
        Seq::empty()
    } else {
        flatten(a.drop_last()) + a.last()
    }
}

/// The tokens of a program less each blank that stands directly before a
/// `type` or `def` keyword.
pub open spec fn drop_def_blanks(s: Seq<OutV>) -> Seq<OutV>
    decreases s.len(),
{
    if s.len() == 0 {
        Seq::empty()
    } else {
        let s0 = s.drop_last();
        let x = s.last();
        if opens_def(x) && s0.len() > 0 && s0.last() == OutV::Symbol(' ') {
            drop_def_blanks(s0).drop_last().push(x)
        } else {
            drop_def_blanks(s0).push(x)
        }
    }
}

/// The properties of a split that the laws below state, on the closed
/// groups `a` and the current group `p` after the tokens `s`.
pub open spec fn split_inv(s: Seq<OutV>, a: Seq<Seq<OutV>>, p: Seq<OutV>) -> bool {
    &&& flatten(a) + p == drop_def_blanks(s)
    &&& forall|k: int| 0 <= k < a.len() && (#[trigger] a[k]).len() == 0 ==> !no_blanks(s)
    &&& forall|k: int, j: int| 0 <= k < a.len() && 0 < j < a[k].len() ==> !opens_def(#[trigger] a[k][j])
    &&& forall|j: int| 0 < j < p.len() ==> !opens_def(#[trigger] p[j])
    &&& forall|k: int| 0 < k < a.len() ==> (#[trigger] a[k]).len() > 0 && opens_def(a[k][0])
    &&& a.len() > 0 ==> opens_def(p[0])
    &&& s.len() > 0 <==> p.len() > 0
    &&& s.len() > 0 ==> p.last() == s.last()
}

proof fn lemma_flatten_push(a: Seq<Seq<OutV>>, p: Seq<OutV>)
    ensures
        flatten(a.push(p)) == flatten(a) + p,
{
    assert(a.push(p).drop_last() =~= a);
}

proof fn lemma_split_inv(s: Seq<OutV>)
    ensures
        split_inv(s, split_state(s).0, split_state(s).1),
    decreases s.len(),
{
    if s.len() == 0 {
        assert(flatten(Seq::<Seq<OutV>>::empty()) + Seq::<OutV>::empty() =~= drop_def_blanks(s));
    } else {
        let s0 = s.drop_last();
        let x = s.last();
        lemma_split_inv(s0);
        let a = split_state(s0).0;
        let p = split_state(s0).1;
        let d0 = drop_def_blanks(s0);
        assert(s0 + seq![x] =~= s);
        assert(!no_blanks(s0) ==> !no_blanks(s)) by {
            if !no_blanks(s0) {
                let i = choose|i: int| 0 <= i < s0.len() && s0[i] == OutV::Symbol(' ');
                assert(s[i] == s0[i]);
            }
        }
        if opens_def(x) {
            if p.len() == 0 {
                assert(a.len() == 0);
                assert(s0.len() == 0);
                assert(flatten(a) + seq![x] =~= drop_def_blanks(s));
            } else {
                let q = if p.last() == OutV::Symbol(' ') { p.drop_last() } else { p };
                lemma_flatten_push(a, q);
                let a2 = a.push(q);
                if p.last() == OutV::Symbol(' ') {
                    assert(flatten(a) + p.drop_last() =~= (flatten(a) + p).drop_last());
                    assert(flatten(a2) + seq![x] =~= drop_def_blanks(s));
                    assert(s[s.len() - 2] == OutV::Symbol(' '));
                    if a.len() > 0 {
                        assert(p.len() >= 2);
                        assert(q[0] == p[0]);
                    }
                } else {
                    assert(flatten(a2) + seq![x] =~= drop_def_blanks(s));
                }
                assert forall|k: int| 0 < k < a2.len() implies (#[trigger] a2[k]).len() > 0 && opens_def(a2[k][0]) by {
                    if k < a.len() {
                        assert(a2[k] == a[k]);
                    }
                }
                assert forall|k: int| 0 <= k < a2.len() && (#[trigger] a2[k]).len() == 0 implies !no_blanks(s) by {
                    if k < a.len() {
                        assert(a2[k] == a[k]);
                    } else {
                        assert(a2[k] == q);
                        assert(p.last() == OutV::Symbol(' '));
                        assert(s[s.len() - 2] == OutV::Symbol(' '));
                    }
                }
                assert forall|k: int, j: int| 0 <= k < a2.len() && 0 < j < a2[k].len() implies !opens_def(
                    #[trigger] a2[k][j],
                ) by {
                    if k < a.len() {
                        assert(a2[k] == a[k]);
                    } else {
                        assert(a2[k] == q);
                        assert(q[j] == p[j]);
                    }
                }
            }
        } else {
            let p2 = p.push(x);
            assert(flatten(a) + p2 =~= drop_def_blanks(s));
            assert forall|j: int| 0 < j < p2.len() implies !opens_def(#[trigger] p2[j]) by {
                if j < p.len() {
                    assert(p2[j] == p[j]);
                }
            }
            if a.len() > 0 {
                assert(p2[0] == p[0]);
            }
        }
    }
}

proof fn lemma_no_blanks_kept(s: Seq<OutV>)
    requires
        no_blanks(s),
    ensures
        drop_def_blanks(s) == s,
    decreases s.len(),
{
    if s.len() > 0 {
        let s0 = s.drop_last();
        assert(no_blanks(s0)) by {
            assert forall|i: int| 0 <= i < s0.len() implies s0[i] != OutV::Symbol(' ') by {
                assert(s0[i] == s[i]);
            }
        }
        lemma_no_blanks_kept(s0);
        if s0.len() > 0 {
            assert(s0.last() == s[s.len() - 2]);
        }
        assert(s0.push(s.last()) =~= s);
    }
}

/// Splitting a program loses no token and moves none, but for a blank
/// directly before a `type` or `def` keyword, which it drops: the groups
/// put back together are the program less those blanks, and, for a
/// program without blanks, the program itself.
pub proof fn law_split_keeps_tokens(s: Seq<OutV>)
    ensures
        flatten(spec_split(s)) == drop_def_blanks(s),
        no_blanks(s) ==> flatten(spec_split(s)) == s,
{
    lemma_split_inv(s);
    let st = split_state(s);
    if st.1.len() > 0 {
        lemma_flatten_push(st.0, st.1);
    } else {
        assert(flatten(st.0) + st.1 =~= flatten(st.0));
    }
    if no_blanks(s) {
        lemma_no_blanks_kept(s);
    }
}

/// Each group of a split program holds a `type` or `def` keyword only as
/// its first token, and every group after the first is non-empty and
/// starts with one; for a program without blanks, no group is empty.
pub proof fn law_split_groups(s: Seq<OutV>)
    ensures
        forall|k: int, j: int|
            0 <= k < spec_split(s).len() && 0 < j < spec_split(s)[k].len() ==> !opens_def(
                #[trigger] spec_split(s)[k][j],
            ),
        forall|k: int| 0 < k < spec_split(s).len() ==> (#[trigger] spec_split(s)[k]).len() > 0 && opens_def(spec_split(s)[k][0]),
        no_blanks(s) ==> forall|k: int| 0 <= k < spec_split(s).len() ==> (#[trigger] spec_split(s)[k]).len() > 0,
{
    lemma_split_inv(s);
    let st = split_state(s);
    let r = spec_split(s);
    if st.1.len() > 0 {
        assert forall|k: int| 0 <= k < r.len() && no_blanks(s) implies (#[trigger] r[k]).len() > 0 by {
            if k < st.0.len() {
                assert(r[k] == st.0[k]);
            }
        }
        assert forall|k: int, j: int| 0 <= k < r.len() && 0 < j < r[k].len() implies !opens_def(#[trigger] r[k][j]) by {
            if k < st.0.len() {
                assert(r[k] == st.0[k]);
            }
        }
        assert forall|k: int| 0 < k < r.len() implies (#[trigger] r[k]).len() > 0 && opens_def(r[k][0]) by {
            if k < st.0.len() {
                assert(r[k] == st.0[k]);
            }
        }
    }
}

pub open spec fn groups_view(g: Seq<Vec<Out>>) -> Seq<Seq<OutV>> {
    Seq::new(g.len(), |j: int| outs_view(g[j]@))
}

/// Splits the tokens of a program into one group per top-level definition.
pub fn split_to_top_levels(seq: Vec<Out>) -> (r: Vec<Vec<Out>>)
    ensures
        groups_view(r@) == spec_split(outs_view(seq@)),
{
    let ghost toks = outs_view(seq@);
    let n = seq.len();
    let mut groups: Vec<Vec<Out>> = Vec::new();
    let mut cur: Vec<Out> = Vec::new();
    let mut i: usize = 0;
    proof {
        assert(toks.subrange(0, 0) =~= Seq::<OutV>::empty());
        assert(groups_view(groups@) =~= Seq::<Seq<OutV>>::empty());
        assert(outs_view(cur@) =~= Seq::<OutV>::empty());
    }
    while i < n
        invariant
            n == seq.len(),
            toks == outs_view(seq@),
            i <= n,
            split_state(toks.subrange(0, i as int)) == (groups_view(groups@), outs_view(cur@)),
        decreases n - i,
    {
        let x = seq[i].deep_clone();
        let ghost a0 = groups_view(groups@);
        let ghost p0 = outs_view(cur@);
        proof {
            assert(toks.subrange(0, i + 1).drop_last() =~= toks.subrange(0, i as int));
            assert(toks.subrange(0, i + 1).last() == x@);
        }
        let opens = match &x {
            Out::Kw(kw) => kw.is_top_level(),
            _ => false,
        };
        if opens {
            if cur.len() == 0 {
                let ghost gx = x;
                cur.push(x);
                proof {
                    assert(outs_view(cur@) =~= seq![gx@]);
                }
            } else {
                if matches!(cur[cur.len() - 1], Out::Symbol(' ')) {
                    let _ = cur.pop();
                    proof {
                        assert(outs_view(cur@) =~= p0.drop_last());
                    }
                }
                let ghost q = outs_view(cur@);
                let done = cur;
                groups.push(done);
                proof {
                    assert(groups_view(groups@) =~= a0.push(q));
                }
                cur = Vec::new();
                let ghost gx = x;
                cur.push(x);
                proof {
                    assert(outs_view(cur@) =~= seq![gx@]);
                }
            }
        } else {
            let ghost gx = x;
            cur.push(x);
            proof {
                assert(outs_view(cur@) =~= p0.push(gx@));
            }
        }
        i = i + 1;
    }
    proof {
        assert(toks.subrange(0, n as int) =~= toks);
    }
    if cur.len() > 0 {
        let ghost a0 = groups_view(groups@);
        let ghost q = outs_view(cur@);
        groups.push(cur);
        proof {
            assert(groups_view(groups@) =~= a0.push(q));
        }
    }
    groups
}

/// The definitions of the groups, if every group is one.
pub open spec fn spec_defines(gs: Seq<Seq<OutV>>) -> Option<Seq<DefineV>>
    decreases gs.len(),
{
    if gs.len() == 0 {
        Some(Seq::empty())
    } else {
        match (spec_defines(gs.drop_last()), spec_parse_define(gs.last())) {
            (Some(ds), Some(d)) => Some(ds.push(d)),
            _ => None,
        }
    }
}

/// A program parses when each of its groups parses as a definition, and
/// then into those definitions in order; otherwise it does not parse.
pub proof fn law_defines_all_or_nothing(gs: Seq<Seq<OutV>>)
    ensures
        spec_defines(gs) is Some <==> forall|i: int| 0 <= i < gs.len() ==> (#[trigger] spec_parse_define(gs[i])) is Some,
        spec_defines(gs) matches Some(ds) ==> ds.len() == gs.len() && forall|i: int|
            0 <= i < gs.len() ==> spec_parse_define(gs[i]) == Some(#[trigger] ds[i]),
    decreases gs.len(),
{
    if gs.len() > 0 {
        let init = gs.drop_last();
        law_defines_all_or_nothing(init);
        assert forall|i: int| 0 <= i < init.len() implies init[i] == gs[i] by {}
        if spec_defines(gs) is Some {
            let ds = spec_defines(gs)->Some_0;
            let d0 = spec_defines(init)->Some_0;
            assert forall|i: int| 0 <= i < gs.len() implies spec_parse_define(gs[i]) == Some(#[trigger] ds[i]) by {
                if i < init.len() {
                    assert(init[i] == gs[i]);
                    assert(ds[i] == d0[i]);
                }
            }
        } else {
            if spec_defines(init) is Some {
                assert(spec_parse_define(gs[gs.len() - 1]) is None);
            } else {
                let i = choose|i: int| 0 <= i < init.len() && (#[trigger] spec_parse_define(init[i])) is None;
                assert(spec_parse_define(gs[i]) is None);
            }
        }
    }
}

pub open spec fn defines_view(ds: Seq<Define>) -> Seq<DefineV> {
    Seq::new(ds.len(), |j: int| ds[j]@)
}

pub open spec fn odsv(r: Option<Vec<Define>>) -> Option<Seq<DefineV>> {
    match r {
        Some(v) => Some(defines_view(v@)),
        None => None,
    }
}

proof fn lemma_defines_prefix(gs: Seq<Seq<OutV>>, k: int)
    requires
        0 <= k <= gs.len(),
        spec_defines(gs.subrange(0, k)) is None,
    ensures
        spec_defines(gs) is None,
    decreases gs.len() - k,
{
    if k < gs.len() {
        assert(gs.subrange(0, k + 1).drop_last() =~= gs.subrange(0, k));
        lemma_defines_prefix(gs, k + 1);
    } else {
        assert(gs.subrange(0, k) =~= gs);
    }
}

/// Parses each group as a definition: all of them, or `None` as soon as
/// one group is no definition.
pub fn parse_to_defines(seq: Vec<Vec<Out>>) -> (r: Option<Vec<Define>>)
    ensures
        odsv(r) == spec_defines(groups_view(seq@)),
{
    let ghost gs = groups_view(seq@);
    let ghost seq0 = seq@;
    let n = seq.len();
    let mut rest = seq;
    let mut out: Vec<Define> = Vec::new();
    let mut k: usize = 0;
    proof {
        assert(gs.subrange(0, 0) =~= Seq::<Seq<OutV>>::empty());
        assert(defines_view(out@) =~= Seq::<DefineV>::empty());
    }
    while k < n
        invariant
            n == seq0.len(),
            seq0 == seq@,
            gs == groups_view(seq0),
            k <= n,
            rest@ == seq0.subrange(k as int, n as int),
            spec_defines(gs.subrange(0, k as int)) == Some(defines_view(out@)),
        decreases n - k,
    {
        let g = rest.remove(0);
        proof {
            assert(g == seq0[k as int]);
            assert(gs.subrange(0, k + 1).drop_last() =~= gs.subrange(0, k as int));
            assert(gs.subrange(0, k + 1).last() == outs_view(g@));
        }
        match parse_define(g) {
            Some(d) => {
                let ghost before = defines_view(out@);
                let ghost gd = d;
                out.push(d);
                proof {
                    assert(defines_view(out@) =~= before.push(gd@));
                    assert(rest@ =~= seq0.subrange(k + 1, n as int));
                }
            },
            None => {
                proof {
                    lemma_defines_prefix(gs, k + 1);
                }
                return None;
            },
        }
        k = k + 1;
    }
    proof {
        assert(gs.subrange(0, n as int) =~= gs);
    }
    Some(out)
}

/// Parses a whole program: its definitions in order, or `None` when one of
/// them does not parse.
pub fn parse_ast(seq: Vec<Out>) -> (r: Option<Vec<Define>>)
    ensures
        odsv(r) == spec_defines(spec_split(outs_view(seq@))),
{
    let groups = split_to_top_levels(seq);
    parse_to_defines(groups)
}

} // verus!
