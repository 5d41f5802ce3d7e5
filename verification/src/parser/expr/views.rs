use vstd::prelude::*;

use crate::parser::expr::pat::{ov, pv, OptBoxPat, OptPatV, Pat, PatV};

verus! {

pub open spec fn assigns_v(s: Seq<(bool, String, OptBoxPat, Pat)>) -> Seq<(bool, Seq<char>, OptPatV, PatV)> {
    Seq::new(s.len(), |i: int| (s[i].0, s[i].1@, ov(s[i].2), pv(s[i].3)))
}

pub open spec fn sfields_v(s: Seq<(String, OptBoxPat, Pat)>) -> Seq<(Seq<char>, OptPatV, PatV)> {
    Seq::new(s.len(), |i: int| (s[i].0@, ov(s[i].1), pv(s[i].2)))
}

pub open spec fn cases_v(s: Seq<(Pat, Pat)>) -> Seq<(PatV, PatV)> {
    Seq::new(s.len(), |i: int| (pv(s[i].0), pv(s[i].1)))
}

pub open spec fn pats_v(s: Seq<Pat>) -> Seq<PatV> {
    Seq::new(s.len(), |i: int| pv(s[i]))
}

pub open spec fn named_v(s: Seq<(String, Pat)>) -> Seq<(Seq<char>, PatV)> {
    Seq::new(s.len(), |i: int| (s[i].0@, pv(s[i].1)))
}

/// The view of a stack, element by element; an annotation that is absent
/// stays absent.
pub proof fn lemma_stack_view(s: Seq<Pat>)
    ensures
        pats_v(s).len() == s.len(),
        forall|i: int| 0 <= i < s.len() ==> pats_v(s)[i] == pv(#[trigger] s[i]),
        ov(None) == None::<Box<PatV>>,
        forall|o: OptBoxPat| (#[trigger] ov(o)) is Some <==> o is Some,
{
}

pub proof fn lemma_views_of_variants(p: Pat)
    ensures
        p matches Pat::AssignSeq(v) ==> pv(p) == PatV::AssignSeq(assigns_v(v@)),
        p matches Pat::Struct(t, v) ==> pv(p) == PatV::Struct(ov(t), sfields_v(v@)),
        p matches Pat::CaseSeq(v) ==> pv(p) == PatV::CaseSeq(cases_v(v@)),
        p matches Pat::Match(t, e, v) ==> pv(p) == PatV::Match(ov(t), Box::new(pv(*e)), cases_v(v@)),
        p matches Pat::SumType(v) ==> pv(p) == PatV::SumType(pats_v(v@)),
        p matches Pat::TypedLetNameSeq(v) ==> pv(p) == PatV::TypedLetNameSeq(named_v(v@)),
        p matches Pat::ProdType(v) ==> pv(p) == PatV::ProdType(named_v(v@)),
{
    match p {
        Pat::AssignSeq(v) => {
            assert(pv(p)->AssignSeq_0 =~= assigns_v(v@));
        },
        Pat::Struct(t, v) => {
            assert(pv(p)->Struct_1 =~= sfields_v(v@));
        },
        Pat::CaseSeq(v) => {
            assert(pv(p)->CaseSeq_0 =~= cases_v(v@));
        },
        Pat::Match(t, e, v) => {
            assert(pv(p)->Match_2 =~= cases_v(v@));
        },
        Pat::SumType(v) => {
            assert(pv(p)->SumType_0 =~= pats_v(v@));
        },
        Pat::TypedLetNameSeq(v) => {
            assert(pv(p)->TypedLetNameSeq_0 =~= named_v(v@));
        },
        Pat::ProdType(v) => {
            assert(pv(p)->ProdType_0 =~= named_v(v@));
        },
        _ => {},
    }
}

pub proof fn lemma_assigns_push(s: Seq<(bool, String, OptBoxPat, Pat)>, x: (bool, String, OptBoxPat, Pat))
    ensures
        assigns_v(s.push(x)) == assigns_v(s).push((x.0, x.1@, ov(x.2), pv(x.3))),
{
    assert(assigns_v(s.push(x)) =~= assigns_v(s).push((x.0, x.1@, ov(x.2), pv(x.3))));
}

pub proof fn lemma_cases_push(s: Seq<(Pat, Pat)>, x: (Pat, Pat))
    ensures
        cases_v(s.push(x)) == cases_v(s).push((pv(x.0), pv(x.1))),
{
    assert(cases_v(s.push(x)) =~= cases_v(s).push((pv(x.0), pv(x.1))));
}

pub proof fn lemma_pats_push(s: Seq<Pat>, x: Pat)
    ensures
        pats_v(s.push(x)) == pats_v(s).push(pv(x)),
{
    assert(pats_v(s.push(x)) =~= pats_v(s).push(pv(x)));
}

pub proof fn lemma_named_push(s: Seq<(String, Pat)>, x: (String, Pat))
    ensures
        named_v(s.push(x)) == named_v(s).push((x.0@, pv(x.1))),
{
    assert(named_v(s.push(x)) =~= named_v(s).push((x.0@, pv(x.1))));
}

} // verus!
