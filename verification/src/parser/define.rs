use vstd::prelude::*;

use crate::parser::define::lr::{go, lemma_dgo_wf, spec_dgo};
use crate::parser::expr::pat_type::wf_type;
use crate::parser::expr::typed::{wf_annot, wf_expr};
use crate::parser::define::pat::{dpats_v, DPatV, Pat};
use crate::parser::expr::typed::{Expr, ExprV};
use crate::parser::preprocess::{outs_view, Out, OutV};
use crate::parser::types::{otv, OptType, Type, TypeV};

pub mod lr;
pub mod pat;

verus! {

/// A top-level definition: a named type, or a named expression with an
/// optional type annotation.
#[derive(Debug, PartialEq)]
pub enum Define {
    TypeDef(String, Type),
    ExprDef(String, OptType, Expr),
}

/// The mathematical value of a definition.
pub enum DefineV {
    TypeDef(Seq<char>, TypeV),
    ExprDef(Seq<char>, Option<TypeV>, ExprV),
}

impl View for Define {
    type V = DefineV;

    open spec fn view(&self) -> DefineV {
        match self {
            Define::TypeDef(n, t) => DefineV::TypeDef(n@, t@),
            Define::ExprDef(n, t, e) => DefineV::ExprDef(n@, otv(*t), e@),
        }
    }
}

pub open spec fn odv(d: Option<Define>) -> Option<DefineV> {
    match d {
        Some(d) => Some(d@),
        None => None,
    }
}

/// The definition a parser symbol stands for, if it stands for one.
pub open spec fn pat_define(p: DPatV) -> Option<DefineV> {
    match p {
        DPatV::TypeDef(n, t) => Some(DefineV::TypeDef(n, t)),
        DPatV::ExprDef(n, t, e) => Some(DefineV::ExprDef(n, t, e)),
        _ => None,
    }
}

/// The definition the tokens `toks` stand for, if they stand for one.
pub open spec fn spec_parse_define(toks: Seq<OutV>) -> Option<DefineV> {
    pat_define(spec_dgo(seq![DPatV::Start], toks))
}

/// Every sum type in a parsed definition, in its annotation or in its
/// body, lists its members in canonical order without repetition.
pub proof fn law_parsed_definitions_canonical(toks: Seq<OutV>)
    ensures
        spec_parse_define(toks) matches Some(DefineV::TypeDef(_, t)) ==> wf_type(t),
        spec_parse_define(toks) matches Some(DefineV::ExprDef(_, t, e)) ==> wf_annot(t) && wf_expr(e),
{
    lemma_dgo_wf(seq![DPatV::Start], toks);
}

/// Parses one top-level definition from its tokens.
pub fn parse_define(seq: Vec<Out>) -> (r: Option<Define>)
    ensures
        odv(r) == spec_parse_define(outs_view(seq@)),
{
    let mut stack: Vec<Pat> = Vec::new();
    stack.push(Pat::Start);
    proof {
        assert(dpats_v(stack@) =~= seq![DPatV::Start]);
    }
    pat_into_define(go(stack, seq))
}

/// The definition a parser symbol stands for: `None` for a symbol that
/// is no complete definition.
pub fn pat_into_define(p: Pat) -> (r: Option<Define>)
    ensures
        odv(r) == pat_define(p@),
{
    match p {
        Pat::TypeDef(n, t) => Some(Define::TypeDef(n, t)),
        Pat::ExprDef(n, t, e) => Some(Define::ExprDef(n, t, e)),
        _ => None,
    }
}

} // verus!
