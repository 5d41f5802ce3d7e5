use vstd::prelude::*;

use crate::parser::expr::typed::{ev, Expr, ExprV};
use crate::parser::keyword::Keyword;
use crate::parser::preprocess::{outs_view, Out, OutV};
use crate::parser::types::{otv, tv, OptType, Type, TypeV};

verus! {

/// The symbols on the stack of the definition parser.
#[derive(Debug, PartialEq)]
pub enum Pat {
    Start,
    End,
    Fail,
    Mark(char),
    Kw(Keyword),
    /// A token of a type annotation not yet parsed.
    AnyIn(Out),
    /// The tokens of a type annotation not yet parsed.
    AnyInSeq(Vec<Out>),
    Type(Type),
    LetName(OptType, String),
    TypeName(String),
    TypeDefHead(String),
    TypeDef(String, Type),
    ExprDefHead(OptType, String),
    ExprDef(String, OptType, Expr),
}

/// The mathematical value of a definition parser symbol.
pub enum DPatV {
    Start,
    End,
    Fail,
    Mark(char),
    Kw(Keyword),
    AnyIn(OutV),
    AnyInSeq(Seq<OutV>),
    Type(TypeV),
    LetName(Option<TypeV>, Seq<char>),
    TypeName(Seq<char>),
    TypeDefHead(Seq<char>),
    TypeDef(Seq<char>, TypeV),
    ExprDefHead(Option<TypeV>, Seq<char>),
    ExprDef(Seq<char>, Option<TypeV>, ExprV),
}

pub open spec fn dpv(p: Pat) -> DPatV {
    match p {
        Pat::Start => DPatV::Start,
        Pat::End => DPatV::End,
        Pat::Fail => DPatV::Fail,
        Pat::Mark(c) => DPatV::Mark(c),
        Pat::Kw(k) => DPatV::Kw(k),
        Pat::AnyIn(o) => DPatV::AnyIn(o@),
        Pat::AnyInSeq(v) => DPatV::AnyInSeq(outs_view(v@)),
        Pat::Type(t) => DPatV::Type(tv(t)),
        Pat::LetName(t, n) => DPatV::LetName(otv(t), n@),
        Pat::TypeName(n) => DPatV::TypeName(n@),
        Pat::TypeDefHead(n) => DPatV::TypeDefHead(n@),
        Pat::TypeDef(n, t) => DPatV::TypeDef(n@, tv(t)),
        Pat::ExprDefHead(t, n) => DPatV::ExprDefHead(otv(t), n@),
        Pat::ExprDef(n, t, e) => DPatV::ExprDef(n@, otv(t), ev(e)),
    }
}

impl View for Pat {
    type V = DPatV;

    open spec fn view(&self) -> DPatV {
        dpv(*self)
    }
}

pub open spec fn dpats_v(s: Seq<Pat>) -> Seq<DPatV> {
    Seq::new(s.len(), |i: int| dpv(s[i]))
}

} // verus!
