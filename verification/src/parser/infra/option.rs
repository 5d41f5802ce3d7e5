use vstd::prelude::*;

use crate::parser::expr::rules::expr_end;
use crate::parser::preprocess::{opt_out_view, Out};

verus! {

pub trait Ext {
    spec fn end_pat_spec(&self) -> bool;

    /// Whether an expression may be closed before this lookahead token.
    fn is_end_pat(&self) -> (r: bool)
        ensures
            r == self.end_pat_spec(),
    ;
}

impl Ext for Option<Out> {
    open spec fn end_pat_spec(&self) -> bool {
        expr_end(opt_out_view(*self))
    }

    /// `)`, `}`, `,`, `|`, a keyword, or the end of input.
    fn is_end_pat(&self) -> (r: bool) {
        match self {
            None | Some(Out::Symbol(')')) | Some(Out::Symbol('}')) | Some(Out::Symbol(',')) | Some(Out::Symbol('|'))
            | Some(Out::Kw(_)) => true,
            _ => false,
        }
    }
}

} // verus!
