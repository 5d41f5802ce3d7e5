use vstd::prelude::*;
use vstd::string::StrSliceExecFns;

use crate::parser::name::let_name::{is_let_name, parse_let_name};
use crate::parser::name::typename::{is_type_name, parse_type_name};

pub mod let_name;
pub mod typename;

verus! {

/// A value name or a type name.
#[derive(Clone, Debug, PartialEq)]
pub enum Name {
    LetName(String),
    TypeName(String),
}

/// Reads a whole string as a name: type names start with an upper-case
/// letter, value names with anything else.
pub fn parse_name(str: &str) -> (r: Option<Name>)
    ensures
        r matches Some(Name::TypeName(n)) ==> n@ == str@ && is_type_name(str@),
        r matches Some(Name::LetName(n)) ==> n@ == str@ && is_let_name(str@),
        r is None <==> !is_type_name(str@) && !is_let_name(str@),
{
    let n = str.unicode_len();
    if n > 0 && 'A' <= str.get_char(0) && str.get_char(0) <= 'Z' {
        match parse_type_name(str) {
            Some(t) => Some(Name::TypeName(t)),
            None => None,
        }
    } else {
        match parse_let_name(str) {
            Some(l) => Some(Name::LetName(l)),
            None => None,
        }
    }
}

} // verus!
