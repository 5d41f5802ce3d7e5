use vstd::prelude::*;
use vstd::string::StrSliceExecFns;

use crate::parser::alphanum::{is_alphanum, is_upper, parse_alphanum, parse_upper};

verus! {

/// A type name: an upper-case ASCII letter followed by ASCII letters and
/// digits.
pub open spec fn is_type_name(s: Seq<char>) -> bool {
    &&& s.len() > 0
    &&& is_upper(s[0])
    &&& forall|i: int| 1 <= i < s.len() ==> is_alphanum(#[trigger] s[i])
}

/// Reads a whole string as a type name; the name is the string itself.
pub fn parse_type_name(seq: &str) -> (r: Option<String>)
    ensures
        r is Some <==> is_type_name(seq@),
        r matches Some(n) ==> n@ == seq@,
{
    let n = seq.unicode_len();
    if n == 0 {
        return None;
    }
    // Start: [A-Z] -> TypeName
    let first = seq.get_char(0);
    if parse_upper(&first).is_none() {
        return None;
    }
    // TypeName: [0-9a-zA-Z] -> TypeName
    let mut i: usize = 1;
    while i < n
        invariant
            n == seq@.len(),
            1 <= i <= n,
            is_upper(seq@[0]),
            forall|j: int| 1 <= j < i ==> is_alphanum(#[trigger] seq@[j]),
        decreases n - i,
    {
        let c = seq.get_char(i);
        if parse_alphanum(&c).is_none() {
            return None;
        }
        i = i + 1;
    }
    Some(seq.to_owned())
}

} // verus!
