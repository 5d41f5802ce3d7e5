use vstd::prelude::*;
use vstd::string::StrSliceExecFns;

use crate::parser::alphanum::{is_alphanum, is_lower, parse_alphanum, parse_lower};

verus! {

/// A value name: a lower-case ASCII letter followed by ASCII letters and
/// digits.
pub open spec fn is_let_name(s: Seq<char>) -> bool {
    &&& s.len() > 0
    &&& is_lower(s[0])
    &&& forall|i: int| 1 <= i < s.len() ==> is_alphanum(#[trigger] s[i])
}

/// Reads a whole string as a value name; the name is the string itself.
pub fn parse_let_name(seq: &str) -> (r: Option<String>)
    ensures
        r is Some <==> is_let_name(seq@),
        r matches Some(n) ==> n@ == seq@,
{
    let n = seq.unicode_len();
    if n == 0 {
        return None;
    }
    // Start: [a-z] -> LetName
    let first = seq.get_char(0);
    if parse_lower(&first).is_none() {
        return None;
    }
    // LetName: [0-9a-zA-Z] -> LetName
    let mut i: usize = 1;
    while i < n
        invariant
            n == seq@.len(),
            1 <= i <= n,
            is_lower(seq@[0]),
            forall|j: int| 1 <= j < i ==> is_alphanum(#[trigger] seq@[j]),
        decreases n - i,
    {
        let c = seq.get_char(i);
        if parse_alphanum(&c).is_none() {
            return None;
        }
        i = i + 1;
    }
    Some(seq.to_owned())
}

} // verus!
