use vstd::prelude::*;

verus! {

/// A letter or a decimal digit.
#[derive(Clone, Copy, Debug, PartialEq, Eq, Structural)]
pub enum Alphanum {
    Digit(u8),
    Lower(char),
    Upper(char),
}

pub open spec fn is_digit(c: char) -> bool {
    '0' <= c && c <= '9'
}

pub open spec fn is_lower(c: char) -> bool {
    'a' <= c && c <= 'z'
}

pub open spec fn is_upper(c: char) -> bool {
    'A' <= c && c <= 'Z'
}

pub open spec fn is_alphanum(c: char) -> bool {
    is_digit(c) || is_lower(c) || is_upper(c)
}

/// The value of a decimal digit.
pub open spec fn digit_value(c: char) -> int {
    (c as int) - ('0' as int)
}

/// The classification `parse_alphanum` gives: letters first, then digits.
pub open spec fn spec_alphanum(c: char) -> Option<Alphanum> {
    if is_upper(c) {
        Some(Alphanum::Upper(c))
    } else if is_lower(c) {
        Some(Alphanum::Lower(c))
    } else if is_digit(c) {
        Some(Alphanum::Digit(digit_value(c) as u8))
    } else {
        None
    }
}

/// The value of `x` as a decimal digit.
pub fn parse_digit(x: &char) -> (r: Option<u8>)
    ensures
        is_digit(*x) ==> r == Some(digit_value(*x) as u8),
        !is_digit(*x) ==> r is None,
{
    let c = *x;
    if '0' <= c && c <= '9' {
        let v = (c as u32) - ('0' as u32);
        Some(v as u8)
    } else {
        None
    }
}

/// `x` itself when it is a lower-case ASCII letter.
pub fn parse_lower(x: &char) -> (r: Option<char>)
    ensures
        is_lower(*x) ==> r == Some(*x),
        !is_lower(*x) ==> r is None,
{
    if 'a' <= *x && *x <= 'z' {
        Some(*x)
    } else {
        None
    }
}

/// `x` itself when it is an upper-case ASCII letter.
pub fn parse_upper(x: &char) -> (r: Option<char>)
    ensures
        is_upper(*x) ==> r == Some(*x),
        !is_upper(*x) ==> r is None,
{
    if 'A' <= *x && *x <= 'Z' {
        Some(*x)
    } else {
        None
    }
}

/// Classifies a letter, upper case tried first.
pub fn parse_letter(x: &char) -> (r: Option<Alphanum>)
    ensures
        is_upper(*x) ==> r == Some(Alphanum::Upper(*x)),
        is_lower(*x) ==> r == Some(Alphanum::Lower(*x)),
        !is_upper(*x) && !is_lower(*x) ==> r is None,
{
    match parse_upper(x) {
        Some(c) => Some(Alphanum::Upper(c)),
        None => match parse_lower(x) {
            Some(c) => Some(Alphanum::Lower(c)),
            None => None,
        },
    }
}

/// Classifies a letter or digit.
pub fn parse_alphanum(x: &char) -> (r: Option<Alphanum>)
    ensures
        r == spec_alphanum(*x),
{
    match parse_letter(x) {
        Some(a) => Some(a),
        None => match parse_digit(x) {
            Some(d) => Some(Alphanum::Digit(d)),
            None => None,
        },
    }
}

/// `parse_alphanum` accepts exactly the ASCII letters and digits.
pub proof fn law_alphanum_accepts(c: char)
    ensures
        spec_alphanum(c) is Some <==> is_alphanum(c),
        is_digit(c) ==> 0 <= digit_value(c) <= 9,
{
}

} // verus!
