use vstd::prelude::*;

use crate::parser::alphanum;
use crate::parser::alphanum::{digit_value, is_digit, is_lower, is_upper};

verus! {

/// A letter or a decimal digit, as the expression follow-set sees it.
#[derive(Clone, Copy, Debug, PartialEq, Eq, Structural)]
pub enum Char {
    Digit(u8),
    Lower(char),
    Upper(char),
}

pub fn parse_digit(x: &char) -> (r: Option<u8>)
    ensures
        is_digit(*x) ==> r == Some(digit_value(*x) as u8),
        !is_digit(*x) ==> r is None,
{
    alphanum::parse_digit(x)
}

pub fn parse_lower(x: &char) -> (r: Option<char>)
    ensures
        is_lower(*x) ==> r == Some(*x),
        !is_lower(*x) ==> r is None,
{
    alphanum::parse_lower(x)
}

pub fn parse_upper(x: &char) -> (r: Option<char>)
    ensures
        is_upper(*x) ==> r == Some(*x),
        !is_upper(*x) ==> r is None,
{
    alphanum::parse_upper(x)
}

/// Classifies a letter, upper case tried first.
pub fn parse_letter(x: &char) -> (r: Option<Char>)
    ensures
        is_upper(*x) ==> r == Some(Char::Upper(*x)),
        is_lower(*x) ==> r == Some(Char::Lower(*x)),
        !is_upper(*x) && !is_lower(*x) ==> r is None,
{
    match parse_upper(x) {
        Some(c) => Some(Char::Upper(c)),
        None => match parse_lower(x) {
            Some(c) => Some(Char::Lower(c)),
            None => None,
        },
    }
}

/// Classifies a letter or a digit.
pub fn parse_char(x: &char) -> (r: Option<Char>)
    ensures
        is_upper(*x) ==> r == Some(Char::Upper(*x)),
        is_lower(*x) ==> r == Some(Char::Lower(*x)),
        is_digit(*x) ==> r == Some(Char::Digit(digit_value(*x) as u8)),
        !is_upper(*x) && !is_lower(*x) && !is_digit(*x) ==> r is None,
{
    match parse_letter(x) {
        Some(c) => Some(c),
        None => match parse_digit(x) {
            Some(d) => Some(Char::Digit(d)),
            None => None,
        },
    }
}

} // verus!
