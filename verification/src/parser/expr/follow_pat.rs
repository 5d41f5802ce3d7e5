use vstd::prelude::*;

use crate::parser::alphanum::{is_digit, is_lower, is_upper};
use crate::parser::char::{parse_digit, parse_letter};
use crate::parser::infra::Either;
use crate::parser::keyword::Keyword;

verus! {

/// What may follow a token in the source text: nothing, a blank, a digit,
/// a letter, another mark or a keyword.
#[derive(Debug, Clone, PartialEq)]
pub enum FollowPat {
    End,
    Blank,
    Digit(char),
    Letter(char),
    Mark(char),
    Keyword(Keyword),
}

impl FollowPat {
    /// Anything but a blank.
    pub fn not_blank(&self) -> (r: bool)
        ensures
            r == !(*self is Blank),
    {
        match self {
            FollowPat::Blank => false,
            _ => true,
        }
    }
}

/// The class of what follows: a space is a blank, then digits, then
/// letters; any other character is a mark.
pub open spec fn spec_follow_pat(follow: Option<Either<char, Keyword>>) -> FollowPat {
    match follow {
        Some(Either::L(c)) => if c == ' ' {
            FollowPat::Blank
        } else if is_digit(c) {
            FollowPat::Digit(c)
        } else if is_upper(c) || is_lower(c) {
            FollowPat::Letter(c)
        } else {
            FollowPat::Mark(c)
        },
        Some(Either::R(kw)) => FollowPat::Keyword(kw),
        None => FollowPat::End,
    }
}

/// Classifies what follows a token.
pub fn parse_follow_pat(follow: Option<Either<char, Keyword>>) -> (r: FollowPat)
    ensures
        r == spec_follow_pat(follow),
{
    match follow {
        Some(e) => match e {
            Either::L(c) => {
                if c == ' ' {
                    FollowPat::Blank
                } else if parse_digit(&c).is_some() {
                    FollowPat::Digit(c)
                } else if parse_letter(&c).is_some() {
                    FollowPat::Letter(c)
                } else {
                    FollowPat::Mark(c)
                }
            },
            Either::R(kw) => FollowPat::Keyword(kw),
        },
        None => FollowPat::End,
    }
}

} // verus!
