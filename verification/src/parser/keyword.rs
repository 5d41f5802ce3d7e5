use vstd::prelude::*;

use crate::parser::text::text_eq;

verus! {

/// The reserved words of Catly.
#[derive(Clone, Copy, Debug, PartialEq, Eq, PartialOrd, Ord, Hash, Structural)]
pub enum Keyword {
    Type,
    Def,
    Let,
    In,
    If,
    Then,
    Else,
    Match,
    With,
}

/// The text that spells a keyword.
pub open spec fn keyword_text(k: Keyword) -> Seq<char> {
    match k {
        Keyword::Type => seq!['t', 'y', 'p', 'e'],
        Keyword::Def => seq!['d', 'e', 'f'],
        Keyword::Let => seq!['l', 'e', 't'],
        Keyword::In => seq!['i', 'n'],
        Keyword::If => seq!['i', 'f'],
        Keyword::Then => seq!['t', 'h', 'e', 'n'],
        Keyword::Else => seq!['e', 'l', 's', 'e'],
        Keyword::Match => seq!['m', 'a', 't', 'c', 'h'],
        Keyword::With => seq!['w', 'i', 't', 'h'],
    }
}

/// The keyword spelled by `s`, if any.
pub open spec fn spec_keyword_of(s: Seq<char>) -> Option<Keyword> {
    if s == keyword_text(Keyword::Type) {
        Some(Keyword::Type)
    } else if s == keyword_text(Keyword::Def) {
        Some(Keyword::Def)
    } else if s == keyword_text(Keyword::Let) {
        Some(Keyword::Let)
    } else if s == keyword_text(Keyword::In) {
        Some(Keyword::In)
    } else if s == keyword_text(Keyword::If) {
        Some(Keyword::If)
    } else if s == keyword_text(Keyword::Then) {
        Some(Keyword::Then)
    } else if s == keyword_text(Keyword::Else) {
        Some(Keyword::Else)
    } else if s == keyword_text(Keyword::Match) {
        Some(Keyword::Match)
    } else if s == keyword_text(Keyword::With) {
        Some(Keyword::With)
    } else {
        None
    }
}

pub open spec fn spec_is_top_level(k: Keyword) -> bool {
    k == Keyword::Type || k == Keyword::Def
}

impl Keyword {
    /// `type` and `def` open a top-level definition.
    pub fn is_top_level(&self) -> (r: bool)
        ensures
            r == spec_is_top_level(*self),
    {
        match self {
            Keyword::Type | Keyword::Def => true,
            _ => false,
        }
    }
}

pub fn parse_type(x: &str) -> (r: bool)
    ensures
        r == (x@ == keyword_text(Keyword::Type)),
{
    proof {
        reveal_strlit("type");
        assert("type"@ =~= keyword_text(Keyword::Type));
    }
    text_eq(x, "type")
}

pub fn parse_def(x: &str) -> (r: bool)
    ensures
        r == (x@ == keyword_text(Keyword::Def)),
{
    proof {
        reveal_strlit("def");
        assert("def"@ =~= keyword_text(Keyword::Def));
    }
    text_eq(x, "def")
}

pub fn parse_let(x: &str) -> (r: bool)
    ensures
        r == (x@ == keyword_text(Keyword::Let)),
{
    proof {
        reveal_strlit("let");
        assert("let"@ =~= keyword_text(Keyword::Let));
    }
    text_eq(x, "let")
}

pub fn parse_in(x: &str) -> (r: bool)
    ensures
        r == (x@ == keyword_text(Keyword::In)),
{
    proof {
        reveal_strlit("in");
        assert("in"@ =~= keyword_text(Keyword::In));
    }
    text_eq(x, "in")
}

pub fn parse_if(x: &str) -> (r: bool)
    ensures
        r == (x@ == keyword_text(Keyword::If)),
{
    proof {
        reveal_strlit("if");
        assert("if"@ =~= keyword_text(Keyword::If));
    }
    text_eq(x, "if")
}

pub fn parse_then(x: &str) -> (r: bool)
    ensures
        r == (x@ == keyword_text(Keyword::Then)),
{
    proof {
        reveal_strlit("then");
        assert("then"@ =~= keyword_text(Keyword::Then));
    }
    text_eq(x, "then")
}

pub fn parse_else(x: &str) -> (r: bool)
    ensures
        r == (x@ == keyword_text(Keyword::Else)),
{
    proof {
        reveal_strlit("else");
        assert("else"@ =~= keyword_text(Keyword::Else));
    }
    text_eq(x, "else")
}

pub fn parse_match(x: &str) -> (r: bool)
    ensures
        r == (x@ == keyword_text(Keyword::Match)),
{
    proof {
        reveal_strlit("match");
        assert("match"@ =~= keyword_text(Keyword::Match));
    }
    text_eq(x, "match")
}

pub fn parse_with(x: &str) -> (r: bool)
    ensures
        r == (x@ == keyword_text(Keyword::With)),
{
    proof {
        reveal_strlit("with");
        assert("with"@ =~= keyword_text(Keyword::With));
    }
    text_eq(x, "with")
}

/// Recognises a keyword; the keywords are tried in declaration order.
pub fn parse_keyword(x: &str) -> (r: Option<Keyword>)
    ensures
        r == spec_keyword_of(x@),
{
    if parse_type(x) {
        Some(Keyword::Type)
    } else if parse_def(x) {
        Some(Keyword::Def)
    } else if parse_let(x) {
        Some(Keyword::Let)
    } else if parse_in(x) {
        Some(Keyword::In)
    } else if parse_if(x) {
        Some(Keyword::If)
    } else if parse_then(x) {
        Some(Keyword::Then)
    } else if parse_else(x) {
        Some(Keyword::Else)
    } else if parse_match(x) {
        Some(Keyword::Match)
    } else if parse_with(x) {
        Some(Keyword::With)
    } else {
        None
    }
}

/// Every keyword is recognised from its own spelling, and only from it.
pub proof fn law_keyword_round_trip(k: Keyword, s: Seq<char>)
    ensures
        spec_keyword_of(keyword_text(k)) == Some(k),
        spec_keyword_of(s) == Some(k) <==> s == keyword_text(k),
{
    match k {
        Keyword::Type => {},
        Keyword::Def => {},
        Keyword::Let => {},
        Keyword::In => {},
        Keyword::If => {},
        Keyword::Then => {},
        Keyword::Else => {},
        Keyword::Match => {},
        Keyword::With => {},
    }
}

} // verus!
