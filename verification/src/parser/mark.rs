use vstd::prelude::*;

verus! {

/// The punctuation marks of Catly.
#[derive(Clone, Copy, Debug, PartialEq, Eq, Structural)]
pub enum Mark {
    Underline,
    Dash,
    RightAngleBracket,
    LeftPar,
    RightPar,
    LeftCurlyBracket,
    RightCurlyBracket,
    Colon,
    Star,
    Comma,
    VerticalBar,
    Equal,
}

/// The character that spells a mark.
pub open spec fn mark_char(m: Mark) -> char {
    match m {
        Mark::Underline => '_',
        Mark::Dash => '-',
        Mark::RightAngleBracket => '>',
        Mark::LeftPar => '(',
        Mark::RightPar => ')',
        Mark::LeftCurlyBracket => '{',
        Mark::RightCurlyBracket => '}',
        Mark::Colon => ':',
        Mark::Star => '*',
        Mark::Comma => ',',
        Mark::VerticalBar => '|',
        Mark::Equal => '=',
    }
}

pub fn parse_underline(x: &char) -> (r: bool)
    ensures
        r == (*x == '_'),
{
    *x == '_'
}

pub fn parse_l_par(x: &char) -> (r: bool)
    ensures
        r == (*x == '('),
{
    *x == '('
}

pub fn parse_r_par(x: &char) -> (r: bool)
    ensures
        r == (*x == ')'),
{
    *x == ')'
}

pub fn parse_l_curly_bracket(x: &char) -> (r: bool)
    ensures
        r == (*x == '{'),
{
    *x == '{'
}

pub fn parse_r_curly_bracket(x: &char) -> (r: bool)
    ensures
        r == (*x == '}'),
{
    *x == '}'
}

pub fn parse_colon(x: &char) -> (r: bool)
    ensures
        r == (*x == ':'),
{
    *x == ':'
}

pub fn parse_star(x: &char) -> (r: bool)
    ensures
        r == (*x == '*'),
{
    *x == '*'
}

pub fn parse_comma(x: &char) -> (r: bool)
    ensures
        r == (*x == ','),
{
    *x == ','
}

pub fn parse_vertical_bar(x: &char) -> (r: bool)
    ensures
        r == (*x == '|'),
{
    *x == '|'
}

pub fn parse_equal(x: &char) -> (r: bool)
    ensures
        r == (*x == '='),
{
    *x == '='
}

pub fn parse_dash(x: &char) -> (r: bool)
    ensures
        r == (*x == '-'),
{
    *x == '-'
}

pub fn parse_r_angle_bracket(x: &char) -> (r: bool)
    ensures
        r == (*x == '>'),
{
    *x == '>'
}

/// The mark spelled by `x`, if any.
pub fn parse_mark(x: &char) -> (r: Option<Mark>)
    ensures
        r matches Some(m) ==> mark_char(m) == *x,
        r is None ==> forall|m: Mark| mark_char(m) != *x,
{
    let r = match *x {
        '_' => Mark::Underline,
        '(' => Mark::LeftPar,
        ')' => Mark::RightPar,
        '{' => Mark::LeftCurlyBracket,
        '}' => Mark::RightCurlyBracket,
        ':' => Mark::Colon,
        '*' => Mark::Star,
        ',' => Mark::Comma,
        '|' => Mark::VerticalBar,
        '=' => Mark::Equal,
        '-' => Mark::Dash,
        '>' => Mark::RightAngleBracket,
        _ => {
            proof {
                assert forall|m: Mark| mark_char(m) != *x by {
                    match m {
                        Mark::Underline => {},
                        _ => {},
                    }
                }
            }
            return None;
        },
    };
    Some(r)
}

/// Each mark is read back from its own character: the characters of
/// distinct marks differ.
pub proof fn law_mark_chars_distinct(a: Mark, b: Mark)
    ensures
        mark_char(a) == mark_char(b) <==> a == b,
{
}

} // verus!
