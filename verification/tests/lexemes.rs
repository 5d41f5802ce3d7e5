use catly::parser::alphanum::{parse_alphanum, Alphanum};
use catly::parser::char::{parse_char, Char};
use catly::parser::keyword::{parse_keyword, Keyword};
use catly::parser::mark::{
    parse_colon, parse_comma, parse_dash, parse_equal, parse_l_curly_bracket, parse_l_par, parse_mark,
    parse_r_angle_bracket, parse_r_curly_bracket, parse_r_par, parse_star, parse_underline, parse_vertical_bar, Mark,
};
use catly::parser::name::let_name::parse_let_name;
use catly::parser::name::typename::parse_type_name;

#[test]
fn alphanum_test_part1() {
    assert_eq!(parse_alphanum(&'a'), Some(Alphanum::Lower('a')));
    assert_eq!(parse_alphanum(&'A'), Some(Alphanum::Upper('A')));
    assert_eq!(parse_alphanum(&'1'), Some(Alphanum::Digit(1)));

    assert_eq!(parse_alphanum(&'_'), None);
}

#[test]
fn char_test_parse_keyword() {
    assert_eq!(parse_char(&'a'), Some(Char::Lower('a')));
    assert_eq!(parse_char(&'A'), Some(Char::Upper('A')));
    assert_eq!(parse_char(&'1'), Some(Char::Digit(1)));

    assert_eq!(parse_char(&'_'), None);
}

#[test]
fn keyword_test_parse_keyword() {
    assert_eq!(parse_keyword("type"), Some(Keyword::Type));
    assert_eq!(parse_keyword("def"), Some(Keyword::Def));
    assert_eq!(parse_keyword("let"), Some(Keyword::Let));
    assert_eq!(parse_keyword("in"), Some(Keyword::In));
    assert_eq!(parse_keyword("if"), Some(Keyword::If));
    assert_eq!(parse_keyword("then"), Some(Keyword::Then));
    assert_eq!(parse_keyword("else"), Some(Keyword::Else));
    assert_eq!(parse_keyword("match"), Some(Keyword::Match));
    assert_eq!(parse_keyword("with"), Some(Keyword::With));

    assert_eq!(parse_keyword("abc"), None);
}

#[test]
fn test_parse_mark_part1() {
    assert!(parse_underline(&'_'));
    assert!(parse_l_par(&'('));
    assert!(parse_r_par(&')'));
    assert!(parse_l_curly_bracket(&'{'));
    assert!(parse_r_curly_bracket(&'}'));
    assert!(parse_colon(&':'));
    assert!(parse_star(&'*'));
    assert!(parse_comma(&','));
    assert!(parse_vertical_bar(&'|'));
    assert!(parse_equal(&'='));
    assert!(parse_dash(&'-'));
    assert!(parse_r_angle_bracket(&'>'));

    assert!(!parse_underline(&'a'));
    assert!(!parse_l_par(&'a'));
    assert!(!parse_r_par(&'a'));
    assert!(!parse_l_curly_bracket(&'a'));
    assert!(!parse_r_curly_bracket(&'a'));
    assert!(!parse_colon(&'a'));
    assert!(!parse_star(&'a'));
    assert!(!parse_comma(&'a'));
    assert!(!parse_vertical_bar(&'a'));
    assert!(!parse_equal(&'a'));
    assert!(!parse_dash(&'a'));
    assert!(!parse_r_angle_bracket(&'a'));
}

#[test]
fn test_parse_mark_part2() {
    assert_eq!(parse_mark(&'_'), Some(Mark::Underline));
    assert_eq!(parse_mark(&'('), Some(Mark::LeftPar));
    assert_eq!(parse_mark(&')'), Some(Mark::RightPar));
    assert_eq!(parse_mark(&'{'), Some(Mark::LeftCurlyBracket));
    assert_eq!(parse_mark(&'}'), Some(Mark::RightCurlyBracket));
    assert_eq!(parse_mark(&':'), Some(Mark::Colon));
    assert_eq!(parse_mark(&'*'), Some(Mark::Star));
    assert_eq!(parse_mark(&','), Some(Mark::Comma));
    assert_eq!(parse_mark(&'|'), Some(Mark::VerticalBar));
    assert_eq!(parse_mark(&'='), Some(Mark::Equal));
    assert_eq!(parse_mark(&'-'), Some(Mark::Dash));
    assert_eq!(parse_mark(&'>'), Some(Mark::RightAngleBracket));

    assert_eq!(parse_mark(&'a'), None);
    assert_eq!(parse_mark(&'1'), None);
}

#[test]
fn let_name_test_part1() {
    assert_eq!(parse_let_name("a1B2C3"), Some("a1B2C3".to_string()));
    assert_eq!(parse_let_name("A1b2c3"), None);
}

#[test]
fn type_name_test_part1() {
    assert_eq!(parse_type_name("a1B2C3"), None);
    assert_eq!(parse_type_name("A1b2c3"), Some("A1b2c3".to_string()));
}
