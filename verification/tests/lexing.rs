use mainly_lang::lexer::Lexer;
use mainly_lang::rational::Rational;
use mainly_lang::token::{Fatal, Token};

#[test]
fn integer_literal_has_exact_value() {
    let mut lx = Lexer::new("10");
    assert_eq!(lx.next_token(), Ok(Token::Number(Rational { num: 10, den: 1 })));
    assert_eq!(lx.next_token(), Ok(Token::EndOfInput));
}

#[test]
fn decimal_literal_has_exact_value() {
    let mut lx = Lexer::new("3.14");
    assert_eq!(lx.next_token(), Ok(Token::Number(Rational { num: 314, den: 100 })));
}

#[test]
fn leading_zero_decimal_has_exact_value() {
    let mut lx = Lexer::new("0.5");
    assert_eq!(lx.next_token(), Ok(Token::Number(Rational { num: 5, den: 10 })));
}

#[test]
fn bare_point_starts_a_fraction() {
    let mut lx = Lexer::new(".5");
    assert_eq!(lx.next_token(), Ok(Token::Number(Rational { num: 5, den: 10 })));
}

#[test]
fn trailing_point_ends_the_integer() {
    let mut lx = Lexer::new("5.");
    assert_eq!(lx.next_token(), Ok(Token::Number(Rational { num: 5, den: 1 })));
}

#[test]
fn second_point_terminates_the_literal() {
    let mut lx = Lexer::new("1.2.3");
    assert_eq!(lx.next_token(), Ok(Token::Number(Rational { num: 12, den: 10 })));
    assert_eq!(lx.next_token(), Ok(Token::Number(Rational { num: 3, den: 10 })));
}

#[test]
fn huge_literal_overflows() {
    let mut lx = Lexer::new("99999999999999999999");
    assert_eq!(lx.next_token(), Err(Fatal::Overflow));
}

#[test]
fn keywords_are_recognized() {
    let mut lx = Lexer::new("print printcal");
    assert_eq!(lx.next_token(), Ok(Token::Print));
    assert_eq!(lx.next_token(), Ok(Token::PrintCal));
    assert_eq!(lx.next_token(), Ok(Token::EndOfInput));
}

#[test]
fn unknown_keyword_is_fatal() {
    let mut lx = Lexer::new("printx");
    assert_eq!(lx.next_token(), Err(Fatal::UnknownKeyword));
}

#[test]
fn longer_word_after_printcal_is_fatal() {
    let mut lx = Lexer::new("printcalc");
    assert_eq!(lx.next_token(), Err(Fatal::UnknownKeyword));
}

#[test]
fn quoted_text_loses_its_quotes() {
    let mut lx = Lexer::new("\"a b\"");
    assert_eq!(lx.next_token(), Ok(Token::Text(String::from("a b"))));
    assert_eq!(lx.next_token(), Ok(Token::EndOfInput));
}

#[test]
fn unterminated_text_runs_to_the_end() {
    let mut lx = Lexer::new("\"abc");
    assert_eq!(lx.next_token(), Ok(Token::Text(String::from("abc"))));
    assert_eq!(lx.next_token(), Ok(Token::EndOfInput));
}

#[test]
fn operators_scan_one_character_each() {
    let mut lx = Lexer::new(" + - * / ");
    assert_eq!(lx.next_token(), Ok(Token::Plus));
    assert_eq!(lx.next_token(), Ok(Token::Minus));
    assert_eq!(lx.next_token(), Ok(Token::Multiply));
    assert_eq!(lx.next_token(), Ok(Token::Divide));
    assert_eq!(lx.next_token(), Ok(Token::EndOfInput));
}

#[test]
fn stray_character_is_fatal() {
    let mut lx = Lexer::new("?");
    assert_eq!(lx.next_token(), Err(Fatal::UnexpectedChar));
}

#[test]
fn empty_input_ends_at_once() {
    let mut lx = Lexer::new("");
    assert_eq!(lx.next_token(), Ok(Token::EndOfInput));
}
