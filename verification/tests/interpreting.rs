use mainly_lang::eval::parse_expression;
use mainly_lang::interp::{interpret, DiagCode, Output, Status};
use mainly_lang::lexer::Lexer;
use mainly_lang::rational::Rational;
use mainly_lang::token::Fatal;

#[test]
fn printcal_with_a_single_number_prints_it() {
    let r = interpret("printcal 5");
    assert_eq!(r.outputs, vec![Output::Number(Rational { num: 5, den: 1 })]);
    assert_eq!(r.status, Status::Finished);
}

#[test]
fn print_with_empty_text_emits_an_empty_line() {
    let r = interpret("print \"\"");
    assert_eq!(r.outputs, vec![Output::Text(String::new())]);
    assert_eq!(r.status, Status::Finished);
}

#[test]
fn chain_evaluates_left_to_right_without_precedence() {
    let r = interpret("printcal 2 + 3 * 4");
    assert_eq!(r.outputs, vec![Output::Number(Rational { num: 20, den: 1 })]);
    assert_eq!(r.status, Status::Finished);
}

#[test]
fn division_by_zero_aborts_with_no_output() {
    let r = interpret("printcal 5 / 0");
    assert!(r.outputs.is_empty());
    assert_eq!(r.status, Status::Aborted(Fatal::DivisionByZero));
}

#[test]
fn print_emits_text_without_quotes() {
    let r = interpret("print \"hello\"");
    assert_eq!(r.outputs, vec![Output::Text(String::from("hello"))]);
    assert_eq!(r.status, Status::Finished);
}

#[test]
fn printcal_without_number_is_diagnostic_one() {
    let r = interpret("printcal +");
    assert!(r.outputs.is_empty());
    assert_eq!(r.status, Status::Diagnostic(DiagCode::PrintcalNeedsNumber, 1));
    assert_eq!(DiagCode::PrintcalNeedsNumber.code(), 1);
}

#[test]
fn bad_leading_token_is_diagnostic_three() {
    let r = interpret("42");
    assert!(r.outputs.is_empty());
    assert_eq!(r.status, Status::Diagnostic(DiagCode::BadLeadingToken, 1));
    assert_eq!(DiagCode::BadLeadingToken.code(), 3);
}

#[test]
fn empty_program_is_silent() {
    let r = interpret("");
    assert!(r.outputs.is_empty());
    assert_eq!(r.status, Status::Finished);
}

#[test]
fn chain_result_is_the_left_fold_of_its_numbers() {
    let r = interpret("printcal 10 - 2 - 3");
    assert_eq!(r.outputs, vec![Output::Number(Rational { num: 5, den: 1 })]);
    assert_eq!(r.status, Status::Finished);
}

#[test]
fn division_keeps_the_exact_rational() {
    let r = interpret("printcal 1 / 3");
    assert_eq!(r.outputs, vec![Output::Number(Rational { num: 1, den: 3 })]);
    assert_eq!(r.status, Status::Finished);
}

#[test]
fn print_without_text_is_diagnostic_two() {
    let r = interpret("print 5");
    assert!(r.outputs.is_empty());
    assert_eq!(r.status, Status::Diagnostic(DiagCode::PrintNeedsText, 1));
    assert_eq!(DiagCode::PrintNeedsText.code(), 2);
}

#[test]
fn diagnostic_cites_the_statement_index() {
    let r = interpret("print \"a\" print \"b\" print 5");
    assert_eq!(
        r.outputs,
        vec![
            Output::Text(String::from("a")),
            Output::Text(String::from("b")),
        ]
    );
    assert_eq!(r.status, Status::Diagnostic(DiagCode::PrintNeedsText, 3));
}

#[test]
fn statements_run_in_order() {
    let r = interpret("print \"x\" printcal 1 + 1");
    assert_eq!(
        r.outputs,
        vec![
            Output::Text(String::from("x")),
            Output::Number(Rational { num: 2, den: 1 }),
        ]
    );
    assert_eq!(r.status, Status::Finished);
}

#[test]
fn chain_accepts_only_arithmetic_until_the_end() {
    let r = interpret("printcal 1 + 1 print \"x\"");
    assert!(r.outputs.is_empty());
    assert_eq!(r.status, Status::Aborted(Fatal::UnexpectedToken));
}

#[test]
fn operator_needs_an_operand() {
    let r = interpret("printcal 1 + +");
    assert!(r.outputs.is_empty());
    assert_eq!(r.status, Status::Aborted(Fatal::ExpectedNumber));
}

#[test]
fn unknown_keyword_aborts_the_run() {
    let r = interpret("prin \"x\"");
    assert!(r.outputs.is_empty());
    assert_eq!(r.status, Status::Aborted(Fatal::UnknownKeyword));
}

#[test]
fn stray_character_aborts_the_run() {
    let r = interpret("print \"x\" ;");
    assert_eq!(r.outputs, vec![Output::Text(String::from("x"))]);
    assert_eq!(r.status, Status::Aborted(Fatal::UnexpectedChar));
}

#[test]
fn oversized_literal_aborts_the_run() {
    let r = interpret("printcal 99999999999999999999");
    assert!(r.outputs.is_empty());
    assert_eq!(r.status, Status::Aborted(Fatal::Overflow));
}

#[test]
fn oversized_running_value_aborts_the_run() {
    let r = interpret("printcal 9000000000000000000 + 9000000000000000000");
    assert!(r.outputs.is_empty());
    assert_eq!(r.status, Status::Aborted(Fatal::Overflow));
}

#[test]
fn expression_parser_reads_number_then_chain() {
    let mut lx = Lexer::new("2 + 3");
    assert_eq!(parse_expression(&mut lx), Ok(Rational { num: 5, den: 1 }));
}

#[test]
fn expression_parser_requires_a_leading_number() {
    let mut lx = Lexer::new("+ 3");
    assert_eq!(parse_expression(&mut lx), Err(Fatal::ExpectedNumber));
}
