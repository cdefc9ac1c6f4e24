use rpn_calc::diagnostics::render_annotation;
use rpn_calc::interpreter::Interpreter;
use rpn_calc::lexer::lex;
use rpn_calc::lexer::Location;
use rpn_calc::lexer::Token;
use rpn_calc::parser::parse_text;
use rpn_calc::parser::ParseError;

#[test]
fn test_render_annotation() {
    assert_eq!(render_annotation("1 / 0", &Location(0, 5)), "1 / 0\n^^^^^");
    assert_eq!(render_annotation("1 + 2", &Location(2, 3)), "1 + 2\n  ^");
    // An end-of-input span may point one past the end.
    assert_eq!(render_annotation("1 +", &Location(3, 4)), "1 +\n   ^");
}

#[test]
fn test_parse_error_messages() {
    let tok = Token::asterisk(Location(4, 5));
    assert_eq!(
        ParseError::UnexpectedToken(tok).message(),
        "4-5: '*' is not expected"
    );
    assert_eq!(
        ParseError::NotExpression(tok).message(),
        "4-5: '*' is not start of expression"
    );
    assert_eq!(
        ParseError::NotOperator(Token::number(12, Location(0, 2))).message(),
        "0-2: '12' is not an operator"
    );
    assert_eq!(
        ParseError::UnclosedOpenParen(Token::lparen(Location(0, 1))).message(),
        "0-1: '(' is not closed"
    );
    assert_eq!(
        ParseError::RedundantExpression(Token::number(2, Location(2, 3))).message(),
        "2-3: expression after '2' is redundant"
    );
    assert_eq!(ParseError::Eof.message(), "End of file");
}

#[test]
fn test_diagnostic_widens_redundant_span() {
    // Everything after a redundant token is redundant: the diagnostic span
    // runs from the token to the end of the input.
    let input = "1 2 + 3";
    let e = parse_text(input).unwrap_err();
    let loc = e.diagnostic_location(input.len());
    assert_eq!(loc, Location(2, 7));
    assert_eq!(e.diagnostic(input), format!("{}\n{}\n  ^^^^^", e.message(), input));
}

#[test]
fn test_diagnostic_eof_past_end() {
    // An end-of-input error points one byte past the end.
    let input = "1 +";
    let e = parse_text(input).unwrap_err();
    assert_eq!(e.diagnostic_location(input.len()), Location(3, 4));
    assert_eq!(e.diagnostic(input), "End of file\n1 +\n   ^");
}

#[test]
fn test_diagnostic_lexer_span() {
    let input = "1 @ 2";
    let e = parse_text(input).unwrap_err();
    assert_eq!(e.diagnostic_location(input.len()), Location(2, 3));
    assert_eq!(e.message(), "2-3: invalid character");
    assert_eq!(e.diagnostic(input), "2-3: invalid character\n1 @ 2\n  ^");
}

#[test]
fn test_interpreter_error_diagnostic() {
    let input = "1 / 0";
    let ast = parse_text(input).unwrap();
    let mut interpreter = Interpreter::new();
    let e = interpreter.eval(&ast).unwrap_err();
    assert_eq!(
        e.message(),
        "the right hand expression of the division evaluates to zero"
    );
    assert_eq!(
        e.diagnostic(input),
        "the right hand expression of the division evaluates to zero\n1 / 0\n^^^^^"
    );
    // The lexer keeps working after an error: each call is independent.
    assert!(lex(input).is_ok());
}
