use rpn_calc::interpreter::Interpreter;
use rpn_calc::interpreter::InterpreterError;
use rpn_calc::interpreter::InterpreterErrorKind;
use rpn_calc::lexer::lex;
use rpn_calc::lexer::Annotation;
use rpn_calc::lexer::Location;
use rpn_calc::parser::parse;

#[test]
fn test_eval_scenario() {
    let ast = parse(lex("1 + 2 * 3 - -10").unwrap()).unwrap();
    let mut interpreter = Interpreter::new();
    assert_eq!(interpreter.eval(&ast), Ok(17));
}

#[test]
fn test_division_by_zero() {
    // "1 / 0" fails with the span of the whole binary expression.
    let ast = parse(lex("1 / 0").unwrap()).unwrap();
    let mut interpreter = Interpreter::new();
    assert_eq!(
        interpreter.eval(&ast),
        Err(InterpreterError::new(
            InterpreterErrorKind::DivisionByZero,
            Location(0, 5)
        ))
    );
    let nested = parse(lex("2 + 1 / (3 - 3)").unwrap()).unwrap();
    assert_eq!(
        interpreter.eval(&nested),
        Err(Annotation::new(
            InterpreterErrorKind::DivisionByZero,
            Location(4, 14)
        ))
    );
}

#[test]
fn test_eval_truncating_division() {
    let mut interpreter = Interpreter::new();
    let a = parse(lex("-7 / 2").unwrap()).unwrap();
    assert_eq!(interpreter.eval(&a), Ok(-3));
    let b = parse(lex("7 / -2").unwrap()).unwrap();
    assert_eq!(interpreter.eval(&b), Ok(-3));
    let c = parse(lex("-7 / -2").unwrap()).unwrap();
    assert_eq!(interpreter.eval(&c), Ok(3));
}

#[test]
fn test_eval_unary() {
    let mut interpreter = Interpreter::new();
    let a = parse(lex("-5 + +3").unwrap()).unwrap();
    assert_eq!(interpreter.eval(&a), Ok(-2));
}
