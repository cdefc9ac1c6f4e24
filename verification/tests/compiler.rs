use rpn_calc::compiler::RpnCompiler;
use rpn_calc::lexer::lex;
use rpn_calc::lexer::Location;
use rpn_calc::parser::parse;
use rpn_calc::parser::Ast;

#[test]
fn test_compile_scenario() {
    // "1 + 2 * 3 - -10" compiles to postfix with a prefix sign on the 10:
    // each binary node is "<left> <right> <op>", so the subtraction's "-"
    // comes last.
    let ast = parse(lex("1 + 2 * 3 - -10").unwrap()).unwrap();
    let mut compiler = RpnCompiler::new();
    assert_eq!(compiler.compile(&ast), "1 2 3 * + -10 -");
}

#[test]
fn test_compile_number() {
    let mut compiler = RpnCompiler::new();
    assert_eq!(compiler.compile(&Ast::num(0, Location(0, 1))), "0");
    assert_eq!(compiler.compile(&Ast::num(907, Location(0, 3))), "907");
    assert_eq!(
        compiler.compile(&Ast::num(u64::MAX, Location(0, 20))),
        "18446744073709551615"
    );
}

#[test]
fn test_compile_nested() {
    let ast = parse(lex("(1 - 2) / (3 + 4)").unwrap()).unwrap();
    let mut compiler = RpnCompiler::new();
    assert_eq!(compiler.compile(&ast), "1 2 - 3 4 + /");
}
