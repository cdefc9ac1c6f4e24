use rpn_calc::lexer::lex;
use rpn_calc::lexer::Location;
use rpn_calc::lexer::Token;
use rpn_calc::parser::parse;
use rpn_calc::parser::parse_atom;
use rpn_calc::parser::parse_text;
use rpn_calc::parser::ApplicationError;
use rpn_calc::parser::Ast;
use rpn_calc::parser::BinaryOperator;
use rpn_calc::parser::BinaryOperatorKind;
use rpn_calc::parser::ParseError;
use rpn_calc::parser::UnaryOperator;

#[test]
fn test_parser() {
    // 1 + 2 * 3 - -10
    let ast = parse(vec![
        Token::number(1, Location(0, 1)),
        Token::plus(Location(2, 3)),
        Token::number(2, Location(4, 5)),
        Token::asterisk(Location(6, 7)),
        Token::number(3, Location(8, 9)),
        Token::minus(Location(10, 11)),
        Token::minus(Location(12, 13)),
        Token::number(10, Location(13, 15)),
    ]);
    assert_eq!(
        ast,
        Ok(Ast::binary(
            BinaryOperator::sub(Location(10, 11)),
            Ast::binary(
                BinaryOperator::add(Location(2, 3)),
                Ast::num(1, Location(0, 1)),
                Ast::binary(
                    BinaryOperator::new(BinaryOperatorKind::Multi, Location(6, 7)),
                    Ast::num(2, Location(4, 5)),
                    Ast::num(3, Location(8, 9)),
                    Location(4, 9)
                ),
                Location(0, 9),
            ),
            Ast::unary(
                UnaryOperator::minus(Location(12, 13)),
                Ast::num(10, Location(13, 15)),
                Location(12, 15)
            ),
            Location(0, 15)
        ))
    )
}

#[test]
fn test_parse_atom_num() {
    let tokens = vec![Token::number(1, Location(0, 1))];
    assert_eq!(parse_atom(&tokens, 0), Ok((Ast::num(1, Location(0, 1)), 1)));
}

#[test]
fn test_left_associativity() {
    // "1 - 2 - 3" groups to the left: Binary(Sub, Binary(Sub, 1, 2), 3).
    let tokens = lex("1 - 2 - 3").unwrap();
    assert_eq!(
        parse(tokens),
        Ok(Ast::binary(
            BinaryOperator::sub(Location(6, 7)),
            Ast::binary(
                BinaryOperator::sub(Location(2, 3)),
                Ast::num(1, Location(0, 1)),
                Ast::num(2, Location(4, 5)),
                Location(0, 5),
            ),
            Ast::num(3, Location(8, 9)),
            Location(0, 9),
        ))
    );
}

#[test]
fn test_precedence() {
    // "1 + 2 * 3" parses as Binary(Add, 1, Binary(Mul, 2, 3)).
    let tokens = lex("1 + 2 * 3").unwrap();
    assert_eq!(
        parse(tokens),
        Ok(Ast::binary(
            BinaryOperator::add(Location(2, 3)),
            Ast::num(1, Location(0, 1)),
            Ast::binary(
                BinaryOperator::multi(Location(6, 7)),
                Ast::num(2, Location(4, 5)),
                Ast::num(3, Location(8, 9)),
                Location(4, 9),
            ),
            Location(0, 9),
        ))
    );
}

#[test]
fn test_paren_wrap_keeps_tree() {
    // Wrapping the token sequence in one pair of parentheses yields the
    // identical tree, spans included, since the inner tokens are unchanged.
    let tokens = lex("1 + 2 * 3").unwrap();
    let mut wrapped = vec![Token::lparen(Location(90, 91))];
    wrapped.extend(tokens.iter().cloned());
    wrapped.push(Token::rparen(Location(92, 93)));
    assert_eq!(parse(wrapped), parse(tokens));
}

#[test]
fn test_paren_wrap_text_shape() {
    // At the text level the spans shift by one, but the shape is the same.
    let plain = parse_text("7").unwrap();
    let wrapped = parse_text("(7)").unwrap();
    assert_eq!(plain, Ast::num(7, Location(0, 1)));
    assert_eq!(wrapped, Ast::num(7, Location(1, 2)));
}

#[test]
fn test_paren_wrap_text_shifts_spans() {
    // Wrapping the whole input shifts every span right by one byte.
    let wrapped = parse_text("(1 + 2 * 3)").unwrap();
    assert_eq!(
        wrapped,
        Ast::binary(
            BinaryOperator::add(Location(3, 4)),
            Ast::num(1, Location(1, 2)),
            Ast::binary(
                BinaryOperator::multi(Location(7, 8)),
                Ast::num(2, Location(5, 6)),
                Ast::num(3, Location(9, 10)),
                Location(5, 10),
            ),
            Location(1, 10),
        )
    );
}

#[test]
fn test_unclosed_open_paren() {
    // "(1 + 2" fails with UnclosedOpenParen pointing at the "(" token.
    let tokens = lex("(1 + 2").unwrap();
    assert_eq!(
        parse(tokens),
        Err(ParseError::UnclosedOpenParen(Token::lparen(Location(0, 1))))
    );
}

#[test]
fn test_redundant_expression() {
    // "1 2" fails with RedundantExpression pointing at the second token.
    let tokens = lex("1 2").unwrap();
    assert_eq!(
        parse(tokens),
        Err(ParseError::RedundantExpression(Token::number(
            2,
            Location(2, 3)
        )))
    );
}

#[test]
fn test_redundant_inside_paren() {
    // Extra tokens inside a parenthesis before the ")" are redundant too.
    let tokens = lex("(1 2)").unwrap();
    assert_eq!(
        parse(tokens),
        Err(ParseError::RedundantExpression(Token::number(
            2,
            Location(3, 4)
        )))
    );
}

#[test]
fn test_eof_errors() {
    assert_eq!(parse(vec![]), Err(ParseError::Eof));
    let tokens = lex("1 +").unwrap();
    assert_eq!(parse(tokens), Err(ParseError::Eof));
}

#[test]
fn test_not_expression() {
    // "*" cannot start an atom.
    let tokens = lex("* 2").unwrap();
    assert_eq!(
        parse(tokens),
        Err(ParseError::NotExpression(Token::asterisk(Location(0, 1))))
    );
}

#[test]
fn test_unary_binds_one_atom() {
    // "- -10" only arises from binary subtraction; a single leading sign
    // applies to exactly one atom.
    let tokens = lex("-1 - -2").unwrap();
    assert_eq!(
        parse(tokens),
        Ok(Ast::binary(
            BinaryOperator::sub(Location(3, 4)),
            Ast::unary(
                UnaryOperator::minus(Location(0, 1)),
                Ast::num(1, Location(1, 2)),
                Location(0, 2),
            ),
            Ast::unary(
                UnaryOperator::minus(Location(5, 6)),
                Ast::num(2, Location(6, 7)),
                Location(5, 7),
            ),
            Location(0, 7),
        ))
    );
}

#[test]
fn test_double_unary_rejected() {
    // The grammar does not stack unary signs: "--5" fails on the second "-".
    let tokens = lex("--5").unwrap();
    assert_eq!(
        parse(tokens),
        Err(ParseError::NotExpression(Token::minus(Location(1, 2))))
    );
}

#[test]
fn test_parse_text_stages() {
    // parse_text tags which stage failed.
    assert_eq!(
        parse_text("1 @"),
        Err(ApplicationError::Lexer(
            rpn_calc::lexer::LexError::invalid_char('@', Location(2, 3))
        ))
    );
    assert_eq!(
        parse_text("1 +"),
        Err(ApplicationError::Parser(ParseError::Eof))
    );
    assert_eq!(parse_text("5"), Ok(Ast::num(5, Location(0, 1))));
}

#[test]
fn test_parse_text_deterministic() {
    let input = "1 + 2 * (3 - 4) / -5";
    assert_eq!(parse_text(input), parse_text(input));
}
