use rpn_calc::lexer::lex;
use rpn_calc::lexer::LexErrorKind;
use rpn_calc::lexer::Location;
use rpn_calc::lexer::Token;

#[test]
fn test_lexer() {
    assert_eq!(
        lex("1 + 2 * 3 - -10"),
        Ok(vec![
            Token::number(1, Location(0, 1)),
            Token::plus(Location(2, 3)),
            Token::number(2, Location(4, 5)),
            Token::asterisk(Location(6, 7)),
            Token::number(3, Location(8, 9)),
            Token::minus(Location(10, 11)),
            Token::minus(Location(12, 13)),
            Token::number(10, Location(13, 15)),
        ])
    )
}

#[test]
fn test_lex_empty_and_whitespace() {
    assert_eq!(lex(""), Ok(vec![]));
    assert_eq!(lex(" \t\n "), Ok(vec![]));
}

#[test]
fn test_lex_number_spans() {
    // Maximal digit runs, with spans covering the whole run.
    assert_eq!(
        lex("12 345"),
        Ok(vec![
            Token::number(12, Location(0, 2)),
            Token::number(345, Location(3, 6)),
        ])
    );
}

#[test]
fn test_lex_largest_number() {
    assert_eq!(
        lex("18446744073709551615"),
        Ok(vec![Token::number(u64::MAX, Location(0, 20))])
    );
}

#[test]
fn test_lex_invalid_char() {
    // The first invalid byte fails the lex, at its own position.
    let r = lex("1 @ 2");
    assert_eq!(
        r,
        Err(rpn_calc::lexer::LexError::invalid_char(
            '@',
            Location(2, 3)
        ))
    );
    match r {
        Err(e) => {
            assert_eq!(e.value, LexErrorKind::InvalidChar('@'));
            assert_eq!(e.location, Location(2, 3));
        }
        Ok(_) => panic!("lexing should have failed"),
    }
}

#[test]
fn test_lex_spans_tile_nonwhitespace() {
    // Concatenated spans tile exactly the non-whitespace positions in order.
    let input = "10 + (2*3)";
    let tokens = lex(input).unwrap();
    let mut covered = vec![false; input.len()];
    let mut last_end = 0;
    for t in &tokens {
        assert!(t.location.0 < t.location.1);
        assert!(last_end <= t.location.0);
        last_end = t.location.1;
        for p in t.location.0..t.location.1 {
            covered[p] = true;
        }
    }
    for (p, byte) in input.bytes().enumerate() {
        assert_eq!(covered[p], byte != b' ');
    }
}

#[test]
fn test_lex_deterministic() {
    let input = "1 + 2 * (3 - 4)";
    assert_eq!(lex(input), lex(input));
}
