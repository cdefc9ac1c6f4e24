//! Location-aware rendering of text: decimal numbers, token text, and the
//! caret underline that points at a span of the original input.

use vstd::prelude::*;
use vstd::string::StringSliceAdditionalSpecFns;

use crate::interpreter::InterpreterError;
use crate::lexer::LexError;
use crate::lexer::LexErrorKind;
use crate::lexer::Location;
use crate::lexer::TokenKind;
use crate::parser::ApplicationError;
use crate::parser::ParseError;

verus! {

/// The character of one decimal digit value.
pub open spec fn digit_char(d: int) -> char {
    if d == 0 {
        '0'
    } else if d == 1 {
        '1'
    } else if d == 2 {
        '2'
    } else if d == 3 {
        '3'
    } else if d == 4 {
        '4'
    } else if d == 5 {
        '5'
    } else if d == 6 {
        '6'
    } else if d == 7 {
        '7'
    } else if d == 8 {
        '8'
    } else {
        '9'
    }
}

/// The decimal text of `n`, most significant digit first, no leading zeros
/// (a single `0` for zero).
pub open spec fn dec_str(n: nat) -> Seq<char>
    decreases n,
{
    if n < 10 {
        seq![digit_char(n as int)]
    } else {
        dec_str(n / 10).push(digit_char((n % 10) as int))
    }
}

/// `piece` repeated `n` times.
pub open spec fn repeat_seq(piece: Seq<char>, n: nat) -> Seq<char>
    decreases n,
{
    if n == 0 {
        Seq::empty()
    } else {
        repeat_seq(piece, (n - 1) as nat) + piece
    }
}

/// Append one decimal digit to `buf`.
fn push_digit(buf: &mut String, d: u64)
    requires
        d < 10,
    ensures
        final(buf)@ == old(buf)@ + seq![digit_char(d as int)],
{
    match d {
        0 => {
            proof {
                reveal_strlit("0");
                assert("0"@ =~= seq![digit_char(0)]);
            }
            buf.append("0");
        },
        1 => {
            proof {
                reveal_strlit("1");
                assert("1"@ =~= seq![digit_char(1)]);
            }
            buf.append("1");
        },
        2 => {
            proof {
                reveal_strlit("2");
                assert("2"@ =~= seq![digit_char(2)]);
            }
            buf.append("2");
        },
        3 => {
            proof {
                reveal_strlit("3");
                assert("3"@ =~= seq![digit_char(3)]);
            }
            buf.append("3");
        },
        4 => {
            proof {
                reveal_strlit("4");
                assert("4"@ =~= seq![digit_char(4)]);
            }
            buf.append("4");
        },
        5 => {
            proof {
                reveal_strlit("5");
                assert("5"@ =~= seq![digit_char(5)]);
            }
            buf.append("5");
        },
        6 => {
            proof {
                reveal_strlit("6");
                assert("6"@ =~= seq![digit_char(6)]);
            }
            buf.append("6");
        },
        7 => {
            proof {
                reveal_strlit("7");
                assert("7"@ =~= seq![digit_char(7)]);
            }
            buf.append("7");
        },
        8 => {
            proof {
                reveal_strlit("8");
                assert("8"@ =~= seq![digit_char(8)]);
            }
            buf.append("8");
        },
        _ => {
            proof {
                reveal_strlit("9");
                assert("9"@ =~= seq![digit_char(9)]);
            }
            buf.append("9");
        },
    }
}

/// Append the decimal text of `n` to `buf`.
pub fn push_decimal(buf: &mut String, n: u64)
    ensures
        final(buf)@ == old(buf)@ + dec_str(n as nat),
    decreases n,
{
    if n >= 10 {
        push_decimal(buf, n / 10);
        push_digit(buf, n % 10);
        proof {
            assert(old(buf)@ + dec_str((n / 10) as nat) + seq![digit_char((n % 10) as int)]
                =~= old(buf)@ + dec_str(n as nat));
        }
    } else {
        push_digit(buf, n);
    }
}

/// Append `piece` to `buf` `n` times over.
pub fn push_repeat(buf: &mut String, piece: &str, n: usize)
    ensures
        final(buf)@ == old(buf)@ + repeat_seq(piece@, n as nat),
{
    let mut i: usize = 0;
    proof {
        assert(old(buf)@ + repeat_seq(piece@, 0) =~= old(buf)@);
    }
    while i < n
        invariant
            i <= n,
            buf@ == old(buf)@ + repeat_seq(piece@, i as nat),
        decreases n - i,
    {
        buf.append(piece);
        i = i + 1;
        proof {
            assert(old(buf)@ + repeat_seq(piece@, (i - 1) as nat) + piece@ =~= old(buf)@
                + repeat_seq(piece@, i as nat));
        }
    }
}

/// The text of a token, as it is written in the input.
pub open spec fn token_text(k: TokenKind) -> Seq<char> {
    match k {
        TokenKind::Number(n) => dec_str(n as nat),
        TokenKind::Plus => seq!['+'],
        TokenKind::Minus => seq!['-'],
        TokenKind::Asterisk => seq!['*'],
        TokenKind::Slash => seq!['/'],
        TokenKind::LParen => seq!['('],
        TokenKind::RParen => seq![')'],
    }
}

/// Append the text of a token to `buf`.
pub fn push_token_text(buf: &mut String, k: TokenKind)
    ensures
        final(buf)@ == old(buf)@ + token_text(k),
{
    match k {
        TokenKind::Number(n) => push_decimal(buf, n),
        TokenKind::Plus => {
            proof {
                reveal_strlit("+");
                assert("+"@ =~= seq!['+']);
            }
            buf.append("+");
        },
        TokenKind::Minus => {
            proof {
                reveal_strlit("-");
                assert("-"@ =~= seq!['-']);
            }
            buf.append("-");
        },
        TokenKind::Asterisk => {
            proof {
                reveal_strlit("*");
                assert("*"@ =~= seq!['*']);
            }
            buf.append("*");
        },
        TokenKind::Slash => {
            proof {
                reveal_strlit("/");
                assert("/"@ =~= seq!['/']);
            }
            buf.append("/");
        },
        TokenKind::LParen => {
            proof {
                reveal_strlit("(");
                assert("("@ =~= seq!['(']);
            }
            buf.append("(");
        },
        TokenKind::RParen => {
            proof {
                reveal_strlit(")");
                assert(")"@ =~= seq![')']);
            }
            buf.append(")");
        },
    }
}

/// The text of a location: `start-end`.
pub open spec fn location_text(loc: Location) -> Seq<char> {
    dec_str(loc.0 as nat) + seq!['-'] + dec_str(loc.1 as nat)
}

/// Append the text of a location to `buf`.
pub fn push_location_text(buf: &mut String, loc: &Location)
    ensures
        final(buf)@ == old(buf)@ + location_text(*loc),
{
    push_decimal(buf, loc.0 as u64);
    proof {
        reveal_strlit("-");
        assert("-"@ =~= seq!['-']);
    }
    buf.append("-");
    push_decimal(buf, loc.1 as u64);
    proof {
        assert(old(buf)@ + dec_str(loc.0 as nat) + seq!['-'] + dec_str(loc.1 as nat) =~= old(buf)@
            + location_text(*loc));
    }
}

/// The two-line rendering of a span against the input: the input itself,
/// then a line of blanks and carets underlining the bytes `[loc.0, loc.1)`.
pub open spec fn annotation_text(input: Seq<char>, loc: Location) -> Seq<char> {
    input + seq!['\n'] + repeat_seq(seq![' '], loc.0 as nat) + repeat_seq(
        seq!['^'],
        (loc.1 - loc.0) as nat,
    )
}

/// Render a span against the original input: the input line, then a line
/// with a caret under each byte of the span.
pub fn render_annotation(input: &str, loc: &Location) -> (r: String)
    requires
        loc.0 <= loc.1,
    ensures
        r@ == annotation_text(input@, *loc),
{
    let mut buf = input.to_owned();
    proof {
        reveal_strlit("\n");
        assert("\n"@ =~= seq!['\n']);
        reveal_strlit(" ");
        assert(" "@ =~= seq![' ']);
        reveal_strlit("^");
        assert("^"@ =~= seq!['^']);
    }
    buf.append("\n");
    push_repeat(&mut buf, " ", loc.0);
    push_repeat(&mut buf, "^", loc.1 - loc.0);
    proof {
        assert(input@ + seq!['\n'] + repeat_seq(seq![' '], loc.0 as nat) + repeat_seq(
            seq!['^'],
            (loc.1 - loc.0) as nat,
        ) =~= annotation_text(input@, *loc));
    }
    buf
}

/// The message of a lexical error.
pub open spec fn lex_error_message(e: LexError) -> Seq<char> {
    match e.value {
        LexErrorKind::InvalidChar(_) => location_text(e.location) + ": invalid character"@,
        LexErrorKind::Eof => location_text(e.location) + ": unexpected end of input"@,
    }
}

impl LexError {
    /// The human-readable message of the error.
    pub fn message(&self) -> (r: String)
        ensures
            r@ == lex_error_message(*self),
    {
        let mut buf = String::new();
        push_location_text(&mut buf, &self.location);
        match self.value {
            LexErrorKind::InvalidChar(_) => buf.append(": invalid character"),
            LexErrorKind::Eof => buf.append(": unexpected end of input"),
        }
        proof {
            assert(buf@ =~= lex_error_message(*self));
        }
        buf
    }
}

/// The message of a syntax error.
pub open spec fn parse_error_message(e: ParseError) -> Seq<char> {
    match e {
        ParseError::UnexpectedToken(tok) => location_text(tok.location) + ": '"@ + token_text(
            tok.value,
        ) + "' is not expected"@,
        ParseError::NotExpression(tok) => location_text(tok.location) + ": '"@ + token_text(
            tok.value,
        ) + "' is not start of expression"@,
        ParseError::NotOperator(tok) => location_text(tok.location) + ": '"@ + token_text(
            tok.value,
        ) + "' is not an operator"@,
        ParseError::UnclosedOpenParen(tok) => location_text(tok.location) + ": '"@ + token_text(
            tok.value,
        ) + "' is not closed"@,
        ParseError::RedundantExpression(tok) => location_text(tok.location)
            + ": expression after '"@ + token_text(tok.value) + "' is redundant"@,
        ParseError::Eof => "End of file"@,
    }
}

impl ParseError {
    /// The human-readable message of the error.
    pub fn message(&self) -> (r: String)
        ensures
            r@ == parse_error_message(*self),
    {
        let mut buf = String::new();
        match self {
            ParseError::UnexpectedToken(tok) => {
                push_location_text(&mut buf, &tok.location);
                buf.append(": '");
                push_token_text(&mut buf, tok.value);
                buf.append("' is not expected");
            },
            ParseError::NotExpression(tok) => {
                push_location_text(&mut buf, &tok.location);
                buf.append(": '");
                push_token_text(&mut buf, tok.value);
                buf.append("' is not start of expression");
            },
            ParseError::NotOperator(tok) => {
                push_location_text(&mut buf, &tok.location);
                buf.append(": '");
                push_token_text(&mut buf, tok.value);
                buf.append("' is not an operator");
            },
            ParseError::UnclosedOpenParen(tok) => {
                push_location_text(&mut buf, &tok.location);
                buf.append(": '");
                push_token_text(&mut buf, tok.value);
                buf.append("' is not closed");
            },
            ParseError::RedundantExpression(tok) => {
                push_location_text(&mut buf, &tok.location);
                buf.append(": expression after '");
                push_token_text(&mut buf, tok.value);
                buf.append("' is redundant");
            },
            ParseError::Eof => {
                buf.append("End of file");
            },
        }
        proof {
            assert(buf@ =~= parse_error_message(*self));
        }
        buf
    }
}

/// The message of an error of either stage: the inner error's own message.
pub open spec fn application_error_message(e: ApplicationError) -> Seq<char> {
    match e {
        ApplicationError::Lexer(le) => lex_error_message(le),
        ApplicationError::Parser(pe) => parse_error_message(pe),
    }
}

/// Where the diagnostic for the error points in an input of `input_len`
/// bytes: most errors keep their own span; after a redundant token
/// everything up to the end of the input is redundant; an end-of-input
/// error points one byte past the end.
pub open spec fn spec_diagnostic_location(e: ApplicationError, input_len: int) -> Location {
    match e {
        ApplicationError::Lexer(le) => le.location,
        ApplicationError::Parser(pe) => match pe {
            ParseError::UnexpectedToken(t) => t.location,
            ParseError::NotExpression(t) => t.location,
            ParseError::NotOperator(t) => t.location,
            ParseError::UnclosedOpenParen(t) => t.location,
            ParseError::RedundantExpression(t) => Location(t.location.0, input_len as usize),
            ParseError::Eof => Location(input_len as usize, (input_len + 1) as usize),
        },
    }
}

impl ApplicationError {
    /// The human-readable message of the error.
    pub fn message(&self) -> (r: String)
        ensures
            r@ == application_error_message(*self),
    {
        match self {
            ApplicationError::Lexer(e) => e.message(),
            ApplicationError::Parser(e) => e.message(),
        }
    }

    /// The span the diagnostic underlines, given the byte length of the
    /// input the error came from.
    pub fn diagnostic_location(&self, input_len: usize) -> (r: Location)
        requires
            input_len < usize::MAX,
        ensures
            r == spec_diagnostic_location(*self, input_len as int),
    {
        match self {
            ApplicationError::Lexer(e) => e.location,
            ApplicationError::Parser(e) => match e {
                ParseError::UnexpectedToken(t) => t.location,
                ParseError::NotExpression(t) => t.location,
                ParseError::NotOperator(t) => t.location,
                ParseError::UnclosedOpenParen(t) => t.location,
                ParseError::RedundantExpression(t) => Location(t.location.0, input_len),
                ParseError::Eof => Location(input_len, input_len + 1),
            },
        }
    }

    /// The full diagnostic against the input the error came from: the
    /// message, then the input, then the caret line under the span.
    pub fn diagnostic(&self, input: &str) -> (r: String)
        requires
            input.spec_bytes().len() < usize::MAX,
            ({
                let loc = spec_diagnostic_location(*self, input.spec_bytes().len() as int);
                loc.0 <= loc.1
            }),
        ensures
            r@ == application_error_message(*self) + seq!['\n'] + annotation_text(
                input@,
                spec_diagnostic_location(*self, input.spec_bytes().len() as int),
            ),
    {
        let loc = self.diagnostic_location(input.len());
        let mut buf = self.message();
        proof {
            reveal_strlit("\n");
            assert("\n"@ =~= seq!['\n']);
        }
        buf.append("\n");
        let annotation = render_annotation(input, &loc);
        buf.append(annotation.as_str());
        buf
    }
}

impl InterpreterError {
    /// The human-readable message of the error.
    pub fn message(&self) -> (r: String)
        ensures
            r@ == "the right hand expression of the division evaluates to zero"@,
    {
        let mut buf = String::new();
        proof {
            assert(Seq::<char>::empty()
                + "the right hand expression of the division evaluates to zero"@
                =~= "the right hand expression of the division evaluates to zero"@);
        }
        buf.append("the right hand expression of the division evaluates to zero");
        buf
    }

    /// The full diagnostic against the input the error came from: the
    /// message, then the input, then the caret line under the span.
    pub fn diagnostic(&self, input: &str) -> (r: String)
        requires
            self.location.0 <= self.location.1,
        ensures
            r@ == "the right hand expression of the division evaluates to zero"@ + seq!['\n']
                + annotation_text(input@, self.location),
    {
        let mut buf = self.message();
        proof {
            reveal_strlit("\n");
            assert("\n"@ =~= seq!['\n']);
        }
        buf.append("\n");
        let annotation = render_annotation(input, &self.location);
        buf.append(annotation.as_str());
        buf
    }
}

} // verus!
