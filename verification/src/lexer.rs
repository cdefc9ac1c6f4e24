//! Position-tracking lexer for the four-operator arithmetic language.
//!
//! The lexer scans the byte representation of the input from left to right
//! and produces a sequence of tokens, each annotated with the half-open
//! byte range it was read from.  Its behaviour is pinned down by the
//! specification function [`spec_lex`].

use vstd::prelude::*;
use vstd::string::StringSliceAdditionalSpecFns;

verus! {

/// A half-open range `[start, end)` of byte offsets into the input text.
#[derive(Debug, Clone, Copy, PartialEq, Eq, Hash)]
pub struct Location(pub usize, pub usize);

impl Location {
    /// The smallest location containing both `self` and `other`.
    pub open spec fn spec_merge(self, other: Location) -> Location {
        Location(
            if self.0 <= other.0 {
                self.0
            } else {
                other.0
            },
            if self.1 >= other.1 {
                self.1
            } else {
                other.1
            },
        )
    }

    /// Merge two locations into the smallest location covering both.
    pub fn merge(&self, other: &Location) -> (r: Location)
        ensures
            r == self.spec_merge(*other),
    {
        Location(
            if self.0 <= other.0 {
                self.0
            } else {
                other.0
            },
            if self.1 >= other.1 {
                self.1
            } else {
                other.1
            },
        )
    }
}

/// A value paired with the location of the source text it came from.
#[derive(Debug, Clone, Copy, PartialEq, Eq, Hash)]
pub struct Annotation<T> {
    pub value: T,
    pub location: Location,
}

impl<T> Annotation<T> {
    /// Pair a value with its location.
    pub fn new(value: T, location: Location) -> (r: Self)
        ensures
            r == (Annotation { value, location }),
    {
        Annotation { value, location }
    }
}

/// The kind of a token.
#[derive(Debug, Clone, Copy, PartialEq, Eq, Hash)]
pub enum TokenKind {
    /// An unsigned integer written as a run of decimal digits.
    Number(u64),
    /// `+`
    Plus,
    /// `-`
    Minus,
    /// `*`
    Asterisk,
    /// `/`
    Slash,
    /// `(`
    LParen,
    /// `)`
    RParen,
}

/// A token: a token kind together with its location.
pub type Token = Annotation<TokenKind>;

impl Token {
    pub fn number(n: u64, location: Location) -> (r: Self)
        ensures
            r == (Annotation { value: TokenKind::Number(n), location }),
    {
        Self::new(TokenKind::Number(n), location)
    }

    pub fn plus(location: Location) -> (r: Self)
        ensures
            r == (Annotation { value: TokenKind::Plus, location }),
    {
        Self::new(TokenKind::Plus, location)
    }

    pub fn minus(location: Location) -> (r: Self)
        ensures
            r == (Annotation { value: TokenKind::Minus, location }),
    {
        Self::new(TokenKind::Minus, location)
    }

    pub fn asterisk(location: Location) -> (r: Self)
        ensures
            r == (Annotation { value: TokenKind::Asterisk, location }),
    {
        Self::new(TokenKind::Asterisk, location)
    }

    pub fn slash(location: Location) -> (r: Self)
        ensures
            r == (Annotation { value: TokenKind::Slash, location }),
    {
        Self::new(TokenKind::Slash, location)
    }

    pub fn lparen(location: Location) -> (r: Self)
        ensures
            r == (Annotation { value: TokenKind::LParen, location }),
    {
        Self::new(TokenKind::LParen, location)
    }

    pub fn rparen(location: Location) -> (r: Self)
        ensures
            r == (Annotation { value: TokenKind::RParen, location }),
    {
        Self::new(TokenKind::RParen, location)
    }
}

/// The kind of a lexical error.
#[derive(Debug, Clone, Copy, PartialEq, Eq, Hash)]
pub enum LexErrorKind {
    /// A byte that cannot start any token.
    InvalidChar(char),
    /// The input ended while a byte was still expected.
    Eof,
}

/// A lexical error: an error kind together with its location.
pub type LexError = Annotation<LexErrorKind>;

impl LexError {
    pub fn invalid_char(c: char, location: Location) -> (r: Self)
        ensures
            r == (Annotation { value: LexErrorKind::InvalidChar(c), location }),
    {
        Self::new(LexErrorKind::InvalidChar(c), location)
    }

    pub fn eof(location: Location) -> (r: Self)
        ensures
            r == (Annotation { value: LexErrorKind::Eof, location }),
    {
        Self::new(LexErrorKind::Eof, location)
    }
}

/// An ASCII decimal digit.
pub open spec fn is_digit_byte(b: u8) -> bool {
    ('0' as u8) <= b <= ('9' as u8)
}

/// A space, tab, or newline.
pub open spec fn is_space_byte(b: u8) -> bool {
    b == (' ' as u8) || b == ('\t' as u8) || b == ('\n' as u8)
}

/// One of the six one-byte tokens: `+ - * / ( )`.
pub open spec fn is_op_byte(b: u8) -> bool {
    ||| b == ('+' as u8)
    ||| b == ('-' as u8)
    ||| b == ('*' as u8)
    ||| b == ('/' as u8)
    ||| b == ('(' as u8)
    ||| b == (')' as u8)
}

/// The token kind of a one-byte token.  Meaningful only for op bytes.
pub open spec fn one_byte_token_kind(b: u8) -> TokenKind {
    if b == ('+' as u8) {
        TokenKind::Plus
    } else if b == ('-' as u8) {
        TokenKind::Minus
    } else if b == ('*' as u8) {
        TokenKind::Asterisk
    } else if b == ('/' as u8) {
        TokenKind::Slash
    } else if b == ('(' as u8) {
        TokenKind::LParen
    } else {
        TokenKind::RParen
    }
}

/// The first position at or after `i` that does not hold a decimal digit.
pub open spec fn digit_run_end(s: Seq<u8>, i: int) -> int
    decreases s.len() - i,
{
    if 0 <= i < s.len() && is_digit_byte(s[i]) {
        digit_run_end(s, i + 1)
    } else {
        i
    }
}

/// `digit_run_end` stays within bounds and bounds exactly the digit run.
proof fn lemma_digit_run_end(s: Seq<u8>, i: int)
    requires
        0 <= i <= s.len(),
    ensures
        i <= digit_run_end(s, i) <= s.len(),
        forall|k: int| i <= k < digit_run_end(s, i) ==> is_digit_byte(s[k]),
        digit_run_end(s, i) < s.len() ==> !is_digit_byte(s[digit_run_end(s, i)]),
    decreases s.len() - i,
{
    if i < s.len() && is_digit_byte(s[i]) {
        lemma_digit_run_end(s, i + 1);
    }
}

/// The value of the decimal digits `s[i..j)`, most significant first.
pub open spec fn digits_value(s: Seq<u8>, i: int, j: int) -> nat
    decreases j - i,
{
    if i < j {
        digits_value(s, i, j - 1) * 10 + (s[j - 1] - ('0' as u8)) as nat
    } else {
        0
    }
}

/// A longer run of digits never has a smaller value.
proof fn lemma_digits_value_mono(s: Seq<u8>, i: int, j: int, k: int)
    requires
        i <= j <= k,
    ensures
        digits_value(s, i, j) <= digits_value(s, i, k),
    decreases k - j,
{
    if j < k {
        lemma_digits_value_mono(s, i, j, k - 1);
        assert(digits_value(s, i, k - 1) * 10 >= digits_value(s, i, k - 1));
    }
}

/// The maximal digit run starting at `i` has a value that fits in `u64`.
pub open spec fn number_fits(s: Seq<u8>, i: int) -> bool {
    digits_value(s, i, digit_run_end(s, i)) <= u64::MAX
}

/// Every maximal digit run of `s` has a value that fits in `u64`.
pub open spec fn no_number_overflow(s: Seq<u8>) -> bool {
    forall|i: int|
        0 <= i < s.len() && #[trigger] is_digit_byte(s[i]) && (i == 0 || !is_digit_byte(s[i - 1]))
            ==> number_fits(s, i)
}

/// What lexing returns on the bytes of the input from position `i` on:
/// the remaining tokens, or the first lexical error.
pub open spec fn spec_lex(s: Seq<u8>, i: int) -> Result<Seq<Token>, LexError>
    decreases s.len() - i,
    via spec_lex_decreases
{
    if !(0 <= i < s.len()) {
        Ok(Seq::empty())
    } else if is_op_byte(s[i]) {
        match spec_lex(s, i + 1) {
            Ok(rest) => Ok(
                seq![
                    (Annotation {
                        value: one_byte_token_kind(s[i]),
                        location: Location(i as usize, (i + 1) as usize),
                    }),
                ] + rest,
            ),
            Err(e) => Err(e),
        }
    } else if is_digit_byte(s[i]) {
        let j = digit_run_end(s, i);
        match spec_lex(s, j) {
            Ok(rest) => Ok(
                seq![
                    (Annotation {
                        value: TokenKind::Number(digits_value(s, i, j) as u64),
                        location: Location(i as usize, j as usize),
                    }),
                ] + rest,
            ),
            Err(e) => Err(e),
        }
    } else if is_space_byte(s[i]) {
        spec_lex(s, i + 1)
    } else {
        Err(
            Annotation {
                value: LexErrorKind::InvalidChar(s[i] as char),
                location: Location(i as usize, (i + 1) as usize),
            },
        )
    }
}

#[via_fn]
proof fn spec_lex_decreases(s: Seq<u8>, i: int) {
    if 0 <= i < s.len() && !is_op_byte(s[i]) && is_digit_byte(s[i]) {
        lemma_digit_run_end(s, i);
    }
}

/// The executable lexer returns exactly what `spec_lex` says.
pub open spec fn lex_result_matches(
    r: Result<Vec<Token>, LexError>,
    s: Result<Seq<Token>, LexError>,
) -> bool {
    match r {
        Ok(tokens) => s == Ok::<Seq<Token>, LexError>(tokens@),
        Err(e) => s == Err::<Seq<Token>, LexError>(e),
    }
}

/// Does the byte hold an ASCII decimal digit?
fn is_number(byte: u8) -> (r: bool)
    ensures
        r == is_digit_byte(byte),
{
    ('0' as u8) <= byte && byte <= ('9' as u8)
}

/// Is the byte a whitespace byte (space, tab, or newline)?
fn is_space(byte: u8) -> (r: bool)
    ensures
        r == is_space_byte(byte),
{
    byte == (' ' as u8) || byte == ('\t' as u8) || byte == ('\n' as u8)
}

/// If the byte at `*index` is not the expected one, or the input is over,
/// report an error; otherwise advance the index past it.
fn consume_byte(input: &[u8], index: &mut usize, expected: u8) -> (r: Result<(), LexError>)
    requires
        *old(index) <= input@.len(),
    ensures
        match r {
            Ok(()) => {
                &&& *old(index) < input@.len()
                &&& input@[*old(index) as int] == expected
                &&& *final(index) == *old(index) + 1
            },
            Err(e) => {
                &&& *final(index) == *old(index)
                &&& (*old(index) == input@.len() || input@[*old(index) as int] != expected)
                &&& if *old(index) == input@.len() {
                    e == (Annotation {
                        value: LexErrorKind::Eof,
                        location: Location(*old(index), *old(index)),
                    })
                } else {
                    e == (Annotation {
                        value: LexErrorKind::InvalidChar(input@[*old(index) as int] as char),
                        location: Location(*old(index), (*old(index) + 1) as usize),
                    })
                }
            },
        },
{
    if input.len() <= *index {
        return Err(LexError::eof(Location(*index, *index)));
    }
    if input[*index] != expected {
        return Err(LexError::invalid_char(input[*index] as char, Location(*index, *index + 1)));
    }
    *index += 1;
    Ok(())
}

/// Build the one-byte token for an op byte spanning `[start_index, end_index)`.
fn create_one_byte_token(byte: u8, start_index: usize, end_index: usize) -> (r: Token)
    requires
        is_op_byte(byte),
    ensures
        r == (Annotation {
            value: one_byte_token_kind(byte),
            location: Location(start_index, end_index),
        }),
{
    if byte == ('+' as u8) {
        Token::plus(Location(start_index, end_index))
    } else if byte == ('-' as u8) {
        Token::minus(Location(start_index, end_index))
    } else if byte == ('*' as u8) {
        Token::asterisk(Location(start_index, end_index))
    } else if byte == ('/' as u8) {
        Token::slash(Location(start_index, end_index))
    } else if byte == ('(' as u8) {
        Token::lparen(Location(start_index, end_index))
    } else {
        Token::rparen(Location(start_index, end_index))
    }
}

/// Lex the single op byte at `*index_address` and push its token.
fn lex_one_byte(
    input: &[u8],
    index_address: &mut usize,
    byte: u8,
    tokens: &mut Vec<Token>,
) -> (r: Result<(), LexError>)
    requires
        *old(index_address) < input@.len(),
        input@[*old(index_address) as int] == byte,
        is_op_byte(byte),
    ensures
        r is Ok,
        *final(index_address) == *old(index_address) + 1,
        final(tokens)@ == old(tokens)@.push(
            Annotation {
                value: one_byte_token_kind(byte),
                location: Location(*old(index_address), (*old(index_address) + 1) as usize),
            },
        ),
{
    let start = *index_address;
    match consume_byte(input, index_address, byte) {
        Ok(()) => {},
        Err(e) => return Err(e),
    }
    tokens.push(create_one_byte_token(byte, start, *index_address));
    Ok(())
}

/// Skip whitespace bytes; lexing from the new position returns the same
/// result as lexing from the old one.
fn skip_spaces(input: &[u8], index_address: &mut usize)
    requires
        *old(index_address) <= input@.len(),
    ensures
        *old(index_address) <= *final(index_address) <= input@.len(),
        spec_lex(input@, *final(index_address) as int) == spec_lex(
            input@,
            *old(index_address) as int,
        ),
        *final(index_address) == input@.len() || !is_space_byte(
            input@[*final(index_address) as int],
        ),
        forall|k: int|
            *old(index_address) <= k < *final(index_address) ==> is_space_byte(input@[k]),
{
    while *index_address < input.len() && is_space(input[*index_address])
        invariant
            *old(index_address) <= *index_address <= input@.len(),
            spec_lex(input@, *index_address as int) == spec_lex(
                input@,
                *old(index_address) as int,
            ),
            forall|k: int|
                *old(index_address) <= k < *index_address ==> is_space_byte(input@[k]),
        decreases input@.len() - *index_address,
    {
        proof {
            assert(spec_lex(input@, *index_address as int) == spec_lex(
                input@,
                *index_address + 1,
            ));
        }
        *index_address += 1;
    }
}

/// Lex the maximal digit run starting at `*index_address` and push its
/// number token.
fn lex_number(input: &[u8], index_address: &mut usize, tokens: &mut Vec<Token>)
    requires
        *old(index_address) < input@.len(),
        is_digit_byte(input@[*old(index_address) as int]),
        number_fits(input@, *old(index_address) as int),
    ensures
        *final(index_address) == digit_run_end(input@, *old(index_address) as int),
        *old(index_address) < *final(index_address) <= input@.len(),
        final(tokens)@ == old(tokens)@.push(
            Annotation {
                value: TokenKind::Number(
                    digits_value(
                        input@,
                        *old(index_address) as int,
                        digit_run_end(input@, *old(index_address) as int),
                    ) as u64,
                ),
                location: Location(
                    *old(index_address),
                    digit_run_end(input@, *old(index_address) as int) as usize,
                ),
            },
        ),
{
    let ghost s = input@;
    let start = *index_address;
    let ghost run_end = digit_run_end(s, start as int);
    proof {
        lemma_digit_run_end(s, start as int);
    }
    let mut number: u64 = 0;
    while *index_address < input.len() && is_number(input[*index_address])
        invariant
            s == input@,
            start <= *index_address <= s.len(),
            run_end == digit_run_end(s, start as int),
            digit_run_end(s, *index_address as int) == run_end,
            forall|k: int| start <= k < *index_address ==> is_digit_byte(s[k]),
            number == digits_value(s, start as int, *index_address as int),
            digits_value(s, start as int, run_end) <= u64::MAX,
        decreases input@.len() - *index_address,
    {
        let i = *index_address;
        let b = input[i];
        proof {
            lemma_digit_run_end(s, i + 1);
            assert(digit_run_end(s, i as int) == digit_run_end(s, i + 1));
            assert(i + 1 <= run_end);
            lemma_digits_value_mono(s, start as int, i + 1, run_end);
            assert(digits_value(s, start as int, i + 1) == digits_value(
                s,
                start as int,
                i as int,
            ) * 10 + (s[i as int] - ('0' as u8)) as nat);
        }
        number = number * 10 + ((b - ('0' as u8)) as u64);
        *index_address += 1;
    }
    proof {
        assert(digit_run_end(s, *index_address as int) == *index_address as int);
    }
    tokens.push(Token::number(number, Location(start, *index_address)));
}

/// The loop invariant of `lex`: the tokens gathered so far, followed by
/// whatever lexing yields from position `i` on, make up the whole result.
spec fn lex_loop_inv(s: Seq<u8>, done: Seq<Token>, i: int) -> bool {
    match spec_lex(s, i) {
        Ok(rest) => spec_lex(s, 0) == Ok::<Seq<Token>, LexError>(done + rest),
        Err(e) => spec_lex(s, 0) == Err::<Seq<Token>, LexError>(e),
    }
}

/// A byte the lexer accepts: an op byte, a digit, or whitespace.
pub open spec fn valid_byte(b: u8) -> bool {
    is_op_byte(b) || is_digit_byte(b) || is_space_byte(b)
}

/// The same location, moved right by `d` bytes.
pub open spec fn shift_location(loc: Location, d: int) -> Location {
    Location((loc.0 + d) as usize, (loc.1 + d) as usize)
}

/// The same annotated value, at a location moved right by `d` bytes.
pub open spec fn shift_annotation<T>(a: Annotation<T>, d: int) -> Annotation<T> {
    Annotation { value: a.value, location: shift_location(a.location, d) }
}

/// The same token, at a location moved right by `d` bytes.
pub open spec fn shift_token(t: Token, d: int) -> Token {
    shift_annotation(t, d)
}

/// All tokens moved right by `d` bytes.
pub open spec fn shift_tokens(toks: Seq<Token>, d: int) -> Seq<Token> {
    toks.map(|k: int, t: Token| shift_token(t, d))
}

/// Digit runs sit one byte later in the input wrapped in parentheses.
proof fn lemma_digit_run_end_bracket(s: Seq<u8>, i: int)
    requires
        0 <= i <= s.len(),
    ensures
        digit_run_end(seq![('(' as u8)] + s + seq![(')' as u8)], i + 1) == digit_run_end(s, i)
            + 1,
    decreases s.len() - i,
{
    let w = seq![('(' as u8)] + s + seq![(')' as u8)];
    if i < s.len() {
        assert(w[i + 1] == s[i]);
        if is_digit_byte(s[i]) {
            lemma_digit_run_end_bracket(s, i + 1);
        }
    } else {
        assert(w[i + 1] == (')' as u8));
    }
}

/// Digit runs have the same value one byte later in the wrapped input.
proof fn lemma_digits_value_bracket(s: Seq<u8>, i: int, j: int)
    requires
        0 <= i <= j <= s.len(),
    ensures
        digits_value(seq![('(' as u8)] + s + seq![(')' as u8)], i + 1, j + 1) == digits_value(
            s,
            i,
            j,
        ),
    decreases j - i,
{
    let w = seq![('(' as u8)] + s + seq![(')' as u8)];
    if i < j {
        lemma_digits_value_bracket(s, i, j - 1);
        assert(w[j] == s[j - 1]);
    }
}

/// Lexing the input wrapped in parentheses, from one byte past position
/// `i`, yields the tokens of lexing the input from `i`, each moved right
/// one byte, followed by the closing parenthesis token.
proof fn lemma_lex_bracket_from(s: Seq<u8>, i: int)
    requires
        0 <= i <= s.len(),
        s.len() + 2 <= usize::MAX,
        spec_lex(s, i) is Ok,
    ensures
        spec_lex(seq![('(' as u8)] + s + seq![(')' as u8)], i + 1) == Ok::<Seq<Token>, LexError>(
            shift_tokens(spec_lex(s, i)->Ok_0, 1).push(
                Annotation {
                    value: TokenKind::RParen,
                    location: Location((s.len() + 1) as usize, (s.len() + 2) as usize),
                },
            ),
        ),
    decreases s.len() - i,
{
    let w = seq![('(' as u8)] + s + seq![(')' as u8)];
    let rp = Annotation {
        value: TokenKind::RParen,
        location: Location((s.len() + 1) as usize, (s.len() + 2) as usize),
    };
    if i == s.len() {
        assert(w[i + 1] == (')' as u8));
        assert(spec_lex(w, i + 2) == Ok::<Seq<Token>, LexError>(Seq::empty()));
        assert(spec_lex(w, i + 1) == Ok::<Seq<Token>, LexError>(seq![rp] + Seq::empty()));
        assert(seq![rp] + Seq::<Token>::empty() =~= shift_tokens(spec_lex(s, i)->Ok_0, 1).push(
            rp,
        ));
    } else {
        assert(w[i + 1] == s[i]);
        if is_op_byte(s[i]) {
            lemma_lex_bracket_from(s, i + 1);
            let tok = Annotation {
                value: one_byte_token_kind(s[i]),
                location: Location(i as usize, (i + 1) as usize),
            };
            let rest = spec_lex(s, i + 1)->Ok_0;
            assert(seq![shift_token(tok, 1)] + (shift_tokens(rest, 1).push(rp)) =~= shift_tokens(
                seq![tok] + rest,
                1,
            ).push(rp));
        } else if is_digit_byte(s[i]) {
            let j = digit_run_end(s, i);
            lemma_digit_run_end(s, i);
            lemma_digit_run_end_bracket(s, i);
            lemma_digits_value_bracket(s, i, j);
            lemma_lex_bracket_from(s, j);
            let tok = Annotation {
                value: TokenKind::Number(digits_value(s, i, j) as u64),
                location: Location(i as usize, j as usize),
            };
            let rest = spec_lex(s, j)->Ok_0;
            assert(seq![shift_token(tok, 1)] + (shift_tokens(rest, 1).push(rp)) =~= shift_tokens(
                seq![tok] + rest,
                1,
            ).push(rp));
        } else if is_space_byte(s[i]) {
            lemma_lex_bracket_from(s, i + 1);
        }
    }
}

/// Lexing the input wrapped in one pair of parentheses yields the opening
/// parenthesis token, the original tokens each moved right one byte, and
/// the closing parenthesis token.
pub proof fn lemma_lex_bracket(s: Seq<u8>)
    requires
        s.len() + 2 <= usize::MAX,
        spec_lex(s, 0) is Ok,
    ensures
        spec_lex(seq![('(' as u8)] + s + seq![(')' as u8)], 0) == Ok::<Seq<Token>, LexError>(
            seq![(Annotation { value: TokenKind::LParen, location: Location(0, 1) })]
                + shift_tokens(spec_lex(s, 0)->Ok_0, 1) + seq![
                (Annotation {
                    value: TokenKind::RParen,
                    location: Location((s.len() + 1) as usize, (s.len() + 2) as usize),
                }),
            ],
        ),
{
    let w = seq![('(' as u8)] + s + seq![(')' as u8)];
    let lp = Annotation { value: TokenKind::LParen, location: Location(0, 1) };
    let rp = Annotation {
        value: TokenKind::RParen,
        location: Location((s.len() + 1) as usize, (s.len() + 2) as usize),
    };
    lemma_lex_bracket_from(s, 0);
    assert(w[0] == ('(' as u8));
    let shifted = shift_tokens(spec_lex(s, 0)->Ok_0, 1);
    assert(spec_lex(w, 0) == Ok::<Seq<Token>, LexError>(seq![lp] + shifted.push(rp)));
    assert(seq![lp] + shifted.push(rp) =~= seq![lp] + shifted + seq![rp]);
}

/// Position `p` lies inside the span of some token of `toks`.
pub open spec fn spans_cover(toks: Seq<Token>, p: int) -> bool {
    exists|k: int| 0 <= k < toks.len() && (#[trigger] toks[k].location).0 <= p < toks[k].location.1
}

/// Lexing from position `i` succeeds exactly when every byte from `i` on is
/// valid, and a failure reports the first invalid byte, at its position.
proof fn lemma_lex_validity_from(s: Seq<u8>, i: int)
    requires
        0 <= i <= s.len(),
    ensures
        spec_lex(s, i) is Ok <==> (forall|k: int| i <= k < s.len() ==> valid_byte(s[k])),
        match spec_lex(s, i) {
            Ok(_) => true,
            Err(e) => exists|p: int|
                {
                    &&& i <= p < s.len()
                    &&& !valid_byte(s[p])
                    &&& (forall|q: int| i <= q < p ==> valid_byte(s[q]))
                    &&& e == (Annotation {
                        value: LexErrorKind::InvalidChar(s[p] as char),
                        location: Location(p as usize, (p + 1) as usize),
                    })
                },
        },
    decreases s.len() - i,
{
    if i < s.len() {
        if is_op_byte(s[i]) || is_space_byte(s[i]) {
            lemma_lex_validity_from(s, i + 1);
        } else if is_digit_byte(s[i]) {
            lemma_digit_run_end(s, i);
            lemma_lex_validity_from(s, digit_run_end(s, i));
        } else {
            assert(!valid_byte(s[i]));
            assert({
                let e = Annotation {
                    value: LexErrorKind::InvalidChar(s[i] as char),
                    location: Location(i as usize, (i + 1) as usize),
                };
                &&& i <= i < s.len()
                &&& !valid_byte(s[i])
                &&& (forall|q: int| i <= q < i ==> valid_byte(s[q]))
                &&& spec_lex(s, i) == Err::<Seq<Token>, LexError>(e)
            });
        }
    }
}

/// Lexing the whole input succeeds exactly when every byte is a digit, an
/// operator or parenthesis, or whitespace; otherwise it fails with the
/// first invalid byte as a character, at that byte's position.
pub proof fn lemma_lex_ok_iff_valid(s: Seq<u8>)
    ensures
        spec_lex(s, 0) is Ok <==> (forall|k: int| 0 <= k < s.len() ==> valid_byte(s[k])),
        match spec_lex(s, 0) {
            Ok(_) => true,
            Err(e) => exists|p: int|
                {
                    &&& 0 <= p < s.len()
                    &&& !valid_byte(s[p])
                    &&& (forall|q: int| 0 <= q < p ==> valid_byte(s[q]))
                    &&& e == (Annotation {
                        value: LexErrorKind::InvalidChar(s[p] as char),
                        location: Location(p as usize, (p + 1) as usize),
                    })
                },
        },
{
    lemma_lex_validity_from(s, 0);
}

/// On success, the token spans of lexing from position `i` are nonempty,
/// ordered, within bounds, and cover exactly the non-whitespace positions.
proof fn lemma_lex_tiling_from(s: Seq<u8>, i: int)
    requires
        0 <= i <= s.len(),
        s.len() <= usize::MAX,
    ensures
        match spec_lex(s, i) {
            Ok(toks) => {
                &&& (forall|k: int|
                    0 <= k < toks.len() ==> i <= #[trigger] toks[k].location.0
                        < toks[k].location.1 <= s.len())
                &&& (forall|k: int|
                    0 <= k < toks.len() - 1 ==> #[trigger] toks[k].location.1 <= toks[k
                        + 1].location.0)
                &&& (forall|p: int|
                    i <= p < s.len() ==> (#[trigger] spans_cover(toks, p) <==> !is_space_byte(
                        s[p],
                    )))
            },
            Err(_) => true,
        },
    decreases s.len() - i,
{
    if i < s.len() && spec_lex(s, i) is Ok {
        let toks = spec_lex(s, i)->Ok_0;
        if is_op_byte(s[i]) || is_digit_byte(s[i]) {
            let j = if is_op_byte(s[i]) {
                i + 1
            } else {
                digit_run_end(s, i)
            };
            if !is_op_byte(s[i]) {
                lemma_digit_run_end(s, i);
            }
            lemma_lex_tiling_from(s, j);
            let rest = spec_lex(s, j)->Ok_0;
            let tok = toks[0];
            assert(toks == seq![tok] + rest);
            assert(tok.location.0 == i && tok.location.1 == j);
            assert(forall|k: int| 0 <= k < rest.len() ==> toks[k + 1] == rest[k]);
            assert forall|p: int| i <= p < s.len() implies (#[trigger] spans_cover(toks, p)
                <==> !is_space_byte(s[p])) by {
                if p < j {
                    // Covered by the first token, and never whitespace.
                    assert(toks[0].location.0 <= p < toks[0].location.1);
                    assert(spans_cover(toks, p));
                    assert(!is_space_byte(s[p]));
                } else {
                    if spans_cover(toks, p) {
                        let k = choose|k: int|
                            0 <= k < toks.len() && (#[trigger] toks[k].location).0 <= p
                                < toks[k].location.1;
                        if k == 0 {
                            assert(!is_space_byte(s[p]));
                        } else {
                            assert(rest[k - 1] == toks[k]);
                            assert(spans_cover(rest, p));
                        }
                    }
                    if !is_space_byte(s[p]) {
                        assert(spans_cover(rest, p));
                        let k = choose|k: int|
                            0 <= k < rest.len() && (#[trigger] rest[k].location).0 <= p
                                < rest[k].location.1;
                        assert(toks[k + 1] == rest[k]);
                        assert(spans_cover(toks, p));
                    }
                }
            }
        } else {
            // A whitespace byte: the tokens are those of the rest.
            lemma_lex_tiling_from(s, i + 1);
            assert(toks == spec_lex(s, i + 1)->Ok_0);
            assert forall|p: int| i <= p < s.len() implies (#[trigger] spans_cover(toks, p)
                <==> !is_space_byte(s[p])) by {
                if p == i {
                    assert(is_space_byte(s[p]));
                    if spans_cover(toks, p) {
                        let k = choose|k: int|
                            0 <= k < toks.len() && (#[trigger] toks[k].location).0 <= p
                                < toks[k].location.1;
                        assert(i + 1 <= toks[k].location.0);
                    }
                }
            }
        }
    }
}

/// On success, the token spans tile the input: each is a nonempty in-bounds
/// range, consecutive spans do not overlap and come in input order, and a
/// position is inside some span exactly when it holds a non-whitespace byte.
pub proof fn lemma_lex_spans_tile(s: Seq<u8>)
    requires
        s.len() <= usize::MAX,
    ensures
        match spec_lex(s, 0) {
            Ok(toks) => {
                &&& (forall|k: int|
                    0 <= k < toks.len() ==> #[trigger] toks[k].location.0 < toks[k].location.1
                        <= s.len())
                &&& (forall|k: int|
                    0 <= k < toks.len() - 1 ==> #[trigger] toks[k].location.1 <= toks[k
                        + 1].location.0)
                &&& (forall|p: int|
                    0 <= p < s.len() ==> (#[trigger] spans_cover(toks, p) <==> !is_space_byte(
                        s[p],
                    )))
            },
            Err(_) => true,
        },
{
    lemma_lex_tiling_from(s, 0);
}

/// Taking the one-byte token at position `i` preserves the loop invariant.
proof fn lemma_lex_step_op(s: Seq<u8>, done: Seq<Token>, i: int)
    requires
        0 <= i < s.len(),
        is_op_byte(s[i]),
        lex_loop_inv(s, done, i),
    ensures
        lex_loop_inv(
            s,
            done.push(
                Annotation {
                    value: one_byte_token_kind(s[i]),
                    location: Location(i as usize, (i + 1) as usize),
                },
            ),
            i + 1,
        ),
{
    let tok = Annotation {
        value: one_byte_token_kind(s[i]),
        location: Location(i as usize, (i + 1) as usize),
    };
    match spec_lex(s, i + 1) {
        Ok(rest) => {
            assert(spec_lex(s, i) == Ok::<Seq<Token>, LexError>(seq![tok] + rest));
            assert(done + (seq![tok] + rest) =~= done.push(tok) + rest);
        },
        Err(e) => {},
    }
}

/// Taking the maximal digit run at position `i` preserves the loop invariant.
proof fn lemma_lex_step_number(s: Seq<u8>, done: Seq<Token>, i: int)
    requires
        0 <= i < s.len(),
        !is_op_byte(s[i]),
        is_digit_byte(s[i]),
        lex_loop_inv(s, done, i),
    ensures
        lex_loop_inv(
            s,
            done.push(
                Annotation {
                    value: TokenKind::Number(digits_value(s, i, digit_run_end(s, i)) as u64),
                    location: Location(i as usize, digit_run_end(s, i) as usize),
                },
            ),
            digit_run_end(s, i),
        ),
{
    let j = digit_run_end(s, i);
    let tok = Annotation {
        value: TokenKind::Number(digits_value(s, i, j) as u64),
        location: Location(i as usize, j as usize),
    };
    match spec_lex(s, j) {
        Ok(rest) => {
            assert(spec_lex(s, i) == Ok::<Seq<Token>, LexError>(seq![tok] + rest));
            assert(done + (seq![tok] + rest) =~= done.push(tok) + rest);
        },
        Err(e) => {},
    }
}

/// An invalid byte at position `i` makes the whole lex fail there.
proof fn lemma_lex_step_invalid(s: Seq<u8>, done: Seq<Token>, i: int)
    requires
        0 <= i < s.len(),
        !is_op_byte(s[i]),
        !is_digit_byte(s[i]),
        !is_space_byte(s[i]),
        lex_loop_inv(s, done, i),
    ensures
        spec_lex(s, 0) == Err::<Seq<Token>, LexError>(
            Annotation {
                value: LexErrorKind::InvalidChar(s[i] as char),
                location: Location(i as usize, (i + 1) as usize),
            },
        ),
{
}

/// Convert the input text into its token sequence, or report the first
/// lexical error.
#[verifier::rlimit(30)]
pub fn lex(input: &str) -> (r: Result<Vec<Token>, LexError>)
    requires
        no_number_overflow(input.spec_bytes()),
    ensures
        lex_result_matches(r, spec_lex(input.spec_bytes(), 0)),
{
    let mut tokens: Vec<Token> = Vec::new();

    let input_bytes = input.as_bytes();
    let ghost s = input_bytes@;
    let mut index: usize = 0;

    proof {
        assert(Seq::<Token>::empty() + spec_lex(s, 0)->Ok_0 =~= spec_lex(s, 0)->Ok_0);
    }
    while index < input_bytes.len()
        invariant
            s == input_bytes@,
            s == input.spec_bytes(),
            no_number_overflow(s),
            index <= s.len(),
            lex_loop_inv(s, tokens@, index as int),
            (0 < index < s.len() && is_digit_byte(s[index as int])) ==> !is_digit_byte(
                s[index - 1],
            ),
        decreases s.len() - index,
    {
        let ghost done = tokens@;
        let ghost start = index as int;
        let b = input_bytes[index];
        if b == ('+' as u8) || b == ('-' as u8) || b == ('*' as u8) || b == ('/' as u8) || b
            == ('(' as u8) || b == (')' as u8) {
            proof {
                lemma_lex_step_op(s, done, start);
            }
            let r = lex_one_byte(input_bytes, &mut index, b, &mut tokens);
            match r {
                Ok(()) => {},
                Err(e) => return Err(e),
            }
        } else if is_number(b) {
            proof {
                lemma_lex_step_number(s, done, start);
                lemma_digit_run_end(s, start);
            }
            lex_number(input_bytes, &mut index, &mut tokens);
        } else if is_space(b) {
            skip_spaces(input_bytes, &mut index);
        } else {
            proof {
                lemma_lex_step_invalid(s, done, start);
            }
            return Err(LexError::invalid_char(b as char, Location(index, index + 1)));
        }
    }
    proof {
        assert(tokens@ + Seq::<Token>::empty() =~= tokens@);
    }
    Ok(tokens)
}

} // verus!
