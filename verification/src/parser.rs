//! Recursive-descent parser for the four-operator arithmetic language.
//!
//! The grammar, highest rule first, with both binary layers left-associative:
//!
//! ```text
//! EXPR  = EXPR3 ;
//! EXPR3 = EXPR2, (("+" | "-"), EXPR2)* ;
//! EXPR2 = EXPR1, (("*" | "/"), EXPR1)* ;
//! EXPR1 = ("+" | "-"), ATOM | ATOM ;
//! ATOM  = NUMBER | "(", EXPR, ")" ;
//! ```
//!
//! The executable parser walks the token sequence with a single look-ahead
//! cursor and never backtracks.  Its behaviour is pinned down by the
//! specification functions [`spec_parse`] and company, which mirror the
//! grammar rule by rule.

use vstd::prelude::*;
use vstd::string::StringSliceAdditionalSpecFns;

use crate::lexer::lemma_lex_bracket;
use crate::lexer::lemma_lex_spans_tile;
use crate::lexer::lex;
use crate::lexer::no_number_overflow;
use crate::lexer::shift_annotation;
use crate::lexer::shift_location;
use crate::lexer::shift_token;
use crate::lexer::shift_tokens;
use crate::lexer::spec_lex;
use crate::lexer::Annotation;
use crate::lexer::LexError;
use crate::lexer::Location;
use crate::lexer::Token;
use crate::lexer::TokenKind;

verus! {

/// The kind of a unary (sign) operator.
#[derive(Debug, Clone, Copy, PartialEq, Eq, Hash)]
pub enum UnaryOperatorKind {
    Plus,
    Minus,
}

/// A unary operator together with the location of its sign token.
pub type UnaryOperator = Annotation<UnaryOperatorKind>;

impl UnaryOperator {
    pub fn plus(location: Location) -> (r: Self)
        ensures
            r == (Annotation { value: UnaryOperatorKind::Plus, location }),
    {
        Self::new(UnaryOperatorKind::Plus, location)
    }

    pub fn minus(location: Location) -> (r: Self)
        ensures
            r == (Annotation { value: UnaryOperatorKind::Minus, location }),
    {
        Self::new(UnaryOperatorKind::Minus, location)
    }
}

/// The kind of a binary operator.
#[derive(Debug, Clone, Copy, PartialEq, Eq, Hash)]
pub enum BinaryOperatorKind {
    Add,
    Sub,
    Multi,
    Div,
}

/// A binary operator together with the location of its operator token.
pub type BinaryOperator = Annotation<BinaryOperatorKind>;

impl BinaryOperator {
    pub fn add(location: Location) -> (r: Self)
        ensures
            r == (Annotation { value: BinaryOperatorKind::Add, location }),
    {
        Self::new(BinaryOperatorKind::Add, location)
    }

    pub fn sub(location: Location) -> (r: Self)
        ensures
            r == (Annotation { value: BinaryOperatorKind::Sub, location }),
    {
        Self::new(BinaryOperatorKind::Sub, location)
    }

    pub fn multi(location: Location) -> (r: Self)
        ensures
            r == (Annotation { value: BinaryOperatorKind::Multi, location }),
    {
        Self::new(BinaryOperatorKind::Multi, location)
    }

    pub fn div(location: Location) -> (r: Self)
        ensures
            r == (Annotation { value: BinaryOperatorKind::Div, location }),
    {
        Self::new(BinaryOperatorKind::Div, location)
    }
}

/// The kind of an abstract syntax tree node.  Each child node is owned
/// exclusively by its parent, so the tree has no sharing and no cycles.
#[derive(Debug, PartialEq, Eq, Hash)]
pub enum AstKind {
    /// A number literal.
    Num(u64),
    /// A sign applied to a single atom.
    Unary { operator: UnaryOperator, operand: Box<Ast> },
    /// A binary operator applied to two subexpressions.
    Binary { operator: BinaryOperator, left: Box<Ast>, right: Box<Ast> },
}

/// An abstract syntax tree node together with the location of the source
/// text it was built from.
pub type Ast = Annotation<AstKind>;

impl Ast {
    pub fn num(number: u64, location: Location) -> (r: Self)
        ensures
            r == (Annotation { value: AstKind::Num(number), location }),
    {
        Self::new(AstKind::Num(number), location)
    }

    pub fn unary(operator: UnaryOperator, operand: Ast, location: Location) -> (r: Self)
        ensures
            r == (Annotation {
                value: AstKind::Unary { operator, operand: Box::new(operand) },
                location,
            }),
    {
        Self::new(AstKind::Unary { operator, operand: Box::new(operand) }, location)
    }

    pub fn binary(operator: BinaryOperator, left: Ast, right: Ast, location: Location) -> (r: Self)
        ensures
            r == (Annotation {
                value: AstKind::Binary { operator, left: Box::new(left), right: Box::new(right) },
                location,
            }),
    {
        Self::new(
            AstKind::Binary { operator, left: Box::new(left), right: Box::new(right) },
            location,
        )
    }
}

/// A syntax error.  Every variant but `Eof` carries the offending token.
#[derive(Debug, Clone, Copy, PartialEq, Eq, Hash)]
pub enum ParseError {
    /// A token-level mismatch not otherwise classified.
    UnexpectedToken(Token),
    /// The token cannot start an atom: it is neither a number nor `(`.
    NotExpression(Token),
    /// An operator was expected at the current precedence level.
    NotOperator(Token),
    /// A `(` was opened but the input ended before its `)`.
    UnclosedOpenParen(Token),
    /// Extra input after a complete expression.
    RedundantExpression(Token),
    /// The input ended where a token was still required.
    Eof,
}

/// An error of either pipeline stage, tagged with the stage it came from.
#[derive(Debug, Clone, Copy, PartialEq, Eq, Hash)]
pub enum ApplicationError {
    Lexer(LexError),
    Parser(ParseError),
}

/// The two left-associative binary-operator layers of the grammar.
#[derive(Debug, Clone, Copy, PartialEq, Eq)]
pub enum BinOpLevel {
    /// `+` and `-`: the loosest-binding layer (`EXPR3`).
    AddSub,
    /// `*` and `/`: the tighter-binding layer (`EXPR2`).
    MulDiv,
}

/// Orders the mutually recursive grammar rules for termination measures.
pub open spec fn level_rank(level: BinOpLevel) -> int {
    match level {
        BinOpLevel::AddSub => 6,
        BinOpLevel::MulDiv => 4,
    }
}

/// The binary operator that the token contributes at this level, if any.
pub open spec fn spec_level_op(level: BinOpLevel, tok: Token) -> Option<BinaryOperator> {
    match level {
        BinOpLevel::AddSub => match tok.value {
            TokenKind::Plus => Some(
                Annotation { value: BinaryOperatorKind::Add, location: tok.location },
            ),
            TokenKind::Minus => Some(
                Annotation { value: BinaryOperatorKind::Sub, location: tok.location },
            ),
            _ => None,
        },
        BinOpLevel::MulDiv => match tok.value {
            TokenKind::Asterisk => Some(
                Annotation { value: BinaryOperatorKind::Multi, location: tok.location },
            ),
            TokenKind::Slash => Some(
                Annotation { value: BinaryOperatorKind::Div, location: tok.location },
            ),
            _ => None,
        },
    }
}

/// A unary node whose location merges the operator's and the operand's.
pub open spec fn spec_unary(operator: UnaryOperator, operand: Ast) -> Ast {
    Annotation {
        value: AstKind::Unary { operator, operand: Box::new(operand) },
        location: operator.location.spec_merge(operand.location),
    }
}

/// A binary node whose location merges the two operands'.
pub open spec fn spec_binary(operator: BinaryOperator, left: Ast, right: Ast) -> Ast {
    Annotation {
        value: AstKind::Binary { operator, left: Box::new(left), right: Box::new(right) },
        location: left.location.spec_merge(right.location),
    }
}

/// `ATOM = NUMBER | "(", EXPR, ")" ;` parsed at position `i`: the node and
/// the position after it, or the error.
pub open spec fn spec_parse_atom(toks: Seq<Token>, i: int) -> Result<(Ast, int), ParseError>
    decreases toks.len() - i, 0int,
{
    if !(0 <= i < toks.len()) {
        Err(ParseError::Eof)
    } else {
        let tok = toks[i];
        match tok.value {
            TokenKind::Number(n) => Ok(
                ((Annotation { value: AstKind::Num(n), location: tok.location }), i + 1),
            ),
            TokenKind::LParen => match spec_parse_expr(toks, i + 1) {
                Ok((exp, j)) => if j < toks.len() {
                    if toks[j].value is RParen {
                        Ok((exp, j + 1))
                    } else {
                        Err(ParseError::RedundantExpression(toks[j]))
                    }
                } else {
                    Err(ParseError::UnclosedOpenParen(tok))
                },
                Err(e) => Err(e),
            },
            _ => Err(ParseError::NotExpression(tok)),
        }
    }
}

/// `EXPR1 = ("+" | "-"), ATOM | ATOM ;` parsed at position `i`.
pub open spec fn spec_parse_expr1(toks: Seq<Token>, i: int) -> Result<(Ast, int), ParseError>
    decreases toks.len() - i, 2int,
{
    if 0 <= i < toks.len() && (toks[i].value is Plus || toks[i].value is Minus) {
        let op = if toks[i].value is Plus {
            Annotation { value: UnaryOperatorKind::Plus, location: toks[i].location }
        } else {
            Annotation { value: UnaryOperatorKind::Minus, location: toks[i].location }
        };
        match spec_parse_atom(toks, i + 1) {
            Ok((atom, j)) => Ok((spec_unary(op, atom), j)),
            Err(e) => Err(e),
        }
    } else {
        spec_parse_atom(toks, i)
    }
}

/// One left-associative binary layer parsed at position `i`: a subexpression
/// of the next layer down, then a fold over same-level operators.
pub open spec fn spec_parse_left_binop(toks: Seq<Token>, i: int, level: BinOpLevel) -> Result<
    (Ast, int),
    ParseError,
>
    decreases toks.len() - i, level_rank(level),
{
    let first = match level {
        BinOpLevel::AddSub => spec_parse_left_binop(toks, i, BinOpLevel::MulDiv),
        BinOpLevel::MulDiv => spec_parse_expr1(toks, i),
    };
    match first {
        Ok((left, j)) => if i < j <= toks.len() {
            spec_parse_binop_rest(toks, j, left, level)
        } else {
            // A successful subexpression always consumes at least one token
            // and stays within bounds, so this branch is never reached.
            arbitrary()
        },
        Err(e) => Err(e),
    }
}

/// The fold of `spec_parse_left_binop` after its first subexpression: as
/// long as a same-level operator follows, parse one more subexpression and
/// group it to the left.
pub open spec fn spec_parse_binop_rest(
    toks: Seq<Token>,
    i: int,
    left: Ast,
    level: BinOpLevel,
) -> Result<(Ast, int), ParseError>
    decreases toks.len() - i, level_rank(level),
{
    if !(0 <= i < toks.len()) {
        Ok((left, i))
    } else {
        match spec_level_op(level, toks[i]) {
            None => Ok((left, i)),
            Some(op) => {
                let next = match level {
                    BinOpLevel::AddSub => spec_parse_left_binop(toks, i + 1, BinOpLevel::MulDiv),
                    BinOpLevel::MulDiv => spec_parse_expr1(toks, i + 1),
                };
                match next {
                    Ok((right, j)) => if i + 1 < j <= toks.len() {
                        spec_parse_binop_rest(toks, j, spec_binary(op, left, right), level)
                    } else {
                        // Never reached: see `spec_parse_left_binop`.
                        arbitrary()
                    },
                    Err(e) => Err(e),
                }
            },
        }
    }
}

/// `EXPR = EXPR3 ;` parsed at position `i`.
pub open spec fn spec_parse_expr(toks: Seq<Token>, i: int) -> Result<(Ast, int), ParseError>
    decreases toks.len() - i, 8int,
{
    spec_parse_left_binop(toks, i, BinOpLevel::AddSub)
}

/// What parsing the whole token sequence returns: the tree of one complete
/// expression, or the first syntax error.  Any token left over after a
/// complete expression is redundant.
pub open spec fn spec_parse(toks: Seq<Token>) -> Result<Ast, ParseError> {
    match spec_parse_expr(toks, 0) {
        Ok((ast, j)) => if j == toks.len() {
            Ok(ast)
        } else {
            Err(ParseError::RedundantExpression(toks[j]))
        },
        Err(e) => Err(e),
    }
}

/// The executable parse step `r`, at position `i` of `n` tokens, returns
/// exactly what the specification step `s` says; on success the cursor
/// advances and stays within bounds.
pub open spec fn parse_step_matches(
    r: Result<(Ast, usize), ParseError>,
    s: Result<(Ast, int), ParseError>,
    i: int,
    n: int,
) -> bool {
    match r {
        Ok((ast, j)) => s == Ok::<(Ast, int), ParseError>((ast, j as int)) && i < j <= n,
        Err(e) => s == Err::<(Ast, int), ParseError>(e),
    }
}

/// `ATOM = NUMBER | "(", EXPR, ")" ;`
pub fn parse_atom(tokens: &Vec<Token>, pos: usize) -> (r: Result<(Ast, usize), ParseError>)
    requires
        pos <= tokens@.len(),
    ensures
        parse_step_matches(
            r,
            spec_parse_atom(tokens@, pos as int),
            pos as int,
            tokens@.len() as int,
        ),
    decreases tokens@.len() - pos, 0int,
{
    if pos >= tokens.len() {
        return Err(ParseError::Eof);
    }
    let tok = tokens[pos];
    match tok.value {
        TokenKind::Number(n) => Ok((Ast::num(n, tok.location), pos + 1)),
        TokenKind::LParen => {
            let (exp, j) = match parse_expr(tokens, pos + 1) {
                Ok(x) => x,
                Err(e) => return Err(e),
            };
            if j < tokens.len() {
                let next = tokens[j];
                match next.value {
                    TokenKind::RParen => Ok((exp, j + 1)),
                    _ => Err(ParseError::RedundantExpression(next)),
                }
            } else {
                Err(ParseError::UnclosedOpenParen(tok))
            }
        },
        _ => Err(ParseError::NotExpression(tok)),
    }
}

/// `EXPR1 = ("+" | "-"), ATOM | ATOM ;`
pub fn parse_expr1(tokens: &Vec<Token>, pos: usize) -> (r: Result<(Ast, usize), ParseError>)
    requires
        pos <= tokens@.len(),
    ensures
        parse_step_matches(
            r,
            spec_parse_expr1(tokens@, pos as int),
            pos as int,
            tokens@.len() as int,
        ),
    decreases tokens@.len() - pos, 2int,
{
    if pos < tokens.len() {
        let tok = tokens[pos];
        let op = match tok.value {
            TokenKind::Plus => Some(UnaryOperator::plus(tok.location)),
            TokenKind::Minus => Some(UnaryOperator::minus(tok.location)),
            _ => None,
        };
        match op {
            Some(op) => {
                let (atom, j) = match parse_atom(tokens, pos + 1) {
                    Ok(x) => x,
                    Err(e) => return Err(e),
                };
                let loc = op.location.merge(&atom.location);
                Ok((Ast::unary(op, atom, loc), j))
            },
            None => parse_atom(tokens, pos),
        }
    } else {
        parse_atom(tokens, pos)
    }
}

/// One left-associative binary layer: parse a subexpression of the next
/// layer down, then fold same-level operators from the left.
pub fn parse_left_binop(tokens: &Vec<Token>, pos: usize, level: BinOpLevel) -> (r: Result<
    (Ast, usize),
    ParseError,
>)
    requires
        pos <= tokens@.len(),
    ensures
        parse_step_matches(
            r,
            spec_parse_left_binop(tokens@, pos as int, level),
            pos as int,
            tokens@.len() as int,
        ),
    decreases tokens@.len() - pos, level_rank(level),
{
    let first = match level {
        BinOpLevel::AddSub => parse_expr2(tokens, pos),
        BinOpLevel::MulDiv => parse_expr1(tokens, pos),
    };
    let (mut left, mut cur) = match first {
        Ok(x) => x,
        Err(e) => return Err(e),
    };
    loop
        invariant
            pos < cur <= tokens@.len(),
            spec_parse_left_binop(tokens@, pos as int, level) == spec_parse_binop_rest(
                tokens@,
                cur as int,
                left,
                level,
            ),
        decreases tokens@.len() - cur,
    {
        if cur >= tokens.len() {
            return Ok((left, cur));
        }
        let tok = tokens[cur];
        let op_opt = match level {
            BinOpLevel::AddSub => match tok.value {
                TokenKind::Plus => Some(BinaryOperator::add(tok.location)),
                TokenKind::Minus => Some(BinaryOperator::sub(tok.location)),
                _ => None,
            },
            BinOpLevel::MulDiv => match tok.value {
                TokenKind::Asterisk => Some(BinaryOperator::multi(tok.location)),
                TokenKind::Slash => Some(BinaryOperator::div(tok.location)),
                _ => None,
            },
        };
        let op = match op_opt {
            Some(op) => op,
            None => return Ok((left, cur)),
        };
        let next = match level {
            BinOpLevel::AddSub => parse_expr2(tokens, cur + 1),
            BinOpLevel::MulDiv => parse_expr1(tokens, cur + 1),
        };
        let (right, j) = match next {
            Ok(x) => x,
            Err(e) => return Err(e),
        };
        let loc = left.location.merge(&right.location);
        left = Ast::binary(op, left, right, loc);
        cur = j;
    }
}

/// `EXPR2 = EXPR1, (("*" | "/"), EXPR1)* ;`
pub fn parse_expr2(tokens: &Vec<Token>, pos: usize) -> (r: Result<(Ast, usize), ParseError>)
    requires
        pos <= tokens@.len(),
    ensures
        parse_step_matches(
            r,
            spec_parse_left_binop(tokens@, pos as int, BinOpLevel::MulDiv),
            pos as int,
            tokens@.len() as int,
        ),
    decreases tokens@.len() - pos, 5int,
{
    parse_left_binop(tokens, pos, BinOpLevel::MulDiv)
}

/// `EXPR3 = EXPR2, (("+" | "-"), EXPR2)* ;`
pub fn parse_expr3(tokens: &Vec<Token>, pos: usize) -> (r: Result<(Ast, usize), ParseError>)
    requires
        pos <= tokens@.len(),
    ensures
        parse_step_matches(
            r,
            spec_parse_left_binop(tokens@, pos as int, BinOpLevel::AddSub),
            pos as int,
            tokens@.len() as int,
        ),
    decreases tokens@.len() - pos, 7int,
{
    parse_left_binop(tokens, pos, BinOpLevel::AddSub)
}

/// `EXPR = EXPR3 ;`
pub fn parse_expr(tokens: &Vec<Token>, pos: usize) -> (r: Result<(Ast, usize), ParseError>)
    requires
        pos <= tokens@.len(),
    ensures
        parse_step_matches(
            r,
            spec_parse_expr(tokens@, pos as int),
            pos as int,
            tokens@.len() as int,
        ),
    decreases tokens@.len() - pos, 8int,
{
    parse_expr3(tokens, pos)
}

/// Parse the token sequence into the tree of one complete expression, or
/// report the first syntax error.
pub fn parse(tokens: Vec<Token>) -> (r: Result<Ast, ParseError>)
    ensures
        r == spec_parse(tokens@),
{
    let (ret, pos) = match parse_expr(&tokens, 0) {
        Ok(x) => x,
        Err(e) => return Err(e),
    };
    if pos < tokens.len() {
        Err(ParseError::RedundantExpression(tokens[pos]))
    } else {
        Ok(ret)
    }
}

/// Every composite node is located at the merge of its children's
/// locations: the operator's and the operand's for a unary node, the two
/// operands' for a binary node.
pub open spec fn spans_wf(ast: Ast) -> bool
    decreases ast,
{
    match ast.value {
        AstKind::Num(_) => true,
        AstKind::Unary { operator, operand } => ast.location == operator.location.spec_merge(
            (*operand).location,
        ) && spans_wf(*operand),
        AstKind::Binary { operator, left, right } => ast.location == (*left).location.spec_merge(
            (*right).location,
        ) && spans_wf(*left) && spans_wf(*right),
    }
}

/// A successful `ATOM` consumes at least one token, stays in bounds, and
/// builds a tree whose spans are well formed.
proof fn lemma_parse_atom_inv(toks: Seq<Token>, i: int)
    requires
        0 <= i <= toks.len(),
    ensures
        match spec_parse_atom(toks, i) {
            Ok((ast, j)) => i < j <= toks.len() && spans_wf(ast),
            Err(_) => true,
        },
    decreases toks.len() - i, 0int,
{
    if 0 <= i < toks.len() {
        if toks[i].value is LParen {
            lemma_parse_expr_inv(toks, i + 1);
        }
    }
}

/// As `lemma_parse_atom_inv`, for `EXPR1`.
proof fn lemma_parse_expr1_inv(toks: Seq<Token>, i: int)
    requires
        0 <= i <= toks.len(),
    ensures
        match spec_parse_expr1(toks, i) {
            Ok((ast, j)) => i < j <= toks.len() && spans_wf(ast),
            Err(_) => true,
        },
    decreases toks.len() - i, 2int,
{
    if 0 <= i < toks.len() && (toks[i].value is Plus || toks[i].value is Minus) {
        lemma_parse_atom_inv(toks, i + 1);
    } else {
        lemma_parse_atom_inv(toks, i);
    }
}

/// As `lemma_parse_atom_inv`, for one left-associative binary layer.
proof fn lemma_parse_left_binop_inv(toks: Seq<Token>, i: int, level: BinOpLevel)
    requires
        0 <= i <= toks.len(),
    ensures
        match spec_parse_left_binop(toks, i, level) {
            Ok((ast, j)) => i < j <= toks.len() && spans_wf(ast),
            Err(_) => true,
        },
    decreases toks.len() - i, level_rank(level),
{
    let first = match level {
        BinOpLevel::AddSub => spec_parse_left_binop(toks, i, BinOpLevel::MulDiv),
        BinOpLevel::MulDiv => spec_parse_expr1(toks, i),
    };
    match level {
        BinOpLevel::AddSub => lemma_parse_left_binop_inv(toks, i, BinOpLevel::MulDiv),
        BinOpLevel::MulDiv => lemma_parse_expr1_inv(toks, i),
    }
    match first {
        Ok((left, j)) => lemma_parse_binop_rest_inv(toks, j, left, level),
        Err(_) => {},
    }
}

/// As `lemma_parse_atom_inv`, for the operator fold of a binary layer.
/// The fold may consume nothing, so the cursor only moves forward weakly.
proof fn lemma_parse_binop_rest_inv(toks: Seq<Token>, i: int, left: Ast, level: BinOpLevel)
    requires
        0 <= i <= toks.len(),
        spans_wf(left),
    ensures
        match spec_parse_binop_rest(toks, i, left, level) {
            Ok((ast, j)) => i <= j <= toks.len() && spans_wf(ast),
            Err(_) => true,
        },
    decreases toks.len() - i, level_rank(level),
{
    if 0 <= i < toks.len() {
        match spec_level_op(level, toks[i]) {
            None => {},
            Some(op) => {
                let next = match level {
                    BinOpLevel::AddSub => spec_parse_left_binop(toks, i + 1, BinOpLevel::MulDiv),
                    BinOpLevel::MulDiv => spec_parse_expr1(toks, i + 1),
                };
                match level {
                    BinOpLevel::AddSub => lemma_parse_left_binop_inv(
                        toks,
                        i + 1,
                        BinOpLevel::MulDiv,
                    ),
                    BinOpLevel::MulDiv => lemma_parse_expr1_inv(toks, i + 1),
                }
                match next {
                    Ok((right, j)) => {
                        lemma_parse_binop_rest_inv(toks, j, spec_binary(op, left, right), level);
                    },
                    Err(_) => {},
                }
            },
        }
    }
}

/// As `lemma_parse_atom_inv`, for `EXPR`.
proof fn lemma_parse_expr_inv(toks: Seq<Token>, i: int)
    requires
        0 <= i <= toks.len(),
    ensures
        match spec_parse_expr(toks, i) {
            Ok((ast, j)) => i < j <= toks.len() && spans_wf(ast),
            Err(_) => true,
        },
    decreases toks.len() - i, 8int,
{
    lemma_parse_left_binop_inv(toks, i, BinOpLevel::AddSub);
}

/// Span invariant: every tree that parsing returns has each composite
/// node located at the merge of its children's locations.
pub proof fn lemma_parse_spans_wf(toks: Seq<Token>)
    ensures
        match spec_parse(toks) {
            Ok(ast) => spans_wf(ast),
            Err(_) => true,
        },
{
    lemma_parse_expr_inv(toks, 0);
}

/// A successful `ATOM` parse is unchanged when the token sequence is
/// wrapped in one extra pair of parentheses: the same tree comes back and
/// the cursor shifts with the tokens.  Only the closing parenthesis on the
/// right matters; it can never extend a parse that succeeded without it.
proof fn lemma_wrap_atom(toks: Seq<Token>, lp: Token, rp: Token, i: int)
    requires
        rp.value is RParen,
        0 <= i <= toks.len(),
    ensures
        match spec_parse_atom(toks, i) {
            Ok((ast, j)) => spec_parse_atom(seq![lp] + toks + seq![rp], i + 1)
                == Ok::<(Ast, int), ParseError>((ast, j + 1)),
            Err(_) => true,
        },
    decreases toks.len() - i, 0int,
{
    let w = seq![lp] + toks + seq![rp];
    if spec_parse_atom(toks, i) is Ok {
        assert(0 <= i < toks.len());
        assert(w[i + 1] == toks[i]);
        match toks[i].value {
            TokenKind::Number(_) => {},
            TokenKind::LParen => {
                lemma_parse_expr_inv(toks, i + 1);
                lemma_wrap_expr(toks, lp, rp, i + 1);
                let (exp, j1) = spec_parse_expr(toks, i + 1)->Ok_0;
                assert(w[j1 + 1] == toks[j1]);
            },
            _ => {},
        }
    }
}

/// As `lemma_wrap_atom`, for `EXPR1`.
proof fn lemma_wrap_expr1(toks: Seq<Token>, lp: Token, rp: Token, i: int)
    requires
        rp.value is RParen,
        0 <= i <= toks.len(),
    ensures
        match spec_parse_expr1(toks, i) {
            Ok((ast, j)) => spec_parse_expr1(seq![lp] + toks + seq![rp], i + 1)
                == Ok::<(Ast, int), ParseError>((ast, j + 1)),
            Err(_) => true,
        },
    decreases toks.len() - i, 2int,
{
    let w = seq![lp] + toks + seq![rp];
    if spec_parse_expr1(toks, i) is Ok {
        if 0 <= i < toks.len() && (toks[i].value is Plus || toks[i].value is Minus) {
            assert(w[i + 1] == toks[i]);
            lemma_wrap_atom(toks, lp, rp, i + 1);
        } else {
            if i < toks.len() {
                assert(w[i + 1] == toks[i]);
            } else {
                assert(w[i + 1] == rp);
            }
            lemma_wrap_atom(toks, lp, rp, i);
        }
    }
}

/// As `lemma_wrap_atom`, for one left-associative binary layer.
proof fn lemma_wrap_left_binop(toks: Seq<Token>, lp: Token, rp: Token, i: int, level: BinOpLevel)
    requires
        rp.value is RParen,
        0 <= i <= toks.len(),
    ensures
        match spec_parse_left_binop(toks, i, level) {
            Ok((ast, j)) => spec_parse_left_binop(seq![lp] + toks + seq![rp], i + 1, level)
                == Ok::<(Ast, int), ParseError>((ast, j + 1)),
            Err(_) => true,
        },
    decreases toks.len() - i, level_rank(level),
{
    if spec_parse_left_binop(toks, i, level) is Ok {
        let first = match level {
            BinOpLevel::AddSub => spec_parse_left_binop(toks, i, BinOpLevel::MulDiv),
            BinOpLevel::MulDiv => spec_parse_expr1(toks, i),
        };
        match level {
            BinOpLevel::AddSub => {
                lemma_parse_left_binop_inv(toks, i, BinOpLevel::MulDiv);
                lemma_wrap_left_binop(toks, lp, rp, i, BinOpLevel::MulDiv);
            },
            BinOpLevel::MulDiv => {
                lemma_parse_expr1_inv(toks, i);
                lemma_wrap_expr1(toks, lp, rp, i);
            },
        }
        match first {
            Ok((left, j)) => lemma_wrap_binop_rest(toks, lp, rp, j, left, level),
            Err(_) => {},
        }
    }
}

/// As `lemma_wrap_atom`, for the operator fold of a binary layer.  This is
/// where the closing parenthesis matters: where the fold stopped at the end
/// of the tokens, it now stops at the `)` instead, which is no operator.
proof fn lemma_wrap_binop_rest(
    toks: Seq<Token>,
    lp: Token,
    rp: Token,
    i: int,
    left: Ast,
    level: BinOpLevel,
)
    requires
        rp.value is RParen,
        0 <= i <= toks.len(),
    ensures
        match spec_parse_binop_rest(toks, i, left, level) {
            Ok((ast, j)) => spec_parse_binop_rest(seq![lp] + toks + seq![rp], i + 1, left, level)
                == Ok::<(Ast, int), ParseError>((ast, j + 1)),
            Err(_) => true,
        },
    decreases toks.len() - i, level_rank(level),
{
    let w = seq![lp] + toks + seq![rp];
    if spec_parse_binop_rest(toks, i, left, level) is Ok {
        if i == toks.len() {
            assert(w[i + 1] == rp);
            assert(spec_level_op(level, rp) is None);
        } else {
            assert(w[i + 1] == toks[i]);
            match spec_level_op(level, toks[i]) {
                None => {},
                Some(op) => {
                    let next = match level {
                        BinOpLevel::AddSub => spec_parse_left_binop(
                            toks,
                            i + 1,
                            BinOpLevel::MulDiv,
                        ),
                        BinOpLevel::MulDiv => spec_parse_expr1(toks, i + 1),
                    };
                    match level {
                        BinOpLevel::AddSub => {
                            lemma_parse_left_binop_inv(toks, i + 1, BinOpLevel::MulDiv);
                            lemma_wrap_left_binop(toks, lp, rp, i + 1, BinOpLevel::MulDiv);
                        },
                        BinOpLevel::MulDiv => {
                            lemma_parse_expr1_inv(toks, i + 1);
                            lemma_wrap_expr1(toks, lp, rp, i + 1);
                        },
                    }
                    match next {
                        Ok((right, j)) => {
                            lemma_wrap_binop_rest(
                                toks,
                                lp,
                                rp,
                                j,
                                spec_binary(op, left, right),
                                level,
                            );
                        },
                        Err(_) => {},
                    }
                },
            }
        }
    }
}

/// As `lemma_wrap_atom`, for `EXPR`.
proof fn lemma_wrap_expr(toks: Seq<Token>, lp: Token, rp: Token, i: int)
    requires
        rp.value is RParen,
        0 <= i <= toks.len(),
    ensures
        match spec_parse_expr(toks, i) {
            Ok((ast, j)) => spec_parse_expr(seq![lp] + toks + seq![rp], i + 1)
                == Ok::<(Ast, int), ParseError>((ast, j + 1)),
            Err(_) => true,
        },
    decreases toks.len() - i, 8int,
{
    lemma_wrap_left_binop(toks, lp, rp, i, BinOpLevel::AddSub);
}

/// The same tree, with every location in it moved right by `d` bytes.
pub open spec fn shift_ast(ast: Ast, d: int) -> Ast
    decreases ast,
{
    match ast.value {
        AstKind::Num(n) => Annotation {
            value: AstKind::Num(n),
            location: shift_location(ast.location, d),
        },
        AstKind::Unary { operator, operand } => Annotation {
            value: AstKind::Unary {
                operator: shift_annotation(operator, d),
                operand: Box::new(shift_ast(*operand, d)),
            },
            location: shift_location(ast.location, d),
        },
        AstKind::Binary { operator, left, right } => Annotation {
            value: AstKind::Binary {
                operator: shift_annotation(operator, d),
                left: Box::new(shift_ast(*left, d)),
                right: Box::new(shift_ast(*right, d)),
            },
            location: shift_location(ast.location, d),
        },
    }
}

/// Every location in the tree can move right by `d` bytes without leaving
/// the range of `usize`.
pub open spec fn ast_locs_fit(ast: Ast, d: int) -> bool
    decreases ast,
{
    &&& ast.location.0 + d <= usize::MAX
    &&& ast.location.1 + d <= usize::MAX
    &&& match ast.value {
        AstKind::Num(_) => true,
        AstKind::Unary { operator, operand } => {
            &&& operator.location.0 + d <= usize::MAX
            &&& operator.location.1 + d <= usize::MAX
            &&& ast_locs_fit(*operand, d)
        },
        AstKind::Binary { operator, left, right } => {
            &&& operator.location.0 + d <= usize::MAX
            &&& operator.location.1 + d <= usize::MAX
            &&& ast_locs_fit(*left, d)
            &&& ast_locs_fit(*right, d)
        },
    }
}

/// Every token location can move right by `d` bytes within `usize`.
pub open spec fn tokens_fit(toks: Seq<Token>, d: int) -> bool {
    forall|k: int|
        0 <= k < toks.len() ==> (#[trigger] toks[k].location).0 + d <= usize::MAX
            && toks[k].location.1 + d <= usize::MAX
}

/// A successful `ATOM` parse of tokens moved right by `d` bytes yields the
/// same tree with its locations moved right by `d`, consuming the same
/// number of tokens.
proof fn lemma_shift_atom(toks: Seq<Token>, d: int, i: int)
    requires
        0 <= i <= toks.len(),
        0 <= d,
        tokens_fit(toks, d),
    ensures
        match spec_parse_atom(toks, i) {
            Ok((ast, j)) => spec_parse_atom(shift_tokens(toks, d), i) == Ok::<
                (Ast, int),
                ParseError,
            >((shift_ast(ast, d), j)) && ast_locs_fit(ast, d),
            Err(_) => true,
        },
    decreases toks.len() - i, 0int,
{
    let st = shift_tokens(toks, d);
    assert(st.len() == toks.len());
    if spec_parse_atom(toks, i) is Ok {
        assert(0 <= i < toks.len());
        assert(st[i] == shift_token(toks[i], d));
        match toks[i].value {
            TokenKind::Number(_) => {},
            TokenKind::LParen => {
                lemma_parse_expr_inv(toks, i + 1);
                lemma_shift_expr(toks, d, i + 1);
                let (exp, j1) = spec_parse_expr(toks, i + 1)->Ok_0;
                assert(st[j1] == shift_token(toks[j1], d));
            },
            _ => {},
        }
    }
}

/// As `lemma_shift_atom`, for `EXPR1`.
proof fn lemma_shift_expr1(toks: Seq<Token>, d: int, i: int)
    requires
        0 <= i <= toks.len(),
        0 <= d,
        tokens_fit(toks, d),
    ensures
        match spec_parse_expr1(toks, i) {
            Ok((ast, j)) => spec_parse_expr1(shift_tokens(toks, d), i) == Ok::<
                (Ast, int),
                ParseError,
            >((shift_ast(ast, d), j)) && ast_locs_fit(ast, d),
            Err(_) => true,
        },
    decreases toks.len() - i, 2int,
{
    let st = shift_tokens(toks, d);
    assert(st.len() == toks.len());
    if spec_parse_expr1(toks, i) is Ok {
        if 0 <= i < toks.len() {
            assert(st[i] == shift_token(toks[i], d));
        }
        if 0 <= i < toks.len() && (toks[i].value is Plus || toks[i].value is Minus) {
            lemma_shift_atom(toks, d, i + 1);
        } else {
            lemma_shift_atom(toks, d, i);
        }
    }
}

/// As `lemma_shift_atom`, for one left-associative binary layer.
proof fn lemma_shift_left_binop(toks: Seq<Token>, d: int, i: int, level: BinOpLevel)
    requires
        0 <= i <= toks.len(),
        0 <= d,
        tokens_fit(toks, d),
    ensures
        match spec_parse_left_binop(toks, i, level) {
            Ok((ast, j)) => spec_parse_left_binop(shift_tokens(toks, d), i, level) == Ok::<
                (Ast, int),
                ParseError,
            >((shift_ast(ast, d), j)) && ast_locs_fit(ast, d),
            Err(_) => true,
        },
    decreases toks.len() - i, level_rank(level),
{
    if spec_parse_left_binop(toks, i, level) is Ok {
        let first = match level {
            BinOpLevel::AddSub => spec_parse_left_binop(toks, i, BinOpLevel::MulDiv),
            BinOpLevel::MulDiv => spec_parse_expr1(toks, i),
        };
        match level {
            BinOpLevel::AddSub => {
                lemma_parse_left_binop_inv(toks, i, BinOpLevel::MulDiv);
                lemma_shift_left_binop(toks, d, i, BinOpLevel::MulDiv);
            },
            BinOpLevel::MulDiv => {
                lemma_parse_expr1_inv(toks, i);
                lemma_shift_expr1(toks, d, i);
            },
        }
        match first {
            Ok((left, j)) => lemma_shift_binop_rest(toks, d, j, left, level),
            Err(_) => {},
        }
    }
}

/// As `lemma_shift_atom`, for the operator fold of a binary layer.
proof fn lemma_shift_binop_rest(toks: Seq<Token>, d: int, i: int, left: Ast, level: BinOpLevel)
    requires
        0 <= i <= toks.len(),
        0 <= d,
        tokens_fit(toks, d),
        ast_locs_fit(left, d),
    ensures
        match spec_parse_binop_rest(toks, i, left, level) {
            Ok((ast, j)) => spec_parse_binop_rest(shift_tokens(toks, d), i, shift_ast(left, d), level)
                == Ok::<(Ast, int), ParseError>((shift_ast(ast, d), j)) && ast_locs_fit(ast, d),
            Err(_) => true,
        },
    decreases toks.len() - i, level_rank(level),
{
    let st = shift_tokens(toks, d);
    assert(st.len() == toks.len());
    if spec_parse_binop_rest(toks, i, left, level) is Ok {
        if 0 <= i < toks.len() {
            assert(st[i] == shift_token(toks[i], d));
            match spec_level_op(level, toks[i]) {
                None => {},
                Some(op) => {
                    assert(spec_level_op(level, st[i]) == Some(shift_annotation(op, d)));
                    let next = match level {
                        BinOpLevel::AddSub => spec_parse_left_binop(
                            toks,
                            i + 1,
                            BinOpLevel::MulDiv,
                        ),
                        BinOpLevel::MulDiv => spec_parse_expr1(toks, i + 1),
                    };
                    match level {
                        BinOpLevel::AddSub => {
                            lemma_parse_left_binop_inv(toks, i + 1, BinOpLevel::MulDiv);
                            lemma_shift_left_binop(toks, d, i + 1, BinOpLevel::MulDiv);
                        },
                        BinOpLevel::MulDiv => {
                            lemma_parse_expr1_inv(toks, i + 1);
                            lemma_shift_expr1(toks, d, i + 1);
                        },
                    }
                    match next {
                        Ok((right, j)) => {
                            assert(shift_ast(spec_binary(op, left, right), d) == spec_binary(
                                shift_annotation(op, d),
                                shift_ast(left, d),
                                shift_ast(right, d),
                            ));
                            lemma_shift_binop_rest(
                                toks,
                                d,
                                j,
                                spec_binary(op, left, right),
                                level,
                            );
                        },
                        Err(_) => {},
                    }
                },
            }
        }
    }
}

/// As `lemma_shift_atom`, for `EXPR`.
proof fn lemma_shift_expr(toks: Seq<Token>, d: int, i: int)
    requires
        0 <= i <= toks.len(),
        0 <= d,
        tokens_fit(toks, d),
    ensures
        match spec_parse_expr(toks, i) {
            Ok((ast, j)) => spec_parse_expr(shift_tokens(toks, d), i) == Ok::<
                (Ast, int),
                ParseError,
            >((shift_ast(ast, d), j)) && ast_locs_fit(ast, d),
            Err(_) => true,
        },
    decreases toks.len() - i, 8int,
{
    lemma_shift_left_binop(toks, d, i, BinOpLevel::AddSub);
}

/// Parenthesization round trip: wrapping a parsable token sequence in one
/// pair of parentheses yields the identical tree, spans included, since the
/// inner tokens keep their locations.
pub proof fn lemma_paren_wrap(toks: Seq<Token>, lp: Token, rp: Token)
    requires
        lp.value is LParen,
        rp.value is RParen,
        spec_parse(toks) is Ok,
    ensures
        spec_parse(seq![lp] + toks + seq![rp]) == spec_parse(toks),
{
    let w = seq![lp] + toks + seq![rp];
    let n = toks.len() as int;
    let ast = spec_parse(toks)->Ok_0;
    assert(spec_parse_expr(toks, 0) == Ok::<(Ast, int), ParseError>((ast, n)));
    lemma_wrap_expr(toks, lp, rp, 0);
    assert(spec_parse_expr(w, 1) == Ok::<(Ast, int), ParseError>((ast, n + 1)));
    assert(w[0] == lp);
    assert(w[n + 1] == rp);
    assert(spec_parse_atom(w, 0) == Ok::<(Ast, int), ParseError>((ast, n + 2)));
    assert(spec_parse_expr1(w, 0) == Ok::<(Ast, int), ParseError>((ast, n + 2)));
    assert(spec_parse_binop_rest(w, n + 2, ast, BinOpLevel::MulDiv) == Ok::<
        (Ast, int),
        ParseError,
    >((ast, n + 2)));
    assert(spec_parse_left_binop(w, 0, BinOpLevel::MulDiv) == Ok::<(Ast, int), ParseError>(
        (ast, n + 2),
    ));
    assert(spec_parse_binop_rest(w, n + 2, ast, BinOpLevel::AddSub) == Ok::<
        (Ast, int),
        ParseError,
    >((ast, n + 2)));
    assert(spec_parse_left_binop(w, 0, BinOpLevel::AddSub) == Ok::<(Ast, int), ParseError>(
        (ast, n + 2),
    ));
    assert(spec_parse_expr(w, 0) == Ok::<(Ast, int), ParseError>((ast, n + 2)));
    assert(w.len() == n + 2);
}

/// What the whole front end returns on the bytes of the input: the tree of
/// one complete expression, or the error of the stage that failed first.
pub open spec fn spec_parse_text(s: Seq<u8>) -> Result<Ast, ApplicationError> {
    match spec_lex(s, 0) {
        Ok(toks) => match spec_parse(toks) {
            Ok(ast) => Ok(ast),
            Err(e) => Err(ApplicationError::Parser(e)),
        },
        Err(e) => Err(ApplicationError::Lexer(e)),
    }
}

/// Determinism: the whole front end is a function of the input text alone.
/// The contracts of `lex`, `parse` and `parse_text` pin each result to a
/// specification function of the input, so repeated runs on the same text
/// return structurally identical trees (same node shapes, same spans) or
/// identical errors.
pub proof fn lemma_parse_text_deterministic(
    s: Seq<u8>,
    r1: Result<Ast, ApplicationError>,
    r2: Result<Ast, ApplicationError>,
)
    requires
        r1 == spec_parse_text(s),
        r2 == spec_parse_text(s),
    ensures
        r1 == r2,
{
}

/// The span invariant carries over to the whole front end: a tree built
/// from raw text has each composite node located at the merge of its
/// children's locations.
pub proof fn lemma_parse_text_spans_wf(s: Seq<u8>)
    ensures
        match spec_parse_text(s) {
            Ok(ast) => spans_wf(ast),
            Err(_) => true,
        },
{
    if spec_lex(s, 0) is Ok {
        lemma_parse_spans_wf(spec_lex(s, 0)->Ok_0);
    }
}

/// Parenthesization round trip at the text level: wrapping the whole input
/// in one pair of parentheses yields a tree of the identical shape, with
/// every span moved right by the one byte the `(` takes up.
pub proof fn lemma_paren_wrap_text(s: Seq<u8>)
    requires
        s.len() + 2 <= usize::MAX,
        spec_parse_text(s) is Ok,
    ensures
        spec_parse_text(seq![('(' as u8)] + s + seq![(')' as u8)]) == Ok::<Ast, ApplicationError>(
            shift_ast(spec_parse_text(s)->Ok_0, 1),
        ),
{
    let w = seq![('(' as u8)] + s + seq![(')' as u8)];
    let toks = spec_lex(s, 0)->Ok_0;
    let ast = spec_parse_text(s)->Ok_0;
    assert(spec_parse(toks) == Ok::<Ast, ParseError>(ast));
    // Token locations are nonempty spans bounded by the input length, so
    // they can move right by one byte.
    lemma_lex_spans_tile(s);
    assert forall|k: int|
        0 <= k < toks.len() implies (#[trigger] toks[k].location).0 + 1 <= usize::MAX
            && toks[k].location.1 + 1 <= usize::MAX by {
        assert(toks[k].location.0 < toks[k].location.1 <= s.len());
    }
    assert(tokens_fit(toks, 1));
    // Parsing the shifted tokens gives the shifted tree.
    let st = shift_tokens(toks, 1);
    assert(spec_parse_expr(toks, 0) == Ok::<(Ast, int), ParseError>((ast, toks.len() as int)));
    lemma_shift_expr(toks, 1, 0);
    assert(st.len() == toks.len());
    assert(spec_parse(st) == Ok::<Ast, ParseError>(shift_ast(ast, 1)));
    // Wrapping the shifted tokens in parenthesis tokens keeps the tree,
    // and those are exactly the tokens of the wrapped text.
    let lp = Annotation { value: TokenKind::LParen, location: Location(0, 1) };
    let rp = Annotation {
        value: TokenKind::RParen,
        location: Location((s.len() + 1) as usize, (s.len() + 2) as usize),
    };
    lemma_paren_wrap(st, lp, rp);
    lemma_lex_bracket(s);
    assert(spec_lex(w, 0) == Ok::<Seq<Token>, LexError>(seq![lp] + st + seq![rp]));
    assert(spec_parse_text(w) == Ok::<Ast, ApplicationError>(shift_ast(ast, 1)));
}

/// Lex and parse the input text in one step.
pub fn parse_text(input: &str) -> (r: Result<Ast, ApplicationError>)
    requires
        no_number_overflow(input.spec_bytes()),
    ensures
        r == spec_parse_text(input.spec_bytes()),
{
    let tokens = match lex(input) {
        Ok(tokens) => tokens,
        Err(e) => return Err(ApplicationError::Lexer(e)),
    };
    match parse(tokens) {
        Ok(ast) => Ok(ast),
        Err(e) => Err(ApplicationError::Parser(e)),
    }
}

} // verus!
