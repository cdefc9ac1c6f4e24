//! Tree-walking evaluator for the abstract syntax tree.
//!
//! Evaluation is signed 64-bit arithmetic; the only runtime failure is a
//! division whose right operand evaluates to zero, reported with the
//! location of the offending binary expression.  Inputs whose evaluation
//! would leave the 64-bit range are excluded by precondition, so the
//! evaluator itself never overflows.

use vstd::prelude::*;

use crate::lexer::Annotation;
use crate::parser::Ast;
use crate::parser::AstKind;
use crate::parser::BinaryOperator;
use crate::parser::BinaryOperatorKind;
use crate::parser::UnaryOperator;
use crate::parser::UnaryOperatorKind;

verus! {

/// The kind of an evaluation error.
#[derive(Debug, Clone, Copy, PartialEq, Eq, Hash)]
pub enum InterpreterErrorKind {
    /// The right operand of a division evaluated to zero.
    DivisionByZero,
}

/// An evaluation error together with the location of the expression that
/// raised it.
pub type InterpreterError = Annotation<InterpreterErrorKind>;

/// Division that rounds toward zero, as machine division computes it:
/// divide the magnitudes, then restore the sign.  (`/` on `int` is
/// Euclidean division, which rounds differently for negative operands.)
pub open spec fn div_trunc(a: int, b: int) -> int {
    if a == 0 {
        0
    } else if a > 0 && b > 0 {
        a / b
    } else if a < 0 && b < 0 {
        (a * -1) / (b * -1)
    } else if a < 0 {
        ((a * -1) / b) * -1
    } else {
        (a / (b * -1)) * -1
    }
}

/// The mathematical value of a unary operator applied to a value.
pub open spec fn spec_eval_unary(op: UnaryOperatorKind, v: int) -> int {
    match op {
        UnaryOperatorKind::Plus => v,
        UnaryOperatorKind::Minus => -v,
    }
}

/// The mathematical value of a binary operator applied to two values.
pub open spec fn spec_eval_binary(op: BinaryOperatorKind, l: int, r: int) -> int {
    match op {
        BinaryOperatorKind::Add => l + r,
        BinaryOperatorKind::Sub => l - r,
        BinaryOperatorKind::Multi => l * r,
        BinaryOperatorKind::Div => div_trunc(l, r),
    }
}

/// What evaluating the tree returns, computed in unbounded integers:
/// the value, or the first division by zero in evaluation order
/// (left operand first, then right, then the operator).
pub open spec fn spec_eval(ast: Ast) -> Result<int, InterpreterError>
    decreases ast,
{
    match ast.value {
        AstKind::Num(n) => Ok(n as int),
        AstKind::Unary { operator, operand } => match spec_eval(*operand) {
            Ok(v) => Ok(spec_eval_unary(operator.value, v)),
            Err(e) => Err(e),
        },
        AstKind::Binary { operator, left, right } => match spec_eval(*left) {
            Ok(l) => match spec_eval(*right) {
                Ok(r) => if operator.value is Div && r == 0 {
                    Err(
                        Annotation {
                            value: InterpreterErrorKind::DivisionByZero,
                            location: ast.location,
                        },
                    )
                } else {
                    Ok(spec_eval_binary(operator.value, l, r))
                },
                Err(e) => Err(e),
            },
            Err(e) => Err(e),
        },
    }
}

/// The value fits in a signed 64-bit integer.
pub open spec fn in_i64(v: int) -> bool {
    i64::MIN <= v <= i64::MAX
}

/// Every intermediate value that the evaluation of `ast` actually computes
/// fits in a signed 64-bit integer.  Subtrees that evaluation never reaches
/// (to the right of an error) are not constrained.
pub open spec fn eval_fits(ast: Ast) -> bool
    decreases ast,
{
    match ast.value {
        AstKind::Num(n) => n <= i64::MAX,
        AstKind::Unary { operator, operand } => eval_fits(*operand) && (match spec_eval(*operand) {
            Ok(v) => in_i64(spec_eval_unary(operator.value, v)),
            Err(_) => true,
        }),
        AstKind::Binary { operator, left, right } => eval_fits(*left) && (match spec_eval(*left) {
            Ok(l) => eval_fits(*right) && (match spec_eval(*right) {
                Ok(r) => (operator.value is Div && r == 0) || in_i64(
                    spec_eval_binary(operator.value, l, r),
                ),
                Err(_) => true,
            }),
            Err(_) => true,
        }),
    }
}

/// The evaluator.
pub struct Interpreter;

impl Interpreter {
    pub fn new() -> Self {
        Interpreter
    }

    /// Evaluate the tree, returning its signed 64-bit value or the first
    /// division by zero.
    pub fn eval(&mut self, expr: &Ast) -> (r: Result<i64, InterpreterError>)
        requires
            eval_fits(*expr),
        ensures
            match r {
                Ok(v) => spec_eval(*expr) == Ok::<int, InterpreterError>(v as int),
                Err(e) => spec_eval(*expr) == Err::<int, InterpreterError>(e),
            },
        decreases *expr,
    {
        match &expr.value {
            AstKind::Num(n) => Ok(*n as i64),
            AstKind::Unary { operator, operand } => {
                let operand_value = match self.eval(operand) {
                    Ok(v) => v,
                    Err(e) => return Err(e),
                };
                Ok(self.eval_uniop(operator, operand_value))
            },
            AstKind::Binary { operator, left, right } => {
                let left_value = match self.eval(left) {
                    Ok(v) => v,
                    Err(e) => return Err(e),
                };
                let right_value = match self.eval(right) {
                    Ok(v) => v,
                    Err(e) => return Err(e),
                };
                match self.eval_binop(operator, left_value, right_value) {
                    Ok(v) => Ok(v),
                    Err(kind) => Err(InterpreterError::new(kind, expr.location)),
                }
            },
        }
    }

    /// Apply a unary operator to an already evaluated operand.
    fn eval_uniop(&mut self, operator: &UnaryOperator, operand: i64) -> (r: i64)
        requires
            in_i64(spec_eval_unary(operator.value, operand as int)),
        ensures
            r as int == spec_eval_unary(operator.value, operand as int),
    {
        match operator.value {
            UnaryOperatorKind::Plus => operand,
            UnaryOperatorKind::Minus => -operand,
        }
    }

    /// Apply a binary operator to two already evaluated operands.
    fn eval_binop(&mut self, operator: &BinaryOperator, left: i64, right: i64) -> (r: Result<
        i64,
        InterpreterErrorKind,
    >)
        requires
            (operator.value is Div && right == 0) || in_i64(
                spec_eval_binary(operator.value, left as int, right as int),
            ),
        ensures
            match r {
                Ok(v) => !(operator.value is Div && right == 0) && v as int == spec_eval_binary(
                    operator.value,
                    left as int,
                    right as int,
                ),
                Err(kind) => {
                    &&& operator.value is Div
                    &&& right == 0
                    &&& kind == InterpreterErrorKind::DivisionByZero
                },
            },
    {
        match operator.value {
            BinaryOperatorKind::Add => Ok(left + right),
            BinaryOperatorKind::Sub => Ok(left - right),
            BinaryOperatorKind::Multi => Ok(left * right),
            BinaryOperatorKind::Div => {
                if right == 0 {
                    Err(InterpreterErrorKind::DivisionByZero)
                } else {
                    match left.checked_div(right) {
                        Some(q) => Ok(q),
                        None => {
                            // Excluded by the precondition: the quotient of
                            // any other division by a nonzero divisor fits.
                            proof {
                                assert(false);
                            }
                            Err(InterpreterErrorKind::DivisionByZero)
                        },
                    }
                }
            },
        }
    }
}

} // verus!
