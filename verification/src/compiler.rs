//! Compiler from the abstract syntax tree to reverse-Polish (postfix) text.
//!
//! The traversal is total and never fails: numbers become their decimal
//! text, a unary node becomes `<op><operand>` with no separating space, and
//! a binary node becomes `<left> <right> <op>` separated by single spaces.

use vstd::prelude::*;

use crate::diagnostics::dec_str;
use crate::diagnostics::push_decimal;
use crate::parser::Ast;
use crate::parser::AstKind;
use crate::parser::BinaryOperator;
use crate::parser::BinaryOperatorKind;
use crate::parser::UnaryOperator;
use crate::parser::UnaryOperatorKind;

verus! {

/// The sign character of a unary operator.
pub open spec fn unary_op_char(op: UnaryOperatorKind) -> char {
    match op {
        UnaryOperatorKind::Plus => '+',
        UnaryOperatorKind::Minus => '-',
    }
}

/// The operator character of a binary operator.
pub open spec fn binary_op_char(op: BinaryOperatorKind) -> char {
    match op {
        BinaryOperatorKind::Add => '+',
        BinaryOperatorKind::Sub => '-',
        BinaryOperatorKind::Multi => '*',
        BinaryOperatorKind::Div => '/',
    }
}

/// The reverse-Polish text of the tree.
pub open spec fn spec_compile(ast: Ast) -> Seq<char>
    decreases ast,
{
    match ast.value {
        AstKind::Num(n) => dec_str(n as nat),
        AstKind::Unary { operator, operand } => seq![unary_op_char(operator.value)] + spec_compile(
            *operand,
        ),
        AstKind::Binary { operator, left, right } => spec_compile(*left) + seq![' ']
            + spec_compile(*right) + seq![' '] + seq![binary_op_char(operator.value)],
    }
}

/// The compiler to reverse-Polish notation.
pub struct RpnCompiler;

impl RpnCompiler {
    pub fn new() -> Self {
        RpnCompiler
    }

    /// Compile the tree to its reverse-Polish text.
    pub fn compile(&mut self, expr: &Ast) -> (r: String)
        ensures
            r@ == spec_compile(*expr),
    {
        let mut buf = String::new();
        self.compile_inner(expr, &mut buf);
        proof {
            assert(Seq::<char>::empty() + spec_compile(*expr) =~= spec_compile(*expr));
        }
        buf
    }

    /// Append the reverse-Polish text of the tree to `buf`.
    fn compile_inner(&mut self, expr: &Ast, buf: &mut String)
        ensures
            final(buf)@ == old(buf)@ + spec_compile(*expr),
        decreases *expr,
    {
        match &expr.value {
            AstKind::Num(n) => push_decimal(buf, *n),
            AstKind::Unary { operator, operand } => {
                self.compile_uniop(operator, buf);
                self.compile_inner(operand, buf);
                proof {
                    assert(old(buf)@ + seq![unary_op_char(operator.value)] + spec_compile(
                        **operand,
                    ) =~= old(buf)@ + spec_compile(*expr));
                }
            },
            AstKind::Binary { operator, left, right } => {
                proof {
                    reveal_strlit(" ");
                    assert(" "@ =~= seq![' ']);
                }
                self.compile_inner(left, buf);
                buf.append(" ");
                self.compile_inner(right, buf);
                buf.append(" ");
                self.compile_binop(operator, buf);
                proof {
                    assert(old(buf)@ + spec_compile(**left) + seq![' '] + spec_compile(**right)
                        + seq![' '] + seq![binary_op_char(operator.value)] =~= old(buf)@
                        + spec_compile(*expr));
                }
            },
        }
    }

    /// Append the sign of a unary operator to `buf`.
    fn compile_uniop(&mut self, operator: &UnaryOperator, buf: &mut String)
        ensures
            final(buf)@ == old(buf)@ + seq![unary_op_char(operator.value)],
    {
        match operator.value {
            UnaryOperatorKind::Plus => {
                proof {
                    reveal_strlit("+");
                    assert("+"@ =~= seq!['+']);
                }
                buf.append("+");
            },
            UnaryOperatorKind::Minus => {
                proof {
                    reveal_strlit("-");
                    assert("-"@ =~= seq!['-']);
                }
                buf.append("-");
            },
        }
    }

    /// Append the character of a binary operator to `buf`.
    fn compile_binop(&mut self, operator: &BinaryOperator, buf: &mut String)
        ensures
            final(buf)@ == old(buf)@ + seq![binary_op_char(operator.value)],
    {
        match operator.value {
            BinaryOperatorKind::Add => {
                proof {
                    reveal_strlit("+");
                    assert("+"@ =~= seq!['+']);
                }
                buf.append("+");
            },
            BinaryOperatorKind::Sub => {
                proof {
                    reveal_strlit("-");
                    assert("-"@ =~= seq!['-']);
                }
                buf.append("-");
            },
            BinaryOperatorKind::Multi => {
                proof {
                    reveal_strlit("*");
                    assert("*"@ =~= seq!['*']);
                }
                buf.append("*");
            },
            BinaryOperatorKind::Div => {
                proof {
                    reveal_strlit("/");
                    assert("/"@ =~= seq!['/']);
                }
                buf.append("/");
            },
        }
    }
}

} // verus!
