//! The syntax-tree builder: from an s-expression to an arithmetic
//! expression.

use crate::text::{parse_int, parse_number};
use crate::types::{Expr, ExprView, LpErr, LpErrView, Operator, SExpr, SExprView};
use vstd::prelude::*;

verus! {

/// The one-character text of an operator.
pub open spec fn operator_symbol(op: Operator) -> char {
    match op {
        Operator::Add => '+',
        Operator::Sub => '-',
        Operator::Mul => '*',
        Operator::Div => '/',
    }
}

/// The operator that a text names, if it names one.
pub open spec fn operator_of(text: Seq<char>) -> Option<Operator> {
    if text.len() != 1 {
        None
    } else if text[0] == '+' {
        Some(Operator::Add)
    } else if text[0] == '-' {
        Some(Operator::Sub)
    } else if text[0] == '*' {
        Some(Operator::Mul)
    } else if text[0] == '/' {
        Some(Operator::Div)
    } else {
        None
    }
}

/// The text of an operator names that operator.
pub proof fn theorem_operator_symbol_names(op: Operator)
    ensures
        operator_of(seq![operator_symbol(op)]) == Some(op),
{
}

/// The operator at the head of a list, if the head is an operator symbol.
pub open spec fn head_operator(head: SExprView) -> Option<Operator> {
    match head {
        SExprView::Sym(text) => operator_of(text),
        SExprView::List(_) => None,
    }
}

/// The expression that an s-expression denotes under the grammar
///
/// ```text
/// expr ::= integer | name | (- expr) | (op expr expr)      op ::= + | - | * | /
/// ```
///
/// or the reason why it denotes none. The shape of a list is judged before
/// its operands are, and the operands from left to right.
pub open spec fn build(s: SExprView) -> Result<ExprView, LpErrView>
    decreases s,
{
    match s {
        SExprView::Sym(text) => match parse_int(text) {
            Some(n) => Ok(ExprView::Num(n)),
            None => Ok(ExprView::Var(text)),
        },
        SExprView::List(items) => if items.len() == 0 {
            Err(LpErrView::IR("empty list"@))
        } else if items.len() == 2 {
            if head_operator(items[0]) == Some(Operator::Sub) {
                match build(items[1]) {
                    Ok(operand) => Ok(ExprView::UnaryOp(Operator::Sub, Box::new(operand))),
                    Err(e) => Err(e),
                }
            } else {
                Err(LpErrView::IR("unsupported unary operator"@))
            }
        } else if items.len() == 3 {
            match head_operator(items[0]) {
                Some(op) => match build(items[1]) {
                    Ok(left) => match build(items[2]) {
                        Ok(right) => Ok(ExprView::BinaryOp(Box::new(left), op, Box::new(right))),
                        Err(e) => Err(e),
                    },
                    Err(e) => Err(e),
                },
                None => Err(LpErrView::IR("unsupported operator"@)),
            }
        } else {
            Err(LpErrView::IR("wrong number of operands"@))
        },
    }
}

/// An expression is well formed if its only unary operator is negation.
pub open spec fn well_formed(e: ExprView) -> bool
    decreases e,
{
    match e {
        ExprView::Num(_) => true,
        ExprView::Var(_) => true,
        ExprView::UnaryOp(op, operand) => op == Operator::Sub && well_formed(*operand),
        ExprView::BinaryOp(left, _, right) => well_formed(*left) && well_formed(*right),
    }
}

/// What the builder yields is well formed.
pub proof fn theorem_built_is_well_formed(s: SExprView)
    ensures
        build(s) matches Ok(e) ==> well_formed(e),
    decreases s,
{
    match s {
        SExprView::Sym(_) => {},
        SExprView::List(items) => {
            if items.len() == 2 {
                theorem_built_is_well_formed(items[1]);
            } else if items.len() == 3 {
                theorem_built_is_well_formed(items[1]);
                theorem_built_is_well_formed(items[2]);
            }
        },
    }
}

/// Recognises an operator symbol.
pub fn operator_from(text: &str) -> (r: Option<Operator>)
    ensures
        r == operator_of(text@),
{
    if text.unicode_len() != 1 {
        return None;
    }
    let c = text.get_char(0);
    if c == '+' {
        Some(Operator::Add)
    } else if c == '-' {
        Some(Operator::Sub)
    } else if c == '*' {
        Some(Operator::Mul)
    } else if c == '/' {
        Some(Operator::Div)
    } else {
        None
    }
}

/// The operator at the head of a list, if the head is an operator symbol.
fn head_operator_of(head: &SExpr) -> (r: Option<Operator>)
    ensures
        r == head_operator(head@),
{
    match head {
        SExpr::Sym(text) => operator_from(text.as_str()),
        SExpr::List(_) => None,
    }
}

/// Builds the arithmetic expression that an s-expression denotes.
///
/// Fails with an `IR` failure if the s-expression holds a list that is no
/// negation and no binary operation. The only unary operator of what is
/// built is negation.
pub fn build_ast(sexpr: &SExpr) -> (r: Result<Expr, LpErr>)
    ensures
        match r {
            Ok(e) => build(sexpr@) == Ok::<ExprView, LpErrView>(e@),
            Err(err) => build(sexpr@) == Err::<ExprView, LpErrView>(err@),
        },
        r matches Ok(e) ==> well_formed(e@),
        r matches Err(err) ==> err@ is IR,
    decreases sexpr,
{
    proof {
        theorem_built_is_well_formed(sexpr@);
    }
    match sexpr {
        SExpr::Sym(text) => match parse_number(text.as_str()) {
            Some(n) => Ok(Expr::Num(n)),
            None => Ok(Expr::Var(text.clone())),
        },
        SExpr::List(items) => {
            assert(decreases_to!(*sexpr => sexpr->List_0));
            assert(sexpr@->List_0.len() == items@.len());
            if items.len() == 0 {
                Err(LpErr::IR(String::from_str("empty list")))
            } else if items.len() == 2 {
                assert(sexpr@->List_0[0] == items@[0]@);
                assert(sexpr@->List_0[1] == items@[1]@);
                match head_operator_of(&items[0]) {
                    Some(Operator::Sub) => {
                        assert(decreases_to!(*items => items[1]));
                        match build_ast(&items[1]) {
                            Ok(operand) => Ok(Expr::UnaryOp(Operator::Sub, Box::new(operand))),
                            Err(e) => Err(e),
                        }
                    },
                    _ => Err(LpErr::IR(String::from_str("unsupported unary operator"))),
                }
            } else if items.len() == 3 {
                assert(sexpr@->List_0[0] == items@[0]@);
                assert(sexpr@->List_0[1] == items@[1]@);
                assert(sexpr@->List_0[2] == items@[2]@);
                match head_operator_of(&items[0]) {
                    Some(op) => {
                        assert(decreases_to!(*items => items[1]));
                        assert(decreases_to!(*items => items[2]));
                        match build_ast(&items[1]) {
                            Ok(left) => match build_ast(&items[2]) {
                                Ok(right) => Ok(
                                    Expr::BinaryOp(Box::new(left), op, Box::new(right)),
                                ),
                                Err(e) => Err(e),
                            },
                            Err(e) => Err(e),
                        }
                    },
                    None => Err(LpErr::IR(String::from_str("unsupported operator"))),
                }
            } else {
                Err(LpErr::IR(String::from_str("wrong number of operands")))
            }
        },
    }
}

} // verus!
