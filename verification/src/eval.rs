//! The meaning of expressions, and the interpreter that walks the tree.

use crate::env::Env;
use crate::types::{Expr, ExprView, LpErr, Operator};
use vstd::prelude::*;

verus! {

/// Division of integers that rounds toward zero.
pub open spec fn quotient(a: int, b: int) -> int {
    if a >= 0 && b > 0 {
        a / b
    } else if a >= 0 {
        -(a / (-b))
    } else if b > 0 {
        -((-a) / b)
    } else {
        (-a) / (-b)
    }
}

/// The 32-bit integer `v`, or a failure if `v` is not one.
pub open spec fn fit(v: int) -> Result<i32, Seq<char>> {
    if i32::MIN <= v <= i32::MAX {
        Ok(v as i32)
    } else {
        Err("integer overflow"@)
    }
}

/// The value of `a op b` in 32-bit arithmetic, or the reason why it has
/// none: the divisor is zero, or the exact result does not fit.
pub open spec fn apply(op: Operator, a: i32, b: i32) -> Result<i32, Seq<char>> {
    match op {
        Operator::Add => fit(a + b),
        Operator::Sub => fit(a - b),
        Operator::Mul => fit(a * b),
        Operator::Div => if b == 0 {
            Err("division by zero"@)
        } else {
            fit(quotient(a as int, b as int))
        },
    }
}

/// The value of an expression under an environment, or the message of the
/// first failure met when the operands are evaluated from left to right.
/// The only unary operator is negation, which is zero minus the operand.
pub open spec fn eval(e: ExprView, env: Map<Seq<char>, i32>) -> Result<i32, Seq<char>>
    decreases e,
{
    match e {
        ExprView::Num(n) => Ok(n),
        ExprView::Var(name) => if env.contains_key(name) {
            Ok(env[name])
        } else {
            Err("unbound variable"@)
        },
        ExprView::UnaryOp(op, operand) => if op != Operator::Sub {
            Err("unsupported unary operator"@)
        } else {
            match eval(*operand, env) {
                Ok(v) => apply(Operator::Sub, 0, v),
                Err(m) => Err(m),
            }
        },
        ExprView::BinaryOp(left, op, right) => match eval(*left, env) {
            Ok(a) => match eval(*right, env) {
                Ok(b) => apply(op, a, b),
                Err(m) => Err(m),
            },
            Err(m) => Err(m),
        },
    }
}

/// Computes `a op b`.
pub fn apply_operator(op: Operator, a: i32, b: i32) -> (r: Result<i32, String>)
    ensures
        match r {
            Ok(v) => apply(op, a, b) == Ok::<i32, Seq<char>>(v),
            Err(m) => apply(op, a, b) == Err::<i32, Seq<char>>(m@),
        },
{
    let exact = match op {
        Operator::Add => a.checked_add(b),
        Operator::Sub => a.checked_sub(b),
        Operator::Mul => a.checked_mul(b),
        Operator::Div => {
            if b == 0 {
                return Err(String::from_str("division by zero"));
            }
            a.checked_div(b)
        },
    };
    match exact {
        Some(v) => Ok(v),
        None => Err(String::from_str("integer overflow")),
    }
}

/// The message of the first failure, or the value.
fn eval_tree(expr: &Expr, env: &Env) -> (r: Result<i32, String>)
    ensures
        match r {
            Ok(v) => eval(expr@, env@) == Ok::<i32, Seq<char>>(v),
            Err(m) => eval(expr@, env@) == Err::<i32, Seq<char>>(m@),
        },
    decreases expr,
{
    match expr {
        Expr::Num(n) => Ok(*n),
        Expr::Var(name) => match env.get(name.as_str()) {
            Some(v) => Ok(v),
            None => Err(String::from_str("unbound variable")),
        },
        Expr::UnaryOp(op, operand) => {
            match op {
                Operator::Sub => {},
                _ => {
                    return Err(String::from_str("unsupported unary operator"));
                },
            }
            match eval_tree(operand, env) {
                Ok(v) => apply_operator(Operator::Sub, 0, v),
                Err(m) => Err(m),
            }
        },
        Expr::BinaryOp(left, op, right) => match eval_tree(left, env) {
            Ok(a) => match eval_tree(right, env) {
                Ok(b) => apply_operator(*op, a, b),
                Err(m) => Err(m),
            },
            Err(m) => Err(m),
        },
    }
}

/// Evaluates an expression by walking its tree.
///
/// Fails with an `Interpret` error if a variable is unbound, a divisor is
/// zero, a result does not fit in 32 bits, or a unary operator is not `-`.
pub fn interpret_tree(expr: &Expr, env: &Env) -> (r: Result<i32, LpErr>)
    ensures
        r matches Ok(v) ==> eval(expr@, env@) == Ok::<i32, Seq<char>>(v),
        r matches Err(err) ==> err@ is Interpret && eval(expr@, env@) == Err::<i32, Seq<char>>(
            err@->Interpret_0,
        ),
{
    match eval_tree(expr, env) {
        Ok(v) => Ok(v),
        Err(m) => Err(LpErr::Interpret(m)),
    }
}

} // verus!
