//! The compiler: from an arithmetic expression to instructions for the
//! register machine.

use crate::ast::well_formed;
use crate::equivalence::theorem_compiler_correct;
use crate::eval::eval;
use crate::machine::execute;
use crate::shape::{defined_before_use, is_result, straight, theorem_program_shape};
use crate::types::{views, Expr, ExprView, Inst, InstView, LpErr, LpErrView, Operator, Reg};
use vstd::prelude::*;

verus! {

/// The number of registers of the machine: `a` to `z`.
pub const REGISTER_COUNT: u8 = 26;

/// The name of the register with the given number: `a` for 0, `b` for 1,
/// and so on.
pub open spec fn register(i: nat) -> Reg {
    (i + 'a' as int) as char
}

/// The number of registers that the code of an expression uses: one for
/// each literal, variable and negation. No register is used twice.
pub open spec fn size(e: ExprView) -> nat
    decreases e,
{
    match e {
        ExprView::Num(_) => 1,
        ExprView::Var(_) => 1,
        ExprView::UnaryOp(_, operand) => size(*operand) + 1,
        ExprView::BinaryOp(left, _, right) => size(*left) + size(*right),
    }
}

/// Whether the order of the operands matters. An arithmetic instruction
/// changes its second register, which stands on the left of the operation:
/// `Sub(a, b)` subtracts `a` from `b`. So where the order matters, the
/// left operand has to be in the second register.
pub open spec fn ordered(op: Operator) -> bool {
    op == Operator::Sub || op == Operator::Div
}

/// The number of the register that holds the value of `e` after
/// `code(e, base)` has run.
pub open spec fn result_index(e: ExprView, base: nat) -> nat
    decreases e,
{
    match e {
        ExprView::Num(_) => base,
        ExprView::Var(_) => base,
        ExprView::UnaryOp(_, operand) => base + size(*operand),
        ExprView::BinaryOp(left, op, right) => if ordered(op) {
            result_index(*left, base)
        } else {
            result_index(*right, base + size(*left))
        },
    }
}

/// The instruction that leaves `l op r` in one of the two registers, where
/// `rl` holds `l` and `rr` holds `r`: a sum or a product is left in `rr`, a
/// difference or a quotient in `rl`.
pub open spec fn operation(op: Operator, rl: Reg, rr: Reg) -> InstView {
    match op {
        Operator::Add => InstView::Add(rl, rr),
        Operator::Sub => InstView::Sub(rr, rl),
        Operator::Mul => InstView::Mul(rl, rr),
        Operator::Div => InstView::Div(rr, rl),
    }
}

/// The instructions that compute `e` with the registers numbered from
/// `base` upward: the code of the left operand, then that of the right one,
/// then the operation; for a negation, the code of the operand, a zero in a
/// fresh register, and the subtraction of the operand from it.
pub open spec fn code(e: ExprView, base: nat) -> Seq<InstView>
    decreases e,
{
    match e {
        ExprView::Num(n) => seq![InstView::Store(n, register(base))],
        ExprView::Var(name) => seq![InstView::Transfer(name, register(base))],
        ExprView::UnaryOp(_, operand) => {
            let zero = register(base + size(*operand));
            code(*operand, base) + seq![
                InstView::Store(0, zero),
                InstView::Sub(register(result_index(*operand, base)), zero),
            ]
        },
        ExprView::BinaryOp(left, op, right) => {
            let middle = base + size(*left);
            code(*left, base) + code(*right, middle) + seq![
                operation(
                    op,
                    register(result_index(*left, base)),
                    register(result_index(*right, middle)),
                ),
            ]
        },
    }
}

/// The whole program of an expression: its code, and the `Result`
/// instruction that names the register with its value.
pub open spec fn program(e: ExprView) -> Seq<InstView> {
    code(e, 0).push(InstView::Result(register(result_index(e, 0))))
}

/// The program of an expression, or the reason why it has none: a unary
/// operator other than negation, or more registers than the machine has.
pub open spec fn compiled(e: ExprView) -> Result<Seq<InstView>, LpErrView> {
    if !well_formed(e) {
        Err(LpErrView::Compile("unsupported unary operator"@))
    } else if size(e) > REGISTER_COUNT {
        Err(LpErrView::Compile("out of registers"@))
    } else {
        Ok(program(e))
    }
}

/// Tells whether the only unary operator of an expression is negation.
fn is_well_formed(expr: &Expr) -> (ok: bool)
    ensures
        ok == well_formed(expr@),
    decreases expr,
{
    match expr {
        Expr::Num(_) => true,
        Expr::Var(_) => true,
        Expr::UnaryOp(op, operand) => {
            match op {
                Operator::Sub => is_well_formed(operand),
                _ => false,
            }
        },
        Expr::BinaryOp(left, _, right) => is_well_formed(left) && is_well_formed(right),
    }
}

/// The name of the register with the given number.
fn register_name(i: u8) -> (r: Reg)
    requires
        i < REGISTER_COUNT,
    ensures
        r == register(i as nat),
{
    (97u8 + i) as char
}

/// The instruction for `l op r`, where `rl` holds `l` and `rr` holds `r`.
fn operation_for(op: Operator, rl: Reg, rr: Reg) -> (inst: Inst)
    ensures
        inst@ == operation(op, rl, rr),
{
    match op {
        Operator::Add => Inst::Add(rl, rr),
        Operator::Sub => Inst::Sub(rr, rl),
        Operator::Mul => Inst::Mul(rl, rr),
        Operator::Div => Inst::Div(rr, rl),
    }
}

/// Appends one instruction.
fn push_inst(out: &mut Vec<Inst>, inst: Inst)
    ensures
        views(final(out)@) == views(old(out)@).push(inst@),
{
    out.push(inst);
    assert(views(out@) =~= views(old(out)@).push(inst@));
}

/// Appends the code of `expr` to `out`, with the registers numbered from
/// `next` upward. Returns the number of the register with the result and
/// the number of the next unused register, or nothing if the registers do
/// not suffice.
fn emit(expr: &Expr, out: &mut Vec<Inst>, next: u8) -> (r: Option<(u8, u8)>)
    requires
        well_formed(expr@),
        next <= REGISTER_COUNT,
    ensures
        match r {
            Some((result, after)) => {
                &&& after == next + size(expr@)
                &&& after <= REGISTER_COUNT
                &&& result == result_index(expr@, next as nat)
                &&& next <= result < after
                &&& views(final(out)@) == views(old(out)@) + code(expr@, next as nat)
            },
            None => next + size(expr@) > REGISTER_COUNT,
        },
    decreases expr,
{
    match expr {
        Expr::Num(n) => {
            if next >= REGISTER_COUNT {
                return None;
            }
            push_inst(out, Inst::Store(*n, register_name(next)));
            assert(views(out@) =~= views(old(out)@) + code(expr@, next as nat));
            Some((next, next + 1))
        },
        Expr::Var(name) => {
            if next >= REGISTER_COUNT {
                return None;
            }
            push_inst(out, Inst::Transfer(name.clone(), register_name(next)));
            assert(views(out@) =~= views(old(out)@) + code(expr@, next as nat));
            Some((next, next + 1))
        },
        Expr::UnaryOp(_, operand) => {
            let (value, zero) = match emit(operand, out, next) {
                Some(pair) => pair,
                None => {
                    return None;
                },
            };
            if zero >= REGISTER_COUNT {
                return None;
            }
            push_inst(out, Inst::Store(0, register_name(zero)));
            push_inst(out, Inst::Sub(register_name(value), register_name(zero)));
            assert(views(out@) =~= views(old(out)@) + code(expr@, next as nat));
            Some((zero, zero + 1))
        },
        Expr::BinaryOp(left, op, right) => {
            let (rl, middle) = match emit(left, out, next) {
                Some(pair) => pair,
                None => {
                    return None;
                },
            };
            let (rr, after) = match emit(right, out, middle) {
                Some(pair) => pair,
                None => {
                    return None;
                },
            };
            push_inst(out, operation_for(*op, register_name(rl), register_name(rr)));
            assert(views(out@) =~= views(old(out)@) + code(expr@, next as nat));
            let result = match op {
                Operator::Sub => rl,
                Operator::Div => rl,
                _ => rr,
            };
            Some((result, after))
        },
    }
}

/// Compiles an expression to the instruction sequence that computes it.
///
/// Fails with a `Compile` error if the expression holds a unary operator
/// other than `-`, or if it needs more registers than the machine has.
/// The program ends with a `Result`, which is its only one, and reads no
/// register before it has written it. Under every environment the machine
/// yields on it what the expression evaluates to, value or failure.
pub fn compile(expr: &Expr) -> (r: Result<Vec<Inst>, LpErr>)
    ensures
        match r {
            Ok(insts) => compiled(expr@) == Ok::<Seq<InstView>, LpErrView>(views(insts@)),
            Err(err) => compiled(expr@) == Err::<Seq<InstView>, LpErrView>(err@),
        },
        r matches Ok(insts) ==> {
            &&& insts.len() >= 2
            &&& is_result(insts@.last()@)
            &&& straight(views(insts@).drop_last())
            &&& defined_before_use(views(insts@))
        },
        r matches Ok(insts) ==> forall|env: Map<Seq<char>, i32>|
            #[trigger] execute(views(insts@), env) == eval(expr@, env),
{
    if !is_well_formed(expr) {
        return Err(LpErr::Compile(String::from_str("unsupported unary operator")));
    }
    let mut insts: Vec<Inst> = Vec::new();
    match emit(expr, &mut insts, 0) {
        Some((result, _)) => {
            push_inst(&mut insts, Inst::Result(register_name(result)));
            assert(views(insts@) =~= program(expr@));
            proof {
                theorem_program_shape(expr@);
                assert(views(insts@).last() == insts@.last()@);
                assert forall|env: Map<Seq<char>, i32>| #[trigger]
                    execute(views(insts@), env) == eval(expr@, env) by {
                    theorem_compiler_correct(expr@, env);
                }
            }
            Ok(insts)
        },
        None => Err(LpErr::Compile(String::from_str("out of registers"))),
    }
}

} // verus!
