//! The compiler is correct: the machine, run on the program of an
//! expression, yields what the expression means.

use crate::ast::well_formed;
use crate::compiler::{
    code, operation, ordered, program, register, result_index, size, REGISTER_COUNT,
};
use crate::eval::{apply, eval};
use crate::machine::{arithmetic, combine, execute, run, step};
use crate::types::{ExprView, InstView, Operator, Reg};
use vstd::prelude::*;

verus! {

/// The registers numbered below `base` that were set before are set to the
/// same values after.
pub open spec fn preserved_below(before: Map<Reg, i32>, after: Map<Reg, i32>, base: nat) -> bool {
    forall|j: nat|
        j < base && before.contains_key(#[trigger] register(j)) ==> after.contains_key(register(j))
            && after[register(j)] == before[register(j)]
}

/// Different numbers name different registers.
pub proof fn lemma_register_injective(i: nat, j: nat)
    requires
        i < REGISTER_COUNT,
        j < REGISTER_COUNT,
        register(i) == register(j),
    ensures
        i == j,
{
    assert(register(i) as int == i + 97);
    assert(register(j) as int == j + 97);
}

/// The code of an expression leaves its value in one of the registers that
/// it uses, and it uses at least one.
pub proof fn lemma_result_index_bounds(e: ExprView, base: nat)
    ensures
        base <= result_index(e, base) < base + size(e),
    decreases e,
{
    match e {
        ExprView::Num(_) => {},
        ExprView::Var(_) => {},
        ExprView::UnaryOp(_, operand) => {
            lemma_result_index_bounds(*operand, base);
        },
        ExprView::BinaryOp(left, _, right) => {
            lemma_result_index_bounds(*left, base);
            lemma_result_index_bounds(*right, base + size(*left));
        },
    }
}

/// Running an instruction that is not `Result`, and then the rest.
proof fn lemma_run_step(inst: InstView, rest: Seq<InstView>, regs: Map<Reg, i32>, env: Map<Seq<char>, i32>)
    requires
        !(inst is Result),
    ensures
        run(seq![inst] + rest, regs, env) == match step(regs, inst, env) {
            Ok(next) => run(rest, next, env),
            Err(m) => Err(m),
        },
{
    let all = seq![inst] + rest;
    assert(all[0] == inst);
    assert(all.drop_first() =~= rest);
}

/// The machine simulates the evaluation of an expression: run from any
/// registers, the code of `e` either fails as the evaluation of `e` does,
/// or goes on with the rest of the code from registers, returned here, that
/// hold the value of `e` in its result register and that agree with the
/// first ones below `base`.
pub proof fn lemma_code_simulates(
    e: ExprView,
    base: nat,
    regs: Map<Reg, i32>,
    env: Map<Seq<char>, i32>,
    rest: Seq<InstView>,
) -> (after: Map<Reg, i32>)
    requires
        well_formed(e),
        base + size(e) <= REGISTER_COUNT,
    ensures
        match eval(e, env) {
            Ok(v) => {
                &&& run(code(e, base) + rest, regs, env) == run(rest, after, env)
                &&& after.contains_key(register(result_index(e, base)))
                &&& after[register(result_index(e, base))] == v
                &&& preserved_below(regs, after, base)
            },
            Err(m) => run(code(e, base) + rest, regs, env) == Err::<i32, Seq<char>>(m),
        },
    decreases e,
{
    match e {
        ExprView::Num(n) => {
            let r = register(base);
            lemma_run_step(InstView::Store(n, r), rest, regs, env);
            let after = regs.insert(r, n);
            assert forall|j: nat| j < base && regs.contains_key(#[trigger] register(j)) implies
                after.contains_key(register(j)) && after[register(j)] == regs[register(j)] by {
                if register(j) == r {
                    lemma_register_injective(j, base);
                }
            }
            after
        },
        ExprView::Var(name) => {
            let r = register(base);
            lemma_run_step(InstView::Transfer(name, r), rest, regs, env);
            if env.contains_key(name) {
                let after = regs.insert(r, env[name]);
                assert forall|j: nat| j < base && regs.contains_key(#[trigger] register(j)) implies
                    after.contains_key(register(j)) && after[register(j)] == regs[register(j)] by {
                    if register(j) == r {
                        lemma_register_injective(j, base);
                    }
                }
                after
            } else {
                regs
            }
        },
        ExprView::UnaryOp(_, operand) => {
            let x = *operand;
            let zi = base + size(x);
            let z = register(zi);
            let rx = register(result_index(x, base));
            let store = InstView::Store(0, z);
            let sub = InstView::Sub(rx, z);
            let tail = seq![store] + (seq![sub] + rest);
            assert(code(e, base) + rest =~= code(x, base) + tail);
            lemma_result_index_bounds(x, base);
            let after_x = lemma_code_simulates(x, base, regs, env, tail);
            match eval(x, env) {
                Ok(v) => {
                    lemma_run_step(store, seq![sub] + rest, after_x, env);
                    let zeroed = after_x.insert(z, 0);
                    lemma_run_step(sub, rest, zeroed, env);
                    if rx == z {
                        lemma_register_injective(result_index(x, base), zi);
                    }
                    assert(zeroed[rx] == v);
                    assert(combine(Operator::Sub, v, 0) == apply(Operator::Sub, 0, v));
                    match apply(Operator::Sub, 0, v) {
                        Ok(w) => {
                            let after = zeroed.insert(z, w);
                            assert(arithmetic(zeroed, Operator::Sub, rx, z) == Ok::<
                                Map<Reg, i32>,
                                Seq<char>,
                            >(after));
                            assert forall|j: nat|
                                j < base && regs.contains_key(#[trigger] register(j)) implies
                                after.contains_key(register(j)) && after[register(j)]
                                    == regs[register(j)] by {
                                if register(j) == z {
                                    lemma_register_injective(j, zi);
                                }
                            }
                            after
                        },
                        Err(_) => regs,
                    }
                },
                Err(_) => regs,
            }
        },
        ExprView::BinaryOp(left, op, right) => {
            let l = *left;
            let r = *right;
            let middle = base + size(l);
            let li = result_index(l, base);
            let ri = result_index(r, middle);
            let rl = register(li);
            let rr = register(ri);
            let last = operation(op, rl, rr);
            let tail_r = seq![last] + rest;
            let tail_l = code(r, middle) + tail_r;
            assert(code(e, base) + rest =~= code(l, base) + tail_l);
            lemma_result_index_bounds(l, base);
            lemma_result_index_bounds(r, middle);
            let after_l = lemma_code_simulates(l, base, regs, env, tail_l);
            match eval(l, env) {
                Ok(a) => {
                    let after_r = lemma_code_simulates(r, middle, after_l, env, tail_r);
                    match eval(r, env) {
                        Ok(b) => {
                            lemma_run_step(last, rest, after_r, env);
                            if rl == rr {
                                lemma_register_injective(li, ri);
                            }
                            assert(after_l.contains_key(register(li)));
                            assert(after_r.contains_key(rl) && after_r[rl] == a);
                            assert(after_r.contains_key(rr) && after_r[rr] == b);
                            let target = if ordered(op) {
                                rl
                            } else {
                                rr
                            };
                            let ti = if ordered(op) {
                                li
                            } else {
                                ri
                            };
                            match apply(op, a, b) {
                                Ok(w) => {
                                    let after = after_r.insert(target, w);
                                    assert(step(after_r, last, env) == Ok::<
                                        Map<Reg, i32>,
                                        Seq<char>,
                                    >(after));
                                    assert forall|j: nat|
                                        j < base && regs.contains_key(
                                            #[trigger] register(j),
                                        ) implies after.contains_key(register(j))
                                        && after[register(j)] == regs[register(j)] by {
                                        assert(after_l.contains_key(register(j)));
                                        assert(after_r.contains_key(register(j)));
                                        if register(j) == target {
                                            lemma_register_injective(j, ti);
                                        }
                                    }
                                    after
                                },
                                Err(m) => {
                                    assert(step(after_r, last, env) == Err::<
                                        Map<Reg, i32>,
                                        Seq<char>,
                                    >(m));
                                    regs
                                },
                            }
                        },
                        Err(_) => regs,
                    }
                },
                Err(_) => regs,
            }
        },
    }
}

/// Compiling and running agrees with evaluating. For every well-formed
/// expression that the machine has registers for, and every environment,
/// the machine yields on the program of the expression the value that the
/// expression has, or fails with the message that its evaluation fails
/// with.
pub proof fn theorem_compiler_correct(e: ExprView, env: Map<Seq<char>, i32>)
    requires
        well_formed(e),
        size(e) <= REGISTER_COUNT,
    ensures
        execute(program(e), env) == eval(e, env),
{
    let result = InstView::Result(register(result_index(e, 0)));
    let rest = seq![result];
    assert(program(e) =~= code(e, 0) + rest);
    let _ = lemma_code_simulates(e, 0, Map::empty(), env, rest);
    assert(rest[0] == result);
}

/// A division by zero fails on both paths, with the same message: where the
/// divisor of a quotient evaluates to zero, and the dividend evaluates at
/// all, neither the tree interpreter nor the machine yields a value.
pub proof fn theorem_division_by_zero(left: ExprView, right: ExprView, env: Map<Seq<char>, i32>)
    requires
        well_formed(left),
        well_formed(right),
        size(left) + size(right) <= REGISTER_COUNT,
        eval(left, env) is Ok,
        eval(right, env) == Ok::<i32, Seq<char>>(0),
    ensures
        ({
            let e = ExprView::BinaryOp(Box::new(left), Operator::Div, Box::new(right));
            &&& eval(e, env) == Err::<i32, Seq<char>>("division by zero"@)
            &&& execute(program(e), env) == Err::<i32, Seq<char>>("division by zero"@)
        }),
{
    let e = ExprView::BinaryOp(Box::new(left), Operator::Div, Box::new(right));
    theorem_compiler_correct(e, env);
}

/// A variable that the environment does not bind fails on both paths, with
/// the same message.
pub proof fn theorem_unbound_variable(name: Seq<char>, env: Map<Seq<char>, i32>)
    requires
        !env.contains_key(name),
    ensures
        eval(ExprView::Var(name), env) == Err::<i32, Seq<char>>("unbound variable"@),
        execute(program(ExprView::Var(name)), env) == Err::<i32, Seq<char>>("unbound variable"@),
{
    theorem_compiler_correct(ExprView::Var(name), env);
}

} // verus!
