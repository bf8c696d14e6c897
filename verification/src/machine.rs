//! The register machine: the meaning of instruction sequences, and the
//! interpreter that executes them.

use crate::env::Env;
use crate::eval::{apply, apply_operator};
use crate::types::{views, Inst, InstView, LpErr, Operator, Reg};
use std::collections::HashMap;
use vstd::prelude::*;

verus! {

broadcast use vstd::std_specs::hash::group_hash_axioms;

/// What an arithmetic instruction computes from the value `x` of its first
/// register and the value `y` of its second: `y + x`, `y - x`, `y * x` or
/// `y / x`. The second register is the one that is changed, so it stands
/// on the left.
pub open spec fn combine(op: Operator, x: i32, y: i32) -> Result<i32, Seq<char>> {
    apply(op, y, x)
}

/// The registers after an arithmetic instruction on the registers `a` and
/// `b`: the result replaces the value of `b`.
pub open spec fn arithmetic(regs: Map<Reg, i32>, op: Operator, a: Reg, b: Reg) -> Result<
    Map<Reg, i32>,
    Seq<char>,
> {
    if !regs.contains_key(a) || !regs.contains_key(b) {
        Err("unset register"@)
    } else {
        match combine(op, regs[a], regs[b]) {
            Ok(v) => Ok(regs.insert(b, v)),
            Err(m) => Err(m),
        }
    }
}

/// The registers after one instruction that is not `Result`.
pub open spec fn step(regs: Map<Reg, i32>, inst: InstView, env: Map<Seq<char>, i32>) -> Result<
    Map<Reg, i32>,
    Seq<char>,
> {
    match inst {
        InstView::Add(a, b) => arithmetic(regs, Operator::Add, a, b),
        InstView::Sub(a, b) => arithmetic(regs, Operator::Sub, a, b),
        InstView::Mul(a, b) => arithmetic(regs, Operator::Mul, a, b),
        InstView::Div(a, b) => arithmetic(regs, Operator::Div, a, b),
        InstView::Store(n, r) => Ok(regs.insert(r, n)),
        InstView::Transfer(name, r) => if env.contains_key(name) {
            Ok(regs.insert(r, env[name]))
        } else {
            Err("unbound variable"@)
        },
        InstView::Result(_) => Ok(regs),
    }
}

/// What the machine yields when it executes `code` in order, starting with
/// the registers `regs`: the value of the register that the first `Result`
/// it reaches names, or the message of the first failure. What follows that
/// `Result` is not executed; code that ends without one fails.
pub open spec fn run(code: Seq<InstView>, regs: Map<Reg, i32>, env: Map<Seq<char>, i32>) -> Result<
    i32,
    Seq<char>,
>
    decreases code.len(),
{
    if code.len() == 0 {
        Err("no result"@)
    } else {
        match code[0] {
            InstView::Result(r) => if regs.contains_key(r) {
                Ok(regs[r])
            } else {
                Err("unset register"@)
            },
            inst => match step(regs, inst, env) {
                Ok(next) => run(code.drop_first(), next, env),
                Err(m) => Err(m),
            },
        }
    }
}

/// What the machine yields for `code` when it starts with no register set.
pub open spec fn execute(code: Seq<InstView>, env: Map<Seq<char>, i32>) -> Result<i32, Seq<char>> {
    run(code, Map::empty(), env)
}

/// The number that stands for a register in the register file.
pub open spec fn code_point(r: Reg) -> u32 {
    r as u32
}

/// Different registers have different numbers.
proof fn lemma_code_point_injective(c: Reg, d: Reg)
    requires
        code_point(c) == code_point(d),
    ensures
        c == d,
{
}

/// The register file: the registers that have been written, by code point.
struct Registers {
    cells: HashMap<u32, i32>,
}

impl View for Registers {
    type V = Map<Reg, i32>;

    closed spec fn view(&self) -> Map<Reg, i32> {
        Map::new(
            |r: Reg| self.cells@.contains_key(code_point(r)),
            |r: Reg| self.cells@[code_point(r)],
        )
    }
}

impl Registers {
    fn new() -> (regs: Registers)
        ensures
            regs@ == Map::<Reg, i32>::empty(),
    {
        let regs = Registers { cells: HashMap::new() };
        assert(regs@ =~= Map::<Reg, i32>::empty());
        regs
    }

    fn get(&self, r: Reg) -> (v: Option<i32>)
        ensures
            v == if self@.contains_key(r) {
                Some(self@[r])
            } else {
                None
            },
    {
        match self.cells.get(&(r as u32)) {
            Some(v) => Some(*v),
            None => None,
        }
    }

    fn set(&mut self, r: Reg, v: i32)
        ensures
            final(self)@ == old(self)@.insert(r, v),
    {
        self.cells.insert(r as u32, v);
        assert forall|c: Reg| #[trigger]
            self@.contains_key(c) == old(self)@.insert(r, v).contains_key(c) && (self@.contains_key(
                c,
            ) ==> self@[c] == old(self)@.insert(r, v)[c]) by {
            if code_point(c) == code_point(r) {
                lemma_code_point_injective(c, r);
            }
        }
        assert(self@ =~= old(self)@.insert(r, v));
    }
}

/// Executes an arithmetic instruction.
fn arithmetic_step(regs: &mut Registers, op: Operator, a: Reg, b: Reg) -> (r: Result<(), String>)
    ensures
        match r {
            Ok(_) => arithmetic(old(regs)@, op, a, b) == Ok::<Map<Reg, i32>, Seq<char>>(
                final(regs)@,
            ),
            Err(m) => arithmetic(old(regs)@, op, a, b) == Err::<Map<Reg, i32>, Seq<char>>(m@),
        },
{
    let x = match regs.get(a) {
        Some(x) => x,
        None => {
            return Err(String::from_str("unset register"));
        },
    };
    let y = match regs.get(b) {
        Some(y) => y,
        None => {
            return Err(String::from_str("unset register"));
        },
    };
    match apply_operator(op, y, x) {
        Ok(v) => {
            regs.set(b, v);
            Ok(())
        },
        Err(m) => Err(m),
    }
}

/// Executes an instruction that is not `Result`.
fn step_machine(regs: &mut Registers, inst: &Inst, env: &Env) -> (r: Result<(), String>)
    requires
        !(inst@ is Result),
    ensures
        match r {
            Ok(_) => step(old(regs)@, inst@, env@) == Ok::<Map<Reg, i32>, Seq<char>>(final(regs)@),
            Err(m) => step(old(regs)@, inst@, env@) == Err::<Map<Reg, i32>, Seq<char>>(m@),
        },
{
    match inst {
        Inst::Add(a, b) => arithmetic_step(regs, Operator::Add, *a, *b),
        Inst::Sub(a, b) => arithmetic_step(regs, Operator::Sub, *a, *b),
        Inst::Mul(a, b) => arithmetic_step(regs, Operator::Mul, *a, *b),
        Inst::Div(a, b) => arithmetic_step(regs, Operator::Div, *a, *b),
        Inst::Store(n, r) => {
            regs.set(*r, *n);
            Ok(())
        },
        Inst::Transfer(name, r) => match env.get(name.as_str()) {
            Some(v) => {
                regs.set(*r, v);
                Ok(())
            },
            None => Err(String::from_str("unbound variable")),
        },
        Inst::Result(_) => Ok(()),
    }
}

/// Executes an instruction sequence on the register machine.
///
/// Fails with a `Runtime` error if a variable is unbound, a register is
/// read before it is written, a divisor is zero, a result does not fit in
/// 32 bits, or the code ends without a `Result`.
pub fn interpret_insts(insts: &[Inst], env: &Env) -> (r: Result<i32, LpErr>)
    ensures
        r matches Ok(v) ==> execute(views(insts@), env@) == Ok::<i32, Seq<char>>(v),
        r matches Err(err) ==> err@ is Runtime && execute(views(insts@), env@) == Err::<
            i32,
            Seq<char>,
        >(err@->Runtime_0),
{
    let ghost code = views(insts@);
    let mut regs = Registers::new();
    let mut i: usize = 0;
    assert(code.skip(0) =~= code);
    while i < insts.len()
        invariant
            i <= insts.len(),
            code == views(insts@),
            run(code.skip(i as int), regs@, env@) == execute(code, env@),
        decreases insts.len() - i,
    {
        proof {
            let here = code.skip(i as int);
            assert(here[0] == insts@[i as int]@);
            assert(here.drop_first() =~= code.skip(i + 1));
        }
        match &insts[i] {
            Inst::Result(r) => {
                return match regs.get(*r) {
                    Some(v) => Ok(v),
                    None => Err(LpErr::Runtime(String::from_str("unset register"))),
                };
            },
            inst => {
                match step_machine(&mut regs, inst, env) {
                    Ok(_) => {},
                    Err(m) => {
                        return Err(LpErr::Runtime(m));
                    },
                }
            },
        }
        i += 1;
    }
    Err(LpErr::Runtime(String::from_str("no result")))
}

} // verus!
