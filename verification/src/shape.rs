//! The shape of compiled programs: one `Result`, at the end, and no
//! register read before it is written.

use crate::compiler::{code, operation, program, register, result_index, size};
use crate::types::{ExprView, InstView, Reg};
use vstd::prelude::*;

verus! {

/// The instruction is a `Result`.
pub open spec fn is_result(inst: InstView) -> bool {
    inst is Result
}

/// The instruction writes the register `r`.
pub open spec fn writes(inst: InstView, r: Reg) -> bool {
    match inst {
        InstView::Add(_, b) => r == b,
        InstView::Sub(_, b) => r == b,
        InstView::Mul(_, b) => r == b,
        InstView::Div(_, b) => r == b,
        InstView::Store(_, x) => r == x,
        InstView::Transfer(_, x) => r == x,
        InstView::Result(_) => false,
    }
}

/// The instruction reads the register `r`.
pub open spec fn reads(inst: InstView, r: Reg) -> bool {
    match inst {
        InstView::Add(a, b) => r == a || r == b,
        InstView::Sub(a, b) => r == a || r == b,
        InstView::Mul(a, b) => r == a || r == b,
        InstView::Div(a, b) => r == a || r == b,
        InstView::Store(_, _) => false,
        InstView::Transfer(_, _) => false,
        InstView::Result(x) => r == x,
    }
}

/// One of the first `i` instructions writes the register `r`.
pub open spec fn written_before(code: Seq<InstView>, i: int, r: Reg) -> bool {
    exists|j: int| 0 <= j < i && j < code.len() && #[trigger] writes(code[j], r)
}

/// Every register that an instruction reads is written by an earlier one.
pub open spec fn defined_before_use(code: Seq<InstView>) -> bool {
    forall|i: int, r: Reg|
        0 <= i < code.len() && #[trigger] reads(code[i], r) ==> written_before(code, i, r)
}

/// No instruction is a `Result`.
pub open spec fn straight(code: Seq<InstView>) -> bool {
    forall|i: int| 0 <= i < code.len() ==> !is_result(#[trigger] code[i])
}

/// What is written in the first part of a sequence is written in the
/// whole.
proof fn lemma_written_left(a: Seq<InstView>, b: Seq<InstView>, i: int, r: Reg)
    requires
        written_before(a, i, r),
    ensures
        written_before(a + b, i, r),
{
    let j = choose|j: int| 0 <= j < i && j < a.len() && #[trigger] writes(a[j], r);
    assert(writes((a + b)[j], r));
}

/// What is written in the second part of a sequence is written in the
/// whole, further on.
proof fn lemma_written_right(a: Seq<InstView>, b: Seq<InstView>, i: int, r: Reg)
    requires
        written_before(b, i, r),
    ensures
        written_before(a + b, a.len() + i, r),
{
    let j = choose|j: int| 0 <= j < i && j < b.len() && #[trigger] writes(b[j], r);
    assert(writes((a + b)[a.len() + j], r));
}

/// What is written early is written later too.
proof fn lemma_written_later(code: Seq<InstView>, i: int, k: int, r: Reg)
    requires
        written_before(code, i, r),
        i <= k,
    ensures
        written_before(code, k, r),
{
    let j = choose|j: int| 0 <= j < i && j < code.len() && #[trigger] writes(code[j], r);
    assert(writes(code[j], r));
}

/// Two sequences that read no register before it is written make one.
proof fn lemma_defined_concat(a: Seq<InstView>, b: Seq<InstView>)
    requires
        defined_before_use(a),
        defined_before_use(b),
    ensures
        defined_before_use(a + b),
{
    let all = a + b;
    assert forall|i: int, r: Reg| 0 <= i < all.len() && #[trigger] reads(all[i], r) implies
        written_before(all, i, r) by {
        if i < a.len() {
            assert(reads(a[i], r));
            lemma_written_left(a, b, i, r);
        } else {
            assert(reads(b[i - a.len()], r));
            lemma_written_right(a, b, i - a.len(), r);
        }
    }
}

/// Adding an instruction whose registers have been written.
proof fn lemma_defined_push(a: Seq<InstView>, inst: InstView)
    requires
        defined_before_use(a),
        forall|r: Reg| reads(inst, r) ==> written_before(a, a.len() as int, r),
    ensures
        defined_before_use(a.push(inst)),
{
    let all = a.push(inst);
    assert(all =~= a + seq![inst]);
    assert forall|i: int, r: Reg| 0 <= i < all.len() && #[trigger] reads(all[i], r) implies
        written_before(all, i, r) by {
        if i < a.len() {
            assert(reads(a[i], r));
            lemma_written_left(a, seq![inst], i, r);
        } else {
            lemma_written_left(a, seq![inst], a.len() as int, r);
        }
    }
}

/// The code of an expression holds no `Result`, reads no register before
/// it is written, and writes its result register.
pub proof fn lemma_code_shape(e: ExprView, base: nat)
    ensures
        straight(code(e, base)),
        defined_before_use(code(e, base)),
        written_before(
            code(e, base),
            code(e, base).len() as int,
            register(result_index(e, base)),
        ),
    decreases e,
{
    let c = code(e, base);
    let res = register(result_index(e, base));
    match e {
        ExprView::Num(n) => {
            assert(writes(c[0], res));
        },
        ExprView::Var(name) => {
            assert(writes(c[0], res));
        },
        ExprView::UnaryOp(_, operand) => {
            let x = *operand;
            let cx = code(x, base);
            let rx = register(result_index(x, base));
            let store = InstView::Store(0, res);
            let sub = InstView::Sub(rx, res);
            lemma_code_shape(x, base);
            let stored = cx.push(store);
            lemma_defined_push(cx, store);
            assert(stored =~= cx + seq![store]);
            assert(writes(stored[cx.len() as int], res));
            assert forall|r: Reg| reads(sub, r) implies written_before(
                stored,
                stored.len() as int,
                r,
            ) by {
                if r == rx {
                    lemma_written_left(cx, seq![store], cx.len() as int, rx);
                    lemma_written_later(stored, cx.len() as int, stored.len() as int, rx);
                }
            }
            lemma_defined_push(stored, sub);
            assert(c =~= stored.push(sub));
            assert(writes(c[c.len() - 1], res));
        },
        ExprView::BinaryOp(left, op, right) => {
            let l = *left;
            let r = *right;
            let middle = base + size(l);
            let cl = code(l, base);
            let cr = code(r, middle);
            let rl = register(result_index(l, base));
            let rr = register(result_index(r, middle));
            let last = operation(op, rl, rr);
            lemma_code_shape(l, base);
            lemma_code_shape(r, middle);
            let both = cl + cr;
            lemma_defined_concat(cl, cr);
            lemma_written_left(cl, cr, cl.len() as int, rl);
            lemma_written_later(both, cl.len() as int, both.len() as int, rl);
            lemma_written_right(cl, cr, cr.len() as int, rr);
            assert forall|x: Reg| reads(last, x) implies written_before(
                both,
                both.len() as int,
                x,
            ) by {
                assert(x == rl || x == rr);
            }
            lemma_defined_push(both, last);
            assert(c =~= both.push(last));
            assert(writes(c[c.len() - 1], res));
            assert forall|i: int| 0 <= i < c.len() implies !is_result(#[trigger] c[i]) by {
                if i < cl.len() {
                    assert(c[i] == cl[i]);
                } else if i < both.len() {
                    assert(c[i] == cr[i - cl.len()]);
                }
            }
        },
    }
}

/// The shape of a compiled program. The program of an expression ends
/// with a `Result`, which is its only one, and every register that one of
/// its instructions reads has been written by an earlier instruction.
pub proof fn theorem_program_shape(e: ExprView)
    ensures
        program(e).len() >= 2,
        is_result(program(e).last()),
        straight(program(e).drop_last()),
        defined_before_use(program(e)),
{
    let c = code(e, 0);
    let res = register(result_index(e, 0));
    lemma_code_shape(e, 0);
    assert(program(e).drop_last() =~= c);
    lemma_defined_push(c, InstView::Result(res));
}

} // verus!
