//! The text of s-expressions, operators, instructions and failures.

use crate::ast::operator_symbol;
use crate::lexer::lex;
use crate::reader::read;
use crate::roundtrip::{printable, theorem_print_then_read};
use crate::text::{append_decimal, decimal, push_char};
use crate::types::{Inst, InstView, LpErr, LpErrView, Operator, Reg, SExpr, SExprView};
use vstd::prelude::*;

verus! {

/// The text of an s-expression: a symbol as it is, a list as its items
/// between parentheses, with one space between two items.
pub open spec fn text(e: SExprView) -> Seq<char>
    decreases e, 0nat,
{
    match e {
        SExprView::Sym(s) => s,
        SExprView::List(items) => seq!['('] + joined(items, items.len()) + seq![')'],
    }
}

/// The texts of the first `n` items, with one space between two of them.
pub open spec fn joined(items: Seq<SExprView>, n: nat) -> Seq<char>
    decreases items, n,
{
    if n == 0 || n > items.len() {
        Seq::empty()
    } else if n == 1 {
        text(items[0])
    } else {
        joined(items, (n - 1) as nat) + seq![' '] + text(items[n - 1])
    }
}

/// The text of an instruction: a sentence that says what it does.
pub open spec fn inst_text(inst: InstView) -> Seq<char> {
    match inst {
        InstView::Add(a, b) => "add register "@.push(a) + " to register "@.push(b),
        InstView::Sub(a, b) => "subtract register "@.push(a) + " from register "@.push(b),
        InstView::Mul(a, b) => "multiply register "@.push(a) + " by register "@.push(b),
        InstView::Div(a, b) => "divide register "@.push(a) + " by register "@.push(b),
        InstView::Store(n, r) => "store the number "@ + decimal(n as int) + " in register "@.push(
            r,
        ),
        InstView::Transfer(name, r) => "transfer variable "@ + name + " to register "@.push(r),
        InstView::Result(r) => "the result is in register "@.push(r),
    }
}

/// The label of the stage that a failure comes from.
pub open spec fn stage_label(err: LpErrView) -> Seq<char> {
    match err {
        LpErrView::SExpr(_) => "s-expr"@,
        LpErrView::Parse(_) => "parse"@,
        LpErrView::IR(_) => "ir gen"@,
        LpErrView::Interpret(_) => "interpreter"@,
        LpErrView::Compile(_) => "compile"@,
        LpErrView::Runtime(_) => "runtime"@,
    }
}

/// The message of a failure.
pub open spec fn message(err: LpErrView) -> Seq<char> {
    match err {
        LpErrView::SExpr(m) => m,
        LpErrView::Parse(m) => m,
        LpErrView::IR(m) => m,
        LpErrView::Interpret(m) => m,
        LpErrView::Compile(m) => m,
        LpErrView::Runtime(m) => m,
    }
}

/// The text of a failure: its message, then the label of its stage in
/// parentheses.
pub open spec fn failure_text(err: LpErrView) -> Seq<char> {
    message(err) + " ("@ + stage_label(err) + ")"@
}

/// Appends some words and the name of a register.
fn append_with_register(out: &mut String, words: &str, r: Reg)
    ensures
        final(out)@ == old(out)@ + words@.push(r),
{
    out.append(words);
    push_char(out, r);
    assert(out@ =~= old(out)@ + words@.push(r));
}

/// A sentence about two registers.
fn two_registers(first: &str, a: Reg, second: &str, b: Reg) -> (s: String)
    ensures
        s@ == first@.push(a) + second@.push(b),
{
    let mut out = String::new();
    append_with_register(&mut out, first, a);
    append_with_register(&mut out, second, b);
    assert(out@ =~= first@.push(a) + second@.push(b));
    out
}

impl Operator {
    /// The one-character text of the operator.
    pub fn to_string(&self) -> (s: String)
        ensures
            s@ == seq![operator_symbol(*self)],
    {
        let mut out = String::new();
        let c = match self {
            Operator::Add => '+',
            Operator::Sub => '-',
            Operator::Mul => '*',
            Operator::Div => '/',
        };
        push_char(&mut out, c);
        assert(out@ =~= seq![operator_symbol(*self)]);
        out
    }
}

impl Inst {
    /// The sentence that says what the instruction does.
    pub fn to_string(&self) -> (s: String)
        ensures
            s@ == inst_text(self@),
    {
        match self {
            Inst::Add(a, b) => two_registers("add register ", *a, " to register ", *b),
            Inst::Sub(a, b) => two_registers("subtract register ", *a, " from register ", *b),
            Inst::Mul(a, b) => two_registers("multiply register ", *a, " by register ", *b),
            Inst::Div(a, b) => two_registers("divide register ", *a, " by register ", *b),
            Inst::Store(n, r) => {
                let mut out = String::from_str("store the number ");
                append_decimal(&mut out, *n);
                append_with_register(&mut out, " in register ", *r);
                out
            },
            Inst::Transfer(name, r) => {
                let mut out = String::from_str("transfer variable ");
                out.append(name.as_str());
                append_with_register(&mut out, " to register ", *r);
                out
            },
            Inst::Result(r) => {
                let mut out = String::new();
                append_with_register(&mut out, "the result is in register ", *r);
                assert(out@ =~= inst_text(self@));
                out
            },
        }
    }
}

impl LpErr {
    /// The message of the failure, then the label of its stage in
    /// parentheses.
    pub fn to_string(&self) -> (s: String)
        ensures
            s@ == failure_text(self@),
    {
        let (msg, label) = match self {
            LpErr::SExpr(m) => (m, "s-expr"),
            LpErr::Parse(m) => (m, "parse"),
            LpErr::IR(m) => (m, "ir gen"),
            LpErr::Interpret(m) => (m, "interpreter"),
            LpErr::Compile(m) => (m, "compile"),
            LpErr::Runtime(m) => (m, "runtime"),
        };
        let mut out = msg.clone();
        out.append(" (");
        out.append(label);
        out.append(")");
        out
    }
}

impl SExpr {
    /// Appends the text of the expression.
    fn write_to(&self, out: &mut String)
        ensures
            final(out)@ == old(out)@ + text(self@),
        decreases self,
    {
        match self {
            SExpr::Sym(s) => {
                out.append(s.as_str());
            },
            SExpr::List(items) => {
                push_char(out, '(');
                let ghost opened = out@;
                let ghost views = self@->List_0;
                let mut i: usize = 0;
                assert(out@ =~= opened + joined(views, 0));
                while i < items.len()
                    invariant
                        i <= items.len(),
                        *self == SExpr::List(*items),
                        views == self@->List_0,
                        views.len() == items.len(),
                        out@ == opened + joined(views, i as nat),
                    decreases items.len() - i,
                {
                    if i != 0 {
                        push_char(out, ' ');
                    }
                    assert(decreases_to!(*self => self->List_0));
                    assert(decreases_to!(*items => items[i as int]));
                    assert(views[i as int] == items@[i as int]@);
                    items[i].write_to(out);
                    i += 1;
                    assert(out@ =~= opened + joined(views, i as nat));
                }
                push_char(out, ')');
                assert(out@ =~= old(out)@ + text(self@));
            },
        }
    }

    /// The text of the expression. If every atom of the expression is a
    /// symbol, the lexer and the reader make the expression of the text
    /// again.
    pub fn to_string(&self) -> (s: String)
        ensures
            s@ == text(self@),
            printable(self@) ==> read(lex(s@)) == Ok::<SExprView, LpErrView>(self@),
    {
        let mut out = String::new();
        self.write_to(&mut out);
        assert(out@ =~= text(self@));
        proof {
            if printable(self@) {
                theorem_print_then_read(self@);
            }
        }
        out
    }
}

} // verus!
