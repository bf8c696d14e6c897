//! The data that flows through the pipeline, and the mathematical view of
//! each type that the contracts are stated over.

use vstd::prelude::*;

verus! {

/// A failure of one stage of the pipeline, with a human-readable message.
#[derive(Debug, PartialEq, Eq)]
pub enum LpErr {
    /// The lexer or the reader failed.
    SExpr(String),
    /// A syntax error that is not one of the s-expression's structure. No
    /// stage reports one yet.
    Parse(String),
    /// The syntax-tree builder failed.
    IR(String),
    /// The tree interpreter failed.
    Interpret(String),
    /// The compiler failed.
    Compile(String),
    /// The register machine failed.
    Runtime(String),
}

/// What an [`LpErr`] stands for: the stage that failed and its message.
pub enum LpErrView {
    SExpr(Seq<char>),
    Parse(Seq<char>),
    IR(Seq<char>),
    Interpret(Seq<char>),
    Compile(Seq<char>),
    Runtime(Seq<char>),
}

impl View for LpErr {
    type V = LpErrView;

    open spec fn view(&self) -> LpErrView {
        match self {
            LpErr::SExpr(m) => LpErrView::SExpr(m@),
            LpErr::Parse(m) => LpErrView::Parse(m@),
            LpErr::IR(m) => LpErrView::IR(m@),
            LpErr::Interpret(m) => LpErrView::Interpret(m@),
            LpErr::Compile(m) => LpErrView::Compile(m@),
            LpErr::Runtime(m) => LpErrView::Runtime(m@),
        }
    }
}

impl Clone for LpErr {
    fn clone(&self) -> (res: LpErr)
        ensures
            res@ == self@,
    {
        match self {
            LpErr::SExpr(m) => LpErr::SExpr(m.clone()),
            LpErr::Parse(m) => LpErr::Parse(m.clone()),
            LpErr::IR(m) => LpErr::IR(m.clone()),
            LpErr::Interpret(m) => LpErr::Interpret(m.clone()),
            LpErr::Compile(m) => LpErr::Compile(m.clone()),
            LpErr::Runtime(m) => LpErr::Runtime(m.clone()),
        }
    }
}

/// One lexical unit of the input text.
#[derive(Debug, PartialEq, Eq)]
pub enum Token {
    /// `(`
    Open,
    /// `)`
    Close,
    /// A run of characters that are neither whitespace nor parentheses.
    Sym(String),
}

/// What a [`Token`] stands for.
pub enum TokenView {
    Open,
    Close,
    Sym(Seq<char>),
}

impl Clone for Token {
    fn clone(&self) -> (res: Token)
        ensures
            res@ == self@,
    {
        match self {
            Token::Open => Token::Open,
            Token::Close => Token::Close,
            Token::Sym(s) => Token::Sym(s.clone()),
        }
    }
}

impl View for Token {
    type V = TokenView;

    open spec fn view(&self) -> TokenView {
        match self {
            Token::Open => TokenView::Open,
            Token::Close => TokenView::Close,
            Token::Sym(s) => TokenView::Sym(s@),
        }
    }
}

/// A symbolic expression: an atom or an ordered list of expressions.
#[derive(Debug, PartialEq, Eq)]
pub enum SExpr {
    /// An atom: an operator, a name or an integer literal, as text.
    Sym(String),
    /// A list: what stood between one `(` and the `)` that matches it.
    List(Vec<SExpr>),
}

/// What an [`SExpr`] stands for: a finite tree of symbols.
pub enum SExprView {
    Sym(Seq<char>),
    List(Seq<SExprView>),
}

impl View for SExpr {
    type V = SExprView;

    open spec fn view(&self) -> SExprView
        decreases self,
    {
        match self {
            SExpr::Sym(s) => SExprView::Sym(s@),
            SExpr::List(items) => SExprView::List(
                Seq::new(
                    items@.len(),
                    |i: int|
                        if 0 <= i < items@.len() {
                            items@[i].view()
                        } else {
                            SExprView::Sym(Seq::empty())
                        },
                ),
            ),
        }
    }
}

impl Clone for SExpr {
    fn clone(&self) -> (res: SExpr)
        ensures
            res@ == self@,
        decreases self,
    {
        match self {
            SExpr::Sym(s) => SExpr::Sym(s.clone()),
            SExpr::List(items) => {
                let mut copy: Vec<SExpr> = Vec::new();
                let mut i: usize = 0;
                while i < items.len()
                    invariant
                        i <= items.len(),
                        copy.len() == i,
                        *self == SExpr::List(*items),
                        forall|k: int| 0 <= k < i ==> copy@[k]@ == items@[k]@,
                    decreases items.len() - i,
                {
                    assert(decreases_to!(*self => self->List_0));
                    assert(decreases_to!(*items => items[i as int]));
                    let item = items[i].clone();
                    copy.push(item);
                    i += 1;
                }
                assert(SExpr::List(copy)@->List_0 =~= self@->List_0);
                SExpr::List(copy)
            },
        }
    }
}

/// The four arithmetic operators of the language.
#[derive(Debug, PartialEq, Eq, Clone, Copy, Structural)]
pub enum Operator {
    /// `+`
    Add,
    /// `-`
    Sub,
    /// `*`
    Mul,
    /// `/`
    Div,
}

/// An arithmetic expression over integer literals and named variables.
#[derive(Debug, PartialEq, Eq)]
pub enum Expr {
    /// An integer literal.
    Num(i32),
    /// A variable, by name.
    Var(String),
    /// An operator applied to one operand. Only `Sub`, the negation, has a
    /// meaning here.
    UnaryOp(Operator, Box<Expr>),
    /// An operator between a left and a right operand.
    BinaryOp(Box<Expr>, Operator, Box<Expr>),
}

/// What an [`Expr`] stands for: a finite tree of operations.
pub enum ExprView {
    Num(i32),
    Var(Seq<char>),
    UnaryOp(Operator, Box<ExprView>),
    BinaryOp(Box<ExprView>, Operator, Box<ExprView>),
}

impl Expr {
    /// The tree that this expression stands for.
    pub open spec fn tree(&self) -> ExprView
        decreases self,
    {
        match self {
            Expr::Num(n) => ExprView::Num(*n),
            Expr::Var(name) => ExprView::Var(name@),
            Expr::UnaryOp(op, operand) => ExprView::UnaryOp(*op, Box::new(operand.tree())),
            Expr::BinaryOp(left, op, right) => ExprView::BinaryOp(
                Box::new(left.tree()),
                *op,
                Box::new(right.tree()),
            ),
        }
    }
}

impl Clone for Expr {
    fn clone(&self) -> (res: Expr)
        ensures
            res@ == self@,
        decreases self,
    {
        match self {
            Expr::Num(n) => Expr::Num(*n),
            Expr::Var(name) => Expr::Var(name.clone()),
            Expr::UnaryOp(op, operand) => {
                let inner = (&**operand).clone();
                Expr::UnaryOp(*op, Box::new(inner))
            },
            Expr::BinaryOp(left, op, right) => {
                let l = (&**left).clone();
                let r = (&**right).clone();
                Expr::BinaryOp(Box::new(l), *op, Box::new(r))
            },
        }
    }
}

impl View for Expr {
    type V = ExprView;

    open spec fn view(&self) -> ExprView {
        self.tree()
    }
}

/// The name of a register of the machine.
pub type Reg = char;

/// One instruction of the register machine.
///
/// An arithmetic instruction names two registers, `a` and `b`, reads both
/// and changes `b`.
#[derive(Debug, PartialEq, Eq)]
pub enum Inst {
    /// Adds `a` to `b`: `b` becomes `b + a`.
    Add(Reg, Reg),
    /// Subtracts `a` from `b`: `b` becomes `b - a`.
    Sub(Reg, Reg),
    /// Multiplies `b` by `a`: `b` becomes `b * a`.
    Mul(Reg, Reg),
    /// Divides `b` by `a`: `b` becomes `b / a`, rounded toward zero.
    Div(Reg, Reg),
    /// Writes a number to a register.
    Store(i32, Reg),
    /// Writes the value of a variable to a register.
    Transfer(String, Reg),
    /// Ends the program: its value is in the register.
    Result(Reg),
}

/// What an [`Inst`] stands for.
pub enum InstView {
    Add(Reg, Reg),
    Sub(Reg, Reg),
    Mul(Reg, Reg),
    Div(Reg, Reg),
    Store(i32, Reg),
    Transfer(Seq<char>, Reg),
    Result(Reg),
}

impl Clone for Inst {
    fn clone(&self) -> (res: Inst)
        ensures
            res@ == self@,
    {
        match self {
            Inst::Add(a, b) => Inst::Add(*a, *b),
            Inst::Sub(a, b) => Inst::Sub(*a, *b),
            Inst::Mul(a, b) => Inst::Mul(*a, *b),
            Inst::Div(a, b) => Inst::Div(*a, *b),
            Inst::Store(n, r) => Inst::Store(*n, *r),
            Inst::Transfer(name, r) => Inst::Transfer(name.clone(), *r),
            Inst::Result(r) => Inst::Result(*r),
        }
    }
}

impl View for Inst {
    type V = InstView;

    open spec fn view(&self) -> InstView {
        match self {
            Inst::Add(a, b) => InstView::Add(*a, *b),
            Inst::Sub(a, b) => InstView::Sub(*a, *b),
            Inst::Mul(a, b) => InstView::Mul(*a, *b),
            Inst::Div(a, b) => InstView::Div(*a, *b),
            Inst::Store(n, r) => InstView::Store(*n, *r),
            Inst::Transfer(name, r) => InstView::Transfer(name@, *r),
            Inst::Result(r) => InstView::Result(*r),
        }
    }
}

/// The views of the elements of a sequence, in order.
pub open spec fn views<T: View>(items: Seq<T>) -> Seq<T::V> {
    Seq::new(items.len(), |i: int| items[i]@)
}

} // verus!
