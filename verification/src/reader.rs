//! The reader: from tokens to one s-expression.
//!
//! The reader takes the tokens one by one and keeps the lists that are
//! open on a stack of its own, so nesting is bounded by memory and not by
//! the call stack. What it yields is the one s-expression whose tokens it
//! has read, as a reader that descends recursively yields it.

use crate::balance::{balanced, single, theorem_reader_accepts};
use crate::roundtrip::{theorem_read_inverts_tokens, tokens_of};
use crate::types::{views, LpErr, LpErrView, SExpr, SExprView, Token, TokenView};
use vstd::prelude::*;

verus! {

/// What the reader knows after some tokens.
pub struct ReaderState {
    /// The lists that have been opened and not closed yet, outermost first,
    /// each with the items read for it so far.
    pub open: Seq<Seq<SExprView>>,
    /// The top-level expression, once it is complete.
    pub done: Option<SExprView>,
}

/// The state before the first token.
pub open spec fn start() -> ReaderState {
    ReaderState { open: Seq::empty(), done: None }
}

/// Puts a complete expression where it belongs: at the end of the innermost
/// open list, or, if no list is open, at the top level.
pub open spec fn place(st: ReaderState, e: SExprView) -> ReaderState {
    if st.open.len() == 0 {
        ReaderState { open: st.open, done: Some(e) }
    } else {
        ReaderState { open: st.open.drop_last().push(st.open.last().push(e)), done: st.done }
    }
}

/// The state after one more token, or the reason why the token cannot
/// follow.
pub open spec fn step(st: ReaderState, t: TokenView) -> Result<ReaderState, LpErrView> {
    if st.done is Some {
        Err(LpErrView::SExpr("unexpected token after the expression"@))
    } else {
        match t {
            TokenView::Open => Ok(ReaderState { open: st.open.push(Seq::empty()), done: None }),
            TokenView::Sym(s) => Ok(place(st, SExprView::Sym(s))),
            TokenView::Close => if st.open.len() == 0 {
                Err(LpErrView::SExpr("unexpected closing parenthesis"@))
            } else {
                Ok(
                    place(
                        ReaderState { open: st.open.drop_last(), done: None },
                        SExprView::List(st.open.last()),
                    ),
                )
            },
        }
    }
}

/// The state after the tokens `ts`, read one by one from the state `st`, or
/// the first failure.
pub open spec fn read_from(st: ReaderState, ts: Seq<TokenView>) -> Result<ReaderState, LpErrView>
    decreases ts.len(),
{
    if ts.len() == 0 {
        Ok(st)
    } else {
        match read_from(st, ts.drop_last()) {
            Ok(mid) => step(mid, ts.last()),
            Err(e) => Err(e),
        }
    }
}

/// The s-expression that a token sequence denotes, if it denotes exactly
/// one.
pub open spec fn read(ts: Seq<TokenView>) -> Result<SExprView, LpErrView> {
    match read_from(start(), ts) {
        Err(e) => Err(e),
        Ok(st) => if st.open.len() > 0 {
            Err(LpErrView::SExpr("unexpected end of input"@))
        } else {
            match st.done {
                Some(e) => Ok(e),
                None => Err(LpErrView::SExpr("empty input"@)),
            }
        },
    }
}

/// A failure is final: no later token undoes it.
pub proof fn lemma_failure_is_final(st: ReaderState, ts: Seq<TokenView>, k: int)
    requires
        0 <= k <= ts.len(),
        read_from(st, ts.take(k)) is Err,
    ensures
        read_from(st, ts) == read_from(st, ts.take(k)),
    decreases ts.len(),
{
    if k == ts.len() {
        assert(ts.take(k) =~= ts);
    } else {
        assert(ts.drop_last().take(k) =~= ts.take(k));
        lemma_failure_is_final(st, ts.drop_last(), k);
    }
}

/// The state that the reader's working data stand for.
pub open spec fn state_view(open: Seq<Vec<SExpr>>, done: Option<SExpr>) -> ReaderState {
    ReaderState {
        open: Seq::new(open.len(), |i: int| views(open[i]@)),
        done: match done {
            Some(e) => Some(e@),
            None => None,
        },
    }
}

/// The view of a list is the list of the views of its items.
proof fn lemma_list_view(items: Vec<SExpr>)
    ensures
        SExpr::List(items)@ == SExprView::List(views(items@)),
{
    assert(SExpr::List(items)@->List_0 =~= views(items@));
}

/// Puts a complete expression where it belongs.
fn place_expr(open: &mut Vec<Vec<SExpr>>, done: &mut Option<SExpr>, e: SExpr)
    requires
        *old(done) is None,
    ensures
        state_view(final(open)@, *final(done)) == place(state_view(old(open)@, None), e@),
{
    let ghost before = state_view(open@, None);
    match open.pop() {
        None => {
            *done = Some(e);
            assert(state_view(open@, *done).open =~= before.open);
        },
        Some(mut items) => {
            let ghost inner = views(items@);
            assert(inner == before.open.last());
            items.push(e);
            assert(views(items@) =~= inner.push(e@));
            open.push(items);
            assert(state_view(open@, *done).open =~= before.open.drop_last().push(
                inner.push(e@),
            ));
        },
    }
}

/// Reads the one s-expression that the tokens denote.
///
/// Fails, with an `SExpr` failure, if there is no token, if a list is not
/// closed, if a `)` closes nothing, or if anything follows the first
/// complete expression. So it succeeds if and only if the parentheses are
/// balanced and around a single expression, and what it yields then is the
/// s-expression that has exactly these tokens.
pub fn run_reader(tokens: &[Token]) -> (r: Result<SExpr, LpErr>)
    ensures
        match r {
            Ok(e) => read(views(tokens@)) == Ok::<SExprView, LpErrView>(e@),
            Err(err) => read(views(tokens@)) == Err::<SExprView, LpErrView>(err@),
        },
        r is Ok <==> balanced(views(tokens@)) && single(views(tokens@)),
        r matches Ok(e) ==> tokens_of(e@) == views(tokens@),
        r matches Err(err) ==> err@ is SExpr,
{
    let r = read_tokens(tokens);
    proof {
        theorem_reader_accepts(views(tokens@));
        if r is Ok {
            theorem_read_inverts_tokens(views(tokens@), r->Ok_0@);
        }
    }
    r
}

/// Reads the tokens one by one.
fn read_tokens(tokens: &[Token]) -> (r: Result<SExpr, LpErr>)
    ensures
        match r {
            Ok(e) => read(views(tokens@)) == Ok::<SExprView, LpErrView>(e@),
            Err(err) => read(views(tokens@)) == Err::<SExprView, LpErrView>(err@),
        },
{
    let ghost ts = views(tokens@);
    let mut open: Vec<Vec<SExpr>> = Vec::new();
    let mut done: Option<SExpr> = None;
    let mut i: usize = 0;
    assert(state_view(open@, done).open =~= start().open);
    while i < tokens.len()
        invariant
            i <= tokens.len(),
            ts == views(tokens@),
            read_from(start(), ts.take(i as int)) == Ok::<ReaderState, LpErrView>(
                state_view(open@, done),
            ),
        decreases tokens.len() - i,
    {
        let ghost before = state_view(open@, done);
        proof {
            assert(ts.take(i + 1).drop_last() =~= ts.take(i as int));
            assert(ts.take(i + 1).last() == tokens@[i as int]@);
        }
        if done.is_some() {
            proof {
                lemma_failure_is_final(start(), ts, i + 1);
            }
            return Err(LpErr::SExpr(String::from_str("unexpected token after the expression")));
        }
        match &tokens[i] {
            Token::Open => {
                let fresh: Vec<SExpr> = Vec::new();
                assert(views(fresh@) =~= Seq::<SExprView>::empty());
                open.push(fresh);
                assert(state_view(open@, done).open =~= before.open.push(Seq::empty()));
            },
            Token::Sym(s) => {
                place_expr(&mut open, &mut done, SExpr::Sym(s.clone()));
            },
            Token::Close => {
                match open.pop() {
                    None => {
                        proof {
                            lemma_failure_is_final(start(), ts, i + 1);
                        }
                        return Err(
                            LpErr::SExpr(String::from_str("unexpected closing parenthesis")),
                        );
                    },
                    Some(items) => {
                        proof {
                            lemma_list_view(items);
                            assert(views(items@) == before.open.last());
                            assert(state_view(open@, None).open =~= before.open.drop_last());
                        }
                        place_expr(&mut open, &mut done, SExpr::List(items));
                    },
                }
            },
        }
        i += 1;
    }
    assert(ts.take(i as int) =~= ts);
    if open.len() > 0 {
        return Err(LpErr::SExpr(String::from_str("unexpected end of input")));
    }
    match done {
        Some(e) => Ok(e),
        None => Err(LpErr::SExpr(String::from_str("empty input"))),
    }
}

} // verus!
