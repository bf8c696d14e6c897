//! The lexer and the reader undo the printing of an s-expression.

use crate::lexer::{flush, is_symbol, lex, scan};
use crate::reader::{place, read, read_from, start, step, ReaderState};
use crate::render::{joined, text};
use crate::text::is_symbol_char;
use crate::types::{LpErrView, SExprView, TokenView};
use vstd::prelude::*;

verus! {

/// An s-expression that can be printed and read again: each of its atoms
/// is a symbol.
pub open spec fn printable(e: SExprView) -> bool
    decreases e,
{
    match e {
        SExprView::Sym(s) => is_symbol(s),
        SExprView::List(items) => forall|i: int|
            0 <= i < items.len() ==> printable(#[trigger] items[i]),
    }
}

/// The tokens of an s-expression: a symbol for an atom; for a list, the
/// tokens of its items between `(` and `)`.
pub open spec fn tokens_of(e: SExprView) -> Seq<TokenView>
    decreases e, 0nat,
{
    match e {
        SExprView::Sym(s) => seq![TokenView::Sym(s)],
        SExprView::List(items) => seq![TokenView::Open] + tokens_of_items(items, items.len())
            + seq![TokenView::Close],
    }
}

/// The tokens of the first `n` items, one item after the other.
pub open spec fn tokens_of_items(items: Seq<SExprView>, n: nat) -> Seq<TokenView>
    decreases items, n,
{
    if n == 0 || n > items.len() {
        Seq::empty()
    } else {
        tokens_of_items(items, (n - 1) as nat) + tokens_of(items[n - 1])
    }
}

/// A text before which a symbol ends: the empty text, or one that starts
/// with whitespace or a parenthesis.
pub open spec fn ends_symbol(rest: Seq<char>) -> bool {
    rest.len() == 0 || !is_symbol_char(rest[0])
}

/// Symbol characters are gathered until the symbol ends.
proof fn lemma_scan_symbol(sym: Seq<char>, rest: Seq<char>, pending: Seq<char>)
    requires
        forall|i: int| 0 <= i < sym.len() ==> is_symbol_char(#[trigger] sym[i]),
    ensures
        scan(sym + rest, pending) == scan(rest, pending + sym),
    decreases sym.len(),
{
    if sym.len() == 0 {
        assert(sym + rest =~= rest);
        assert(pending + sym =~= pending);
    } else {
        let all = sym + rest;
        assert(all[0] == sym[0]);
        assert(all.drop_first() =~= sym.drop_first() + rest);
        lemma_scan_symbol(sym.drop_first(), rest, pending.push(sym[0]));
        assert(pending.push(sym[0]) + sym.drop_first() =~= pending + sym);
    }
}

/// Where a symbol ends, it becomes a token, and the lexer starts anew.
proof fn lemma_scan_end(rest: Seq<char>, pending: Seq<char>)
    requires
        ends_symbol(rest),
    ensures
        scan(rest, pending) == flush(pending) + lex(rest),
{
    if rest.len() == 0 {
        assert(flush(pending) + lex(rest) =~= flush(pending));
    } else {
        let tail = scan(rest.drop_first(), Seq::empty());
        let none = flush(Seq::empty());
        assert(none + tail =~= tail);
        assert(none + seq![TokenView::Open] + tail =~= seq![TokenView::Open] + tail);
        assert(none + seq![TokenView::Close] + tail =~= seq![TokenView::Close] + tail);
        assert(scan(rest, pending) =~= flush(pending) + lex(rest));
    }
}

/// One delimiter in front of a text.
proof fn lemma_lex_delimiter(c: char, rest: Seq<char>)
    requires
        !is_symbol_char(c),
    ensures
        lex(seq![c] + rest) == if c == '(' {
            seq![TokenView::Open] + lex(rest)
        } else if c == ')' {
            seq![TokenView::Close] + lex(rest)
        } else {
            lex(rest)
        },
{
    let all = seq![c] + rest;
    assert(all[0] == c);
    assert(all.drop_first() =~= rest);
    let none = flush(Seq::empty());
    assert(none + lex(rest) =~= lex(rest));
    assert(none + seq![TokenView::Open] + lex(rest) =~= seq![TokenView::Open] + lex(rest));
    assert(none + seq![TokenView::Close] + lex(rest) =~= seq![TokenView::Close] + lex(rest));
}

/// The lexer reads the text of a printable s-expression as its tokens,
/// whatever follows, as long as what follows ends a symbol.
pub proof fn lemma_lex_text(e: SExprView, rest: Seq<char>)
    requires
        printable(e),
        ends_symbol(rest),
    ensures
        lex(text(e) + rest) == tokens_of(e) + lex(rest),
    decreases e, 0nat,
{
    match e {
        SExprView::Sym(s) => {
            lemma_scan_symbol(s, rest, Seq::empty());
            assert(Seq::<char>::empty() + s =~= s);
            lemma_scan_end(rest, s);
        },
        SExprView::List(items) => {
            let inner = joined(items, items.len());
            let close = seq![')'] + rest;
            assert(text(e) + rest =~= seq!['('] + (inner + close));
            lemma_lex_delimiter('(', inner + close);
            lemma_lex_joined(items, items.len(), close);
            lemma_lex_delimiter(')', rest);
            assert(lex(text(e) + rest) =~= tokens_of(e) + lex(rest));
        },
    }
}

/// The same for the first `n` items of a list.
pub proof fn lemma_lex_joined(items: Seq<SExprView>, n: nat, rest: Seq<char>)
    requires
        n <= items.len(),
        forall|i: int| 0 <= i < items.len() ==> printable(#[trigger] items[i]),
        ends_symbol(rest),
    ensures
        lex(joined(items, n) + rest) == tokens_of_items(items, n) + lex(rest),
    decreases items, n,
{
    if n == 0 {
        assert(joined(items, n) + rest =~= rest);
        assert(tokens_of_items(items, n) + lex(rest) =~= lex(rest));
    } else if n == 1 {
        lemma_lex_text(items[0], rest);
        assert(tokens_of_items(items, 0) + tokens_of(items[0]) =~= tokens_of(items[0]));
    } else {
        let before = (n - 1) as nat;
        let last = items[n - 1];
        let tail = seq![' '] + (text(last) + rest);
        assert(joined(items, n) + rest =~= joined(items, before) + tail);
        lemma_lex_joined(items, before, tail);
        lemma_lex_delimiter(' ', text(last) + rest);
        lemma_lex_text(last, rest);
        assert(lex(joined(items, n) + rest) =~= tokens_of_items(items, n) + lex(rest));
    }
}

/// Reading two token sequences one after the other.
pub proof fn lemma_read_concat(st: ReaderState, a: Seq<TokenView>, b: Seq<TokenView>)
    ensures
        read_from(st, a + b) == match read_from(st, a) {
            Ok(mid) => read_from(mid, b),
            Err(e) => Err(e),
        },
    decreases b.len(),
{
    if b.len() == 0 {
        assert(a + b =~= a);
    } else {
        let all = a + b;
        assert(all.drop_last() =~= a + b.drop_last());
        assert(all.last() == b.last());
        lemma_read_concat(st, a, b.drop_last());
    }
}

/// Reading one token.
proof fn lemma_read_one(st: ReaderState, t: TokenView)
    ensures
        read_from(st, seq![t]) == step(st, t),
{
    let one = seq![t];
    assert(one.drop_last() =~= Seq::<TokenView>::empty());
    assert(read_from(st, one.drop_last()) == Ok::<ReaderState, LpErrView>(st));
}

/// The state in which the innermost open list holds the first `n` items.
pub open spec fn filling(st: ReaderState, items: Seq<SExprView>, n: nat) -> ReaderState {
    ReaderState { open: st.open.push(items.take(n as int)), done: None }
}

/// The reader, given the tokens of an s-expression, puts that s-expression
/// in its place.
pub proof fn lemma_read_tokens_of(st: ReaderState, e: SExprView)
    requires
        st.done is None,
    ensures
        read_from(st, tokens_of(e)) == Ok::<ReaderState, LpErrView>(place(st, e)),
    decreases e, 0nat,
{
    match e {
        SExprView::Sym(s) => {
            lemma_read_one(st, TokenView::Sym(s));
        },
        SExprView::List(items) => {
            let n = items.len();
            let open = seq![TokenView::Open];
            let inner = tokens_of_items(items, n);
            let close = seq![TokenView::Close];
            lemma_read_one(st, TokenView::Open);
            assert(items.take(0) =~= Seq::<SExprView>::empty());
            lemma_read_items(st, items, n);
            lemma_read_concat(st, open, inner);
            let filled = filling(st, items, n);
            lemma_read_one(filled, TokenView::Close);
            lemma_read_concat(st, open + inner, close);
            assert(items.take(n as int) =~= items);
            assert(filled.open.drop_last() =~= st.open);
            assert(filled.open.last() == items);
            assert(ReaderState { open: filled.open.drop_last(), done: None } == st);
        },
    }
}

/// The same for the first `n` items of a list that has just been opened.
pub proof fn lemma_read_items(st: ReaderState, items: Seq<SExprView>, n: nat)
    requires
        st.done is None,
        n <= items.len(),
    ensures
        read_from(filling(st, items, 0), tokens_of_items(items, n)) == Ok::<
            ReaderState,
            LpErrView,
        >(filling(st, items, n)),
    decreases items, n,
{
    if n == 0 {
    } else {
        let before = (n - 1) as nat;
        let item = items[n - 1];
        lemma_read_items(st, items, before);
        let mid = filling(st, items, before);
        lemma_read_tokens_of(mid, item);
        lemma_read_concat(filling(st, items, 0), tokens_of_items(items, before), tokens_of(item));
        assert(items.take(before as int).push(item) =~= items.take(n as int));
        assert(place(mid, item).open =~= filling(st, items, n).open);
    }
}

/// Printing, lexing and reading gives the s-expression back. For every
/// s-expression whose atoms are symbols, the reader yields, on the tokens
/// of its text, that s-expression.
pub proof fn theorem_print_then_read(e: SExprView)
    requires
        printable(e),
    ensures
        lex(text(e)) == tokens_of(e),
        read(lex(text(e))) == Ok::<SExprView, LpErrView>(e),
{
    let nothing = Seq::<char>::empty();
    lemma_lex_text(e, nothing);
    assert(text(e) + nothing =~= text(e));
    assert(tokens_of(e) + lex(nothing) =~= tokens_of(e));
    lemma_read_tokens_of(start(), e);
}

/// The tokens of the first `n` items do not depend on the items after them.
proof fn lemma_tokens_of_prefix(items: Seq<SExprView>, longer: Seq<SExprView>, n: nat)
    requires
        n <= items.len() <= longer.len(),
        forall|i: int| 0 <= i < items.len() ==> items[i] == longer[i],
    ensures
        tokens_of_items(items, n) == tokens_of_items(longer, n),
    decreases n,
{
    if n > 0 {
        lemma_tokens_of_prefix(items, longer, (n - 1) as nat);
    }
}

/// The tokens that lead to the lists that are open: for each of them, from
/// the outermost inward, a `(` and the tokens of the items read so far.
pub open spec fn tokens_of_open(open: Seq<Seq<SExprView>>) -> Seq<TokenView>
    decreases open.len(),
{
    if open.len() == 0 {
        Seq::empty()
    } else {
        tokens_of_open(open.drop_last()) + seq![TokenView::Open] + tokens_of_items(
            open.last(),
            open.last().len(),
        )
    }
}

/// The tokens that lead to a state of the reader.
pub open spec fn tokens_of_state(st: ReaderState) -> Seq<TokenView> {
    match st.done {
        Some(e) => tokens_of(e),
        None => tokens_of_open(st.open),
    }
}

/// A state is consistent if no list is open once the expression is
/// complete.
pub open spec fn consistent(st: ReaderState) -> bool {
    st.done is Some ==> st.open.len() == 0
}

/// Placing an expression adds its tokens to those that lead to the state.
proof fn lemma_place_tokens(st: ReaderState, e: SExprView)
    requires
        st.done is None,
    ensures
        consistent(place(st, e)),
        tokens_of_state(place(st, e)) == tokens_of_state(st) + tokens_of(e),
{
    if st.open.len() == 0 {
        assert(tokens_of_state(st) + tokens_of(e) =~= tokens_of(e));
    } else {
        let items = st.open.last();
        let more = items.push(e);
        let open = st.open.drop_last().push(more);
        assert(open.drop_last() =~= st.open.drop_last());
        assert(open.last() == more);
        lemma_tokens_of_prefix(items, more, items.len());
        assert(tokens_of_state(place(st, e)) =~= tokens_of_state(st) + tokens_of(e));
    }
}

/// Every step of the reader keeps the tokens that lead to its state.
proof fn lemma_step_tokens(st: ReaderState, t: TokenView)
    requires
        consistent(st),
    ensures
        step(st, t) matches Ok(next) ==> consistent(next) && tokens_of_state(next)
            == tokens_of_state(st).push(t),
{
    if st.done is None {
        match t {
            TokenView::Open => {
                let open = st.open.push(Seq::empty());
                assert(open.drop_last() =~= st.open);
                assert(tokens_of_open(open) =~= tokens_of_state(st).push(t));
            },
            TokenView::Sym(s) => {
                lemma_place_tokens(st, SExprView::Sym(s));
                assert(tokens_of_state(st) + tokens_of(SExprView::Sym(s)) =~= tokens_of_state(
                    st,
                ).push(t));
            },
            TokenView::Close => {
                if st.open.len() > 0 {
                    let outer = ReaderState { open: st.open.drop_last(), done: None };
                    let items = st.open.last();
                    lemma_place_tokens(outer, SExprView::List(items));
                    assert(tokens_of_state(outer) + tokens_of(SExprView::List(items))
                        =~= tokens_of_state(st).push(t));
                }
            },
        }
    }
}

/// The state of the reader holds what it has read: the tokens that lead to
/// the state are the tokens read.
pub proof fn lemma_read_keeps_tokens(ts: Seq<TokenView>)
    ensures
        read_from(start(), ts) matches Ok(st) ==> consistent(st) && tokens_of_state(st) == ts,
    decreases ts.len(),
{
    if ts.len() > 0 {
        lemma_read_keeps_tokens(ts.drop_last());
        match read_from(start(), ts.drop_last()) {
            Ok(mid) => {
                lemma_step_tokens(mid, ts.last());
                assert(ts.drop_last().push(ts.last()) =~= ts);
            },
            Err(_) => {},
        }
    }
}

/// The reader is the inverse of `tokens_of`: it yields an s-expression for
/// a token sequence if and only if the sequence is the tokens of that
/// s-expression. So every list of the result stands for one matched pair
/// of parentheses of the input, and nothing of the input is lost.
pub proof fn theorem_read_inverts_tokens(ts: Seq<TokenView>, e: SExprView)
    ensures
        read(ts) == Ok::<SExprView, LpErrView>(e) <==> tokens_of(e) == ts,
{
    lemma_read_keeps_tokens(ts);
    lemma_read_tokens_of(start(), e);
}

} // verus!
