//! The lexer: from text to tokens.

use crate::text::{char_is_space, chars_of, is_space, is_symbol_char, push_char};
use crate::types::{views, LpErr, Token, TokenView};
use vstd::prelude::*;

verus! {

/// The token that ends a run of symbol characters, if there was a run.
pub open spec fn flush(pending: Seq<char>) -> Seq<TokenView> {
    if pending.len() == 0 {
        Seq::empty()
    } else {
        seq![TokenView::Sym(pending)]
    }
}

/// The tokens of `text`, read after the symbol characters `pending`, which
/// have been seen and belong to no token yet.
///
/// Whitespace and parentheses end a symbol; a parenthesis is a token of its
/// own; every other character extends the symbol that is being read. So a
/// symbol is a maximal run of characters that are neither whitespace nor
/// parentheses.
pub open spec fn scan(text: Seq<char>, pending: Seq<char>) -> Seq<TokenView>
    decreases text.len(),
{
    if text.len() == 0 {
        flush(pending)
    } else {
        let c = text[0];
        let rest = text.drop_first();
        if is_space(c) {
            flush(pending) + scan(rest, Seq::empty())
        } else if c == '(' {
            flush(pending) + seq![TokenView::Open] + scan(rest, Seq::empty())
        } else if c == ')' {
            flush(pending) + seq![TokenView::Close] + scan(rest, Seq::empty())
        } else {
            scan(rest, pending.push(c))
        }
    }
}

/// The tokens of a text.
pub open spec fn lex(text: Seq<char>) -> Seq<TokenView> {
    scan(text, Seq::empty())
}

/// Ends the symbol that is being read, if there is one, and starts anew.
fn flush_pending(tokens: &mut Vec<Token>, pending: String) -> (fresh: String)
    ensures
        fresh@ == Seq::<char>::empty(),
        views(final(tokens)@) == views(old(tokens)@) + flush(pending@),
{
    if pending.as_str().is_empty() {
        assert(views(tokens@) =~= views(tokens@) + flush(pending@));
        pending
    } else {
        let ghost before = tokens@;
        let ghost symbol = pending@;
        tokens.push(Token::Sym(pending));
        assert(views(tokens@) =~= views(before) + flush(symbol));
        String::new()
    }
}

/// Splits a text into tokens. Any text can be split: the result is never an
/// error. The tokens spell the text without its whitespace, and each
/// symbol among them is a run, not empty, of characters that are neither
/// whitespace nor parentheses.
pub fn run_lexer(text: &str) -> (r: Result<Vec<Token>, LpErr>)
    ensures
        r matches Ok(tokens) && views(tokens@) == lex(text@),
        r matches Ok(tokens) ==> spelling(views(tokens@)) == without_spaces(text@),
        r matches Ok(tokens) ==> forall|i: int|
            0 <= i < tokens.len() ==> (#[trigger] tokens@[i] matches Token::Sym(s) ==> is_symbol(
                s@,
            )),
{
    proof {
        theorem_lexer_keeps_text(text@);
    }
    let chars = chars_of(text);
    let mut tokens: Vec<Token> = Vec::new();
    let mut pending = String::new();
    let mut i: usize = 0;
    assert(chars@.skip(0) =~= chars@);
    assert(views(tokens@) + scan(chars@, pending@) =~= lex(text@));
    while i < chars.len()
        invariant
            i <= chars.len(),
            chars@ == text@,
            views(tokens@) + scan(chars@.skip(i as int), pending@) == lex(text@),
        decreases chars.len() - i,
    {
        let c = chars[i];
        let ghost before = views(tokens@);
        let ghost symbol = pending@;
        let ghost here = chars@.skip(i as int);
        assert(here[0] == c);
        assert(here.drop_first() =~= chars@.skip(i + 1));
        if char_is_space(c) {
            pending = flush_pending(&mut tokens, pending);
            assert(views(tokens@) + scan(chars@.skip(i + 1), pending@) =~= before + scan(
                here,
                symbol,
            ));
        } else if c == '(' {
            pending = flush_pending(&mut tokens, pending);
            let ghost flushed = tokens@;
            tokens.push(Token::Open);
            assert(views(tokens@) =~= views(flushed).push(TokenView::Open));
            assert(views(tokens@) + scan(chars@.skip(i + 1), pending@) =~= before + scan(
                here,
                symbol,
            ));
        } else if c == ')' {
            pending = flush_pending(&mut tokens, pending);
            let ghost flushed = tokens@;
            tokens.push(Token::Close);
            assert(views(tokens@) =~= views(flushed).push(TokenView::Close));
            assert(views(tokens@) + scan(chars@.skip(i + 1), pending@) =~= before + scan(
                here,
                symbol,
            ));
        } else {
            push_char(&mut pending, c);
        }
        i += 1;
    }
    assert(chars@.skip(i as int).len() == 0);
    let _ = flush_pending(&mut tokens, pending);
    proof {
        assert forall|i: int| 0 <= i < tokens.len() implies (#[trigger] tokens@[i] matches Token::Sym(
            s,
        ) ==> is_symbol(s@)) by {
            assert(lex(text@)[i] == tokens@[i]@);
        }
    }
    Ok(tokens)
}

/// A text that the lexer reads as one symbol: not empty, and without
/// whitespace and parentheses.
pub open spec fn is_symbol(s: Seq<char>) -> bool {
    s.len() > 0 && forall|i: int| 0 <= i < s.len() ==> is_symbol_char(#[trigger] s[i])
}

/// The characters that a token was read from.
pub open spec fn token_text(t: TokenView) -> Seq<char> {
    match t {
        TokenView::Open => seq!['('],
        TokenView::Close => seq![')'],
        TokenView::Sym(s) => s,
    }
}

/// The characters that the tokens were read from, one token after the
/// other.
pub open spec fn spelling(ts: Seq<TokenView>) -> Seq<char>
    decreases ts.len(),
{
    if ts.len() == 0 {
        Seq::empty()
    } else {
        spelling(ts.drop_last()) + token_text(ts.last())
    }
}

/// A text without its whitespace.
pub open spec fn without_spaces(text: Seq<char>) -> Seq<char>
    decreases text.len(),
{
    if text.len() == 0 {
        Seq::empty()
    } else if is_space(text[0]) {
        without_spaces(text.drop_first())
    } else {
        seq![text[0]] + without_spaces(text.drop_first())
    }
}

/// The spelling of two token sequences, one after the other.
proof fn lemma_spelling_concat(a: Seq<TokenView>, b: Seq<TokenView>)
    ensures
        spelling(a + b) == spelling(a) + spelling(b),
    decreases b.len(),
{
    if b.len() == 0 {
        assert(a + b =~= a);
        assert(spelling(a) + spelling(b) =~= spelling(a));
    } else {
        let all = a + b;
        assert(all.drop_last() =~= a + b.drop_last());
        assert(all.last() == b.last());
        lemma_spelling_concat(a, b.drop_last());
        assert(spelling(all) =~= spelling(a) + spelling(b));
    }
}

/// The spelling of one token.
proof fn lemma_spelling_one(t: TokenView)
    ensures
        spelling(seq![t]) == token_text(t),
{
    let one = seq![t];
    assert(one.drop_last() =~= Seq::<TokenView>::empty());
    assert(spelling(one.drop_last()) + token_text(t) =~= token_text(t));
}

/// What the lexer makes of a text and of the symbol characters before it.
proof fn lemma_scan(text: Seq<char>, pending: Seq<char>)
    requires
        forall|i: int| 0 <= i < pending.len() ==> is_symbol_char(#[trigger] pending[i]),
    ensures
        spelling(scan(text, pending)) == pending + without_spaces(text),
        forall|i: int|
            0 <= i < scan(text, pending).len() ==> (#[trigger] scan(text, pending)[i] matches TokenView::Sym(
                s,
            ) ==> is_symbol(s)),
    decreases text.len(),
{
    let none = Seq::<char>::empty();
    let flushed = flush(pending);
    assert(spelling(flushed) =~= pending) by {
        if pending.len() > 0 {
            lemma_spelling_one(TokenView::Sym(pending));
        }
    }
    if text.len() == 0 {
        assert(pending + without_spaces(text) =~= pending);
    } else {
        let c = text[0];
        let rest = text.drop_first();
        if is_symbol_char(c) {
            lemma_scan(rest, pending.push(c));
            assert(pending.push(c) + without_spaces(rest) =~= pending + without_spaces(text));
        } else {
            lemma_scan(rest, none);
            let tail = scan(rest, none);
            assert(none + without_spaces(rest) =~= without_spaces(rest));
            let mark = if c == '(' {
                seq![TokenView::Open]
            } else if c == ')' {
                seq![TokenView::Close]
            } else {
                Seq::<TokenView>::empty()
            };
            assert(scan(text, pending) =~= flushed + mark + tail);
            lemma_spelling_concat(flushed + mark, tail);
            lemma_spelling_concat(flushed, mark);
            if mark.len() > 0 {
                lemma_spelling_one(mark[0]);
                assert(mark =~= seq![mark[0]]);
            }
            assert(spelling(scan(text, pending)) =~= pending + without_spaces(text));
        }
    }
}

/// The lexer loses nothing but whitespace, and makes no symbol of
/// anything else: the characters of the tokens of a text, one token after
/// the other, are the characters of the text that are no whitespace; and
/// each symbol among the tokens is a run, not empty, of characters that
/// are neither whitespace nor parentheses.
pub proof fn theorem_lexer_keeps_text(text: Seq<char>)
    ensures
        spelling(lex(text)) == without_spaces(text),
        forall|i: int|
            0 <= i < lex(text).len() ==> (#[trigger] lex(text)[i] matches TokenView::Sym(s)
                ==> is_symbol(s)),
{
    lemma_scan(text, Seq::empty());
    assert(Seq::<char>::empty() + without_spaces(text) =~= without_spaces(text));
}

} // verus!
