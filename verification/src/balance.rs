//! The reader accepts exactly the token sequences whose parentheses are
//! balanced and that hold one expression.

use crate::reader::{read, read_from, start};
use crate::types::TokenView;
use vstd::prelude::*;

verus! {

/// What a token adds to the nesting depth.
pub open spec fn delta(t: TokenView) -> int {
    match t {
        TokenView::Open => 1,
        TokenView::Close => -1,
        TokenView::Sym(_) => 0,
    }
}

/// The nesting depth after a token sequence: the number of `(` less the
/// number of `)`.
pub open spec fn depth(ts: Seq<TokenView>) -> int
    decreases ts.len(),
{
    if ts.len() == 0 {
        0
    } else {
        depth(ts.drop_last()) + delta(ts.last())
    }
}

/// The parentheses are balanced: no `)` comes before its `(`, and every `(`
/// is closed.
pub open spec fn balanced(ts: Seq<TokenView>) -> bool {
    depth(ts) == 0 && forall|k: int| 0 <= k <= ts.len() ==> depth(#[trigger] ts.take(k)) >= 0
}

/// There is a token, and no expression is complete before the last one:
/// the sequence holds one expression at most, and not none.
pub open spec fn single(ts: Seq<TokenView>) -> bool {
    ts.len() > 0 && forall|k: int| 0 < k < ts.len() ==> depth(#[trigger] ts.take(k)) > 0
}

/// After the first `k` tokens no expression has been completed before the
/// last of them, and no `)` has come before its `(`.
pub open spec fn rising(ts: Seq<TokenView>, k: int) -> bool {
    depth(ts.take(k)) >= 0 && forall|j: int| 0 < j < k ==> depth(#[trigger] ts.take(j)) > 0
}

/// What the reader knows after the first `k` tokens: it has failed if and
/// only if the prefix is not rising; otherwise as many lists are open as
/// the depth says, and the expression is complete if and only if there was
/// a token and the depth is back at zero.
pub proof fn lemma_prefix_state(ts: Seq<TokenView>, k: int)
    requires
        0 <= k <= ts.len(),
    ensures
        match read_from(start(), ts.take(k)) {
            Ok(st) => {
                &&& rising(ts, k)
                &&& st.open.len() == depth(ts.take(k))
                &&& st.done is Some <==> k > 0 && depth(ts.take(k)) == 0
            },
            Err(e) => e is SExpr && !rising(ts, k),
        },
    decreases k,
{
    if k == 0 {
        assert(ts.take(0).len() == 0);
    } else {
        let shorter = ts.take(k - 1);
        let here = ts.take(k);
        assert(here.drop_last() =~= shorter);
        assert(here.last() == ts[k - 1]);
        lemma_prefix_state(ts, k - 1);
        match read_from(start(), shorter) {
            Ok(st) => {
                if st.done is Some {
                    assert(depth(ts.take(k - 1)) == 0);
                    assert(!rising(ts, k));
                } else {
                    match ts[k - 1] {
                        TokenView::Open => {
                            assert(rising(ts, k));
                        },
                        TokenView::Sym(_) => {
                            assert(rising(ts, k));
                        },
                        TokenView::Close => {
                            if st.open.len() == 0 {
                                assert(!rising(ts, k));
                            } else {
                                assert(rising(ts, k));
                            }
                        },
                    }
                }
            },
            Err(e) => {
                if rising(ts, k) {
                    assert(depth(ts.take(k - 1)) > 0 || k - 1 == 0);
                    assert(rising(ts, k - 1));
                }
            },
        }
    }
}

/// The reader succeeds exactly on the balanced token sequences that hold a
/// single expression, and every failure of the reader is an `SExpr`
/// failure.
pub proof fn theorem_reader_accepts(ts: Seq<TokenView>)
    ensures
        read(ts) is Ok <==> balanced(ts) && single(ts),
        read(ts) matches Err(e) ==> e is SExpr,
{
    assert(ts.take(ts.len() as int) =~= ts);
    lemma_prefix_state(ts, ts.len() as int);
    if read(ts) is Ok {
        assert forall|k: int| 0 <= k <= ts.len() implies depth(#[trigger] ts.take(k)) >= 0 by {
            if k == 0 {
                assert(ts.take(0).len() == 0);
            }
        }
    }
    if balanced(ts) && single(ts) {
        assert(rising(ts, ts.len() as int));
    }
}

/// Unbalanced parentheses make the reader fail, with an `SExpr` failure.
pub proof fn theorem_unbalanced_fails(ts: Seq<TokenView>)
    requires
        !balanced(ts),
    ensures
        read(ts) matches Err(e) && e is SExpr,
{
    theorem_reader_accepts(ts);
}

/// Balanced parentheses around a single expression make the reader
/// succeed.
pub proof fn theorem_balanced_succeeds(ts: Seq<TokenView>)
    requires
        balanced(ts),
        single(ts),
    ensures
        read(ts) is Ok,
{
    theorem_reader_accepts(ts);
}

} // verus!
