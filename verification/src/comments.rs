//! Datum comments: what is left of the tokens once they are taken out.

use crate::laws;
use crate::layout;
use crate::lexical;
use crate::lexical::{SpannedView, TokenView};
use crate::model::DatumView;
use crate::soundness;
use crate::surroundings;
use crate::syntax;
use crate::syntax::uncommented;
use crate::writing;
use vstd::prelude::*;

verus! {

/// The end of input alone stays what it is.
pub proof fn lemma_end_only(t: Seq<SpannedView>)
    requires
        t.len() == 1,
        t[0].token is Eof,
    ensures
        uncommented(t) == t,
{
    let rest = t.subrange(1, 1);
    assert(rest =~= Seq::empty());
    assert(uncommented(rest) =~= Seq::empty());
    assert(seq![t[0]] + uncommented(rest) =~= t);
}

/// What is left of the tokens from `i` on, by what is left of those behind.
pub proof fn lemma_uncommented_from(t: Seq<SpannedView>, i: int)
    requires
        0 <= i < t.len(),
    ensures
        uncommented(t.subrange(i, t.len() as int)) == ({
            let rest = uncommented(t.subrange(i + 1, t.len() as int));
            match syntax::datum(rest, 0) {
                Ok((_, q)) if t[i].token is DatumComment => rest.subrange(q, rest.len() as int),
                _ => seq![t[i]] + rest,
            }
        }),
{
    let s = t.subrange(i, t.len() as int);
    assert(s.subrange(1, s.len() as int) =~= t.subrange(i + 1, t.len() as int));
}

/// What is left ends in the end of input, and holds no other token than there
/// were.
pub proof fn lemma_uncommented_ends(t: Seq<SpannedView>)
    requires
        soundness::ends(t),
    ensures
        soundness::ends(uncommented(t)),
        forall|k: int| 0 <= k < uncommented(t).len() ==> #[trigger] t.contains(uncommented(t)[k]),
    decreases t.len(),
{
    if t.len() == 1 {
        lemma_end_only(t);
        assert(t.contains(t[0]));
    } else {
        let others = t.subrange(1, t.len() as int);
        lemma_uncommented_ends(others);
        let rest = uncommented(others);
        soundness::lemma_datum(rest, 0);
        let u = uncommented(t);
        assert forall|k: int| 0 <= k < u.len() implies #[trigger] t.contains(u[k]) by {
            if t[0].token is DatumComment && syntax::datum(rest, 0) is Ok {
                let q = syntax::datum(rest, 0)->Ok_0.1;
                assert(u[k] == rest[q + k]);
                assert(others.contains(rest[q + k]));
                let j = choose|j: int| 0 <= j < others.len() && others[j] == rest[q + k];
                assert(t[j + 1] == u[k]);
            } else if k == 0 {
                assert(t[0] == u[0]);
            } else {
                assert(u[k] == rest[k - 1]);
                assert(others.contains(rest[k - 1]));
                let j = choose|j: int| 0 <= j < others.len() && others[j] == rest[k - 1];
                assert(t[j + 1] == u[k]);
            }
        }
    }
}

/// Whether no datum comment is left but those that no datum follows.
pub open spec fn settled(t: Seq<SpannedView>) -> bool {
    forall|p: int|
        0 <= p < t.len() && (#[trigger] t[p]).token is DatumComment ==> syntax::datum(
            t,
            p + 1,
        ) is Err
}

/// The tokens behind the first of settled tokens are settled.
proof fn lemma_settled_tail(t: Seq<SpannedView>, n: int)
    requires
        0 <= n <= t.len(),
        settled(t),
    ensures
        settled(t.subrange(n, t.len() as int)),
{
    let s = t.subrange(n, t.len() as int);
    layout::lemma_tail(t, n);
    assert forall|p: int|
        0 <= p < s.len() && (#[trigger] s[p]).token is DatumComment implies syntax::datum(
        s,
        p + 1,
    ) is Err by {
        assert(t[n + p] == s[p]);
        assert(syntax::datum(t, n + p + 1) is Err);
        layout::same_datum(s, t, n, p + 1, n + p + 1);
    }
}

/// One more token before settled tokens, if it is no comment that they complete.
proof fn lemma_settled_with(first: SpannedView, s: Seq<SpannedView>)
    requires
        settled(s),
        first.token is DatumComment ==> syntax::datum(s, 0) is Err,
    ensures
        settled(seq![first] + s),
{
    let t = seq![first] + s;
    assert(t.subrange(1, t.len() as int) =~= s);
    layout::lemma_tail(t, 1);
    assert forall|p: int|
        0 <= p < t.len() && (#[trigger] t[p]).token is DatumComment implies syntax::datum(
        t,
        p + 1,
    ) is Err by {
        if p > 0 {
            assert(s[p - 1] == t[p]);
        }
        layout::same_datum(s, t, 1, p, p + 1);
    }
}

/// Once the datum comments are taken out, none is left that a datum follows.
pub proof fn lemma_uncommented_settled(t: Seq<SpannedView>)
    requires
        soundness::ends(t),
    ensures
        settled(uncommented(t)),
    decreases t.len(),
{
    if t.len() == 1 {
        lemma_end_only(t);
    } else {
        let others = t.subrange(1, t.len() as int);
        lemma_uncommented_settled(others);
        lemma_uncommented_ends(others);
        let rest = uncommented(others);
        if t[0].token is DatumComment && syntax::datum(rest, 0) is Ok {
            soundness::lemma_datum(rest, 0);
            lemma_settled_tail(rest, syntax::datum(rest, 0)->Ok_0.1);
        } else {
            lemma_settled_with(t[0], rest);
        }
    }
}

/// Where no datum comment can be taken out, nothing is.
pub proof fn lemma_settled_stays(t: Seq<SpannedView>)
    requires
        soundness::ends(t),
        settled(t),
    ensures
        uncommented(t) == t,
    decreases t.len(),
{
    if t.len() == 1 {
        lemma_end_only(t);
    } else {
        let others = t.subrange(1, t.len() as int);
        lemma_settled_tail(t, 1);
        lemma_settled_stays(others);
        assert(seq![t[0]] + others =~= t);
        layout::lemma_tail(t, 1);
        layout::same_datum(others, t, 1, 0, 1);
    }
}

/// What is left of tokens depends on what is left of those at their end.
proof fn lemma_uncommented_tail(x: Seq<SpannedView>, y: Seq<SpannedView>)
    requires
        soundness::ends(y),
    ensures
        uncommented(x + y) == uncommented(x + uncommented(y)),
    decreases x.len(),
{
    if x.len() == 0 {
        lemma_uncommented_ends(y);
        lemma_uncommented_settled(y);
        lemma_settled_stays(uncommented(y));
        assert(x + y =~= y);
        assert(x + uncommented(y) =~= uncommented(y));
    } else {
        let others = x.subrange(1, x.len() as int);
        lemma_uncommented_tail(others, y);
        let a = x + y;
        let b = x + uncommented(y);
        assert(a.subrange(1, a.len() as int) =~= others + y);
        assert(b.subrange(1, b.len() as int) =~= others + uncommented(y));
    }
}

/// What is left holds the end of input once, if the tokens do.
pub proof fn lemma_early_eof(t: Seq<SpannedView>)
    requires
        soundness::ends(t),
        forall|k: int| 0 <= k < t.len() - 1 ==> !((#[trigger] t[k]).token is Eof),
    ensures
        forall|k: int|
            0 <= k < uncommented(t).len() - 1 ==> !((#[trigger] uncommented(t)[k]).token is Eof),
    decreases t.len(),
{
    if t.len() == 1 {
        lemma_end_only(t);
    } else {
        let others = t.subrange(1, t.len() as int);
        assert forall|k: int| 0 <= k < others.len() - 1 implies !((
        #[trigger] others[k]).token is Eof) by {
            assert(others[k] == t[k + 1]);
        }
        lemma_early_eof(others);
        lemma_uncommented_ends(others);
        let rest = uncommented(others);
        let u = uncommented(t);
        soundness::lemma_datum(rest, 0);
        assert forall|k: int| 0 <= k < u.len() - 1 implies !((#[trigger] u[k]).token is Eof) by {
            if t[0].token is DatumComment && syntax::datum(rest, 0) is Ok {
                assert(u[k] == rest[syntax::datum(rest, 0)->Ok_0.1 + k]);
            } else if k > 0 {
                assert(u[k] == rest[k - 1]);
            }
        }
    }
}

/// Tokens that hold no datum comment stay before what is left behind them.
proof fn lemma_plain_stays(x: Seq<SpannedView>, y: Seq<SpannedView>)
    requires
        forall|k: int| 0 <= k < x.len() ==> !((#[trigger] x[k]).token is DatumComment),
    ensures
        uncommented(x + y) == x + uncommented(y),
    decreases x.len(),
{
    if x.len() == 0 {
        assert(x + y =~= y);
        assert(x + uncommented(y) =~= uncommented(y));
    } else {
        let others = x.subrange(1, x.len() as int);
        lemma_plain_stays(others, y);
        let a = x + y;
        assert(a.subrange(1, a.len() as int) =~= others + y);
        assert(a[0] == x[0]);
        assert(seq![x[0]] + (others + uncommented(y)) =~= x + uncommented(y));
    }
}

/// A written datum is what is read first of what is left, and what is left
/// behind it is what is left of the tokens behind it.
proof fn lemma_comment_of(front: Seq<SpannedView>, y: Seq<SpannedView>, d: DatumView)
    requires
        soundness::ends(y),
        surroundings::tokens_of(front) == writing::datum_tokens(d),
    ensures
        syntax::datum(uncommented(front + y), 0) == Ok::<_, lexical::ErrorView>(
            (d, writing::datum_tokens(d).len() as int),
        ),
        uncommented(front + y).subrange(
            writing::datum_tokens(d).len() as int,
            uncommented(front + y).len() as int,
        ) == uncommented(y),
{
    let w = writing::datum_tokens(d);
    assert(surroundings::tokens_of(front).len() == front.len());
    writing::plain_datum(d);
    assert forall|k: int| 0 <= k < front.len() implies front[k].token == #[trigger] w[k] by {
        assert(surroundings::tokens_of(front)[k] == front[k].token);
    }
    assert forall|k: int| 0 <= k < front.len() implies !((
    #[trigger] front[k]).token is DatumComment) by {
        reveal(writing::plain);
        assert(!(w[k] is DatumComment));
    }
    lemma_plain_stays(front, y);
    let s = front + uncommented(y);
    assert(writing::stands(s, 0, w)) by {
        reveal(writing::stands);
        assert forall|k: int| 0 <= k < w.len() implies #[trigger] w[k] == s[0 + k].token by {
            assert(s[k] == front[k]);
        }
    }
    writing::law_data_are_read_back(s, 0, d);
    assert(s.subrange(w.len() as int, s.len() as int) =~= uncommented(y));
}

// ---- Laws ----

/// A datum comment may stand anywhere. Behind any tokens `before`, a `#;` and
/// the datum that begins what follows it make no difference: what is left is
/// what is left of `before` and of what stands behind the datum.
pub proof fn law_datum_comments_are_taken_out(
    before: Seq<SpannedView>,
    mark: SpannedView,
    after: Seq<SpannedView>,
    d: DatumView,
    q: int,
)
    requires
        soundness::ends(after),
        mark.token is DatumComment,
        syntax::datum(uncommented(after), 0) == Ok::<_, lexical::ErrorView>((d, q)),
    ensures
        uncommented(before + (seq![mark] + after)) == uncommented(
            before + uncommented(after).subrange(q, uncommented(after).len() as int),
        ),
{
    let s = seq![mark] + after;
    let rest = uncommented(after);
    assert(s.subrange(1, s.len() as int) =~= after);
    assert(uncommented(s) == rest.subrange(q, rest.len() as int));
    lemma_uncommented_tail(before, s);
}

/// A source with a datum comment somewhere among its tokens means the same as
/// one without it: the same tree, or the same error but for its position.
pub proof fn law_datum_comments_do_not_matter(
    a: Seq<u8>,
    b: Seq<u8>,
    before: Seq<TokenView>,
    d: DatumView,
    after: Seq<TokenView>,
)
    requires
        surroundings::kinds(lexical::tokens(a)) == Ok::<_, Seq<char>>(
            before + (seq![TokenView::DatumComment] + (writing::datum_tokens(d) + after)),
        ),
        surroundings::kinds(lexical::tokens(b)) == Ok::<_, Seq<char>>(before + after),
        after.len() > 0,
    ensures
        layout::same_result(syntax::program(a), syntax::program(b)),
        layout::same_result(syntax::expression(a), syntax::expression(b)),
{
    let t = lexical::tokens(a)->Ok_0;
    let u = lexical::tokens(b)->Ok_0;
    let w = writing::datum_tokens(d);
    let ks = surroundings::tokens_of(t);
    laws::law_single_trailing_eof(a);
    assert(ks.len() == t.len());
    let m = before.len() as int;
    let n = m + 1 + w.len() as int;
    let x = t.subrange(0, m);
    let front = t.subrange(m + 1, n);
    let y = t.subrange(n, t.len() as int);
    assert(t =~= x + (seq![t[m]] + (front + y)));
    assert(ks[m] is DatumComment);
    assert(surroundings::tokens_of(front) =~= w) by {
        assert forall|k: int| 0 <= k < w.len() implies surroundings::tokens_of(front)[k]
            == w[k] by {
            assert(ks[m + 1 + k] == w[k]);
        }
    }
    lemma_comment_of(front, y, d);
    law_datum_comments_are_taken_out(x, t[m], front + y, d, w.len() as int);
    lemma_uncommented_tail(x, y);
    assert(surroundings::tokens_of(x + y) =~= before + after) by {
        assert forall|k: int| 0 <= k < m + after.len() implies surroundings::tokens_of(x + y)[k]
            == (before + after)[k] by {
            if k < m {
                assert(ks[k] == before[k]);
            } else {
                assert(ks[n + k - m] == after[k - m]);
            }
        }
    }
    layout::lemma_uncommented_alike(x + y, u);
    layout::lemma_same_meaning(a, b);
}

/// Every other token stays where it is, and so does a `#;` that no datum
/// follows. So tokens without `#;` are left as they are.
pub proof fn law_other_tokens_stay(first: SpannedView, after: Seq<SpannedView>)
    ensures
        !(first.token is DatumComment) || syntax::datum(uncommented(after), 0) is Err
            ==> uncommented(seq![first] + after) == seq![first] + uncommented(after),
        (forall|k: int| 0 <= k < after.len() ==> !((#[trigger] after[k]).token is DatumComment))
            ==> uncommented(after) == after,
    decreases after.len(),
{
    let s = seq![first] + after;
    assert(s.subrange(1, s.len() as int) =~= after);
    if after.len() > 0 {
        let others = after.subrange(1, after.len() as int);
        law_other_tokens_stay(after[0], others);
        assert(seq![after[0]] + others =~= after);
        if forall|k: int| 0 <= k < after.len() ==> !((#[trigger] after[k]).token is DatumComment) {
            assert forall|k: int| 0 <= k < others.len() implies !((
            #[trigger] others[k]).token is DatumComment) by {
                assert(others[k] == after[k + 1]);
            }
        }
    }
}

} // verus!
