//! Dropping the posts that carry no text.
//!
//! A boost, a post that only passes on the post of someone else, arrives
//! with empty text. Such posts are left out of the feed. Text that is not
//! empty is kept, whatever it holds.

use vstd::prelude::*;
use crate::model::{entry_views, lemma_entry_views_push, EntryView, TootContext};

verus! {

/// Whether a post carries text of its own. A boost arrives with none.
pub open spec fn is_substantive(e: EntryView) -> bool {
    e.content.len() > 0
}

/// The posts of `s` that carry text of their own, in the order of `s`.
pub open spec fn substantive(s: Seq<EntryView>) -> Seq<EntryView> {
    s.filter(|e: EntryView| is_substantive(e))
}

/// Filtering drops the posts without text, all of them, and no other post:
/// a post with text is in the result as often as in `s`, a post without
/// text is not in it.
pub proof fn lemma_substantive_exact(s: Seq<EntryView>, e: EntryView)
    ensures
        substantive(s).to_multiset().count(e) == if is_substantive(e) {
            s.to_multiset().count(e)
        } else {
            0
        },
    decreases s.len(),
{
    broadcast use vstd::multiset::group_multiset_axioms;

    let keep = |x: EntryView| is_substantive(x);
    if s.len() == 0 {
        reveal(Seq::filter);
        assert(s.to_multiset().count(e) == 0) by {
            s.to_multiset_ensures();
        }
    } else {
        let front = s.drop_last();
        lemma_substantive_exact(front, e);
        assert(s =~= front.push(s.last()));
        front.lemma_filter_push(s.last(), keep);
        vstd::seq_lib::to_multiset_build(front, s.last());
        if is_substantive(s.last()) {
            vstd::seq_lib::to_multiset_build(front.filter(keep), s.last());
        }
    }
}

/// Filtering leaves no post without text, makes the list no longer, and
/// leaves a list alone in which every post carries text.
pub proof fn lemma_substantive_in_order(s: Seq<EntryView>)
    ensures
        substantive(s).len() <= s.len(),
        forall|i: int| 0 <= i < substantive(s).len() ==> is_substantive(#[trigger] substantive(s)[i]),
        (forall|i: int| 0 <= i < s.len() ==> is_substantive(#[trigger] s[i])) ==> substantive(s) == s,
    decreases s.len(),
{
    broadcast use vstd::seq_lib::group_filter_ensures;

    let keep = |x: EntryView| is_substantive(x);
    if s.len() == 0 {
        reveal(Seq::filter);
    } else {
        let front = s.drop_last();
        lemma_substantive_in_order(front);
        assert(s =~= front.push(s.last()));
        front.lemma_filter_push(s.last(), keep);
        if forall|i: int| 0 <= i < s.len() ==> is_substantive(#[trigger] s[i]) {
            assert forall|i: int| 0 <= i < front.len() implies is_substantive(
                #[trigger] front[i],
            ) by {
                assert(front[i] == s[i]);
            }
        }
    }
}

/// Drops every post without text of its own and keeps the others in order.
pub fn drop_empty(entries: Vec<TootContext>) -> (kept: Vec<TootContext>)
    ensures
        entry_views(kept@) == substantive(entry_views(entries@)),
{
    let ghost all = entries@;
    let mut kept: Vec<TootContext> = Vec::new();
    for e in it: entries
        invariant
            it.seq() == all,
            it.index() <= all.len(),
            entry_views(kept@) == substantive(entry_views(all.take(it.index()))),
    {
        proof {
            let seen = all.take(it.index());
            assert(all.take(it.index() + 1) =~= seen.push(e));
            lemma_entry_views_push(seen, e);
            entry_views(seen).lemma_filter_push(e@, |x: EntryView| is_substantive(x));
            lemma_entry_views_push(kept@, e);
        }
        if e.has_content() {
            kept.push(e);
        }
    }
    assert(all.take(all.len() as int) =~= all);
    kept
}

} // verus!
