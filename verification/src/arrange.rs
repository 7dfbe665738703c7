//! Ordering the feed: the newest post first.
//!
//! Posts are ordered by their timestamps, compared as text. Posts of one
//! timestamp keep the order in which they came, so the same posts in the
//! same order always give the same feed.

use vstd::prelude::*;
use crate::model::{
    entry_views, lemma_entry_views_insert, lemma_entry_views_push, EntryView, TootContext,
};
use crate::order::{
    lemma_lex_le_reflexive, lemma_lex_le_total, lemma_lex_le_transitive, lex_le, text_le,
};

verus! {

/// Whether no post of `s` stands before a newer one.
pub open spec fn newest_first(s: Seq<EntryView>) -> bool {
    forall|i: int, j: int| 0 <= i < j < s.len() ==> lex_le(s[j].created_at, s[i].created_at)
}

/// Whether every post stands at or behind the one before it. This says as
/// much as [`newest_first`] does.
pub open spec fn neighbours_in_order(s: Seq<EntryView>) -> bool {
    forall|i: int| 0 <= i < s.len() - 1 ==> lex_le(#[trigger] s[i + 1].created_at, s[i].created_at)
}

/// Where a post stamped `stamp` joins `s`: right behind the last post of `s`
/// that is at least as new.
pub open spec fn slot(s: Seq<EntryView>, stamp: Seq<char>) -> int
    decreases s.len(),
{
    if s.len() == 0 {
        0
    } else if lex_le(stamp, s.last().created_at) {
        s.len() as int
    } else {
        slot(s.drop_last(), stamp)
    }
}

/// The posts of `s` newest first, posts of one timestamp in the order in
/// which `s` holds them.
pub open spec fn arranged(s: Seq<EntryView>) -> Seq<EntryView>
    decreases s.len(),
{
    if s.len() == 0 {
        s
    } else {
        let earlier = arranged(s.drop_last());
        earlier.insert(slot(earlier, s.last().created_at), s.last())
    }
}

/// The posts of `s` that carry the timestamp `stamp`, in the order of `s`.
pub open spec fn stamped(s: Seq<EntryView>, stamp: Seq<char>) -> Seq<EntryView> {
    s.filter(|e: EntryView| e.created_at == stamp)
}

/// Whether `at` parts `s` into the posts at least as new as `stamp`, in
/// front, and the older ones, behind.
pub open spec fn parts_by_age(s: Seq<EntryView>, stamp: Seq<char>, at: int) -> bool {
    &&& 0 <= at <= s.len()
    &&& forall|i: int| 0 <= i < at ==> lex_le(stamp, #[trigger] s[i].created_at)
    &&& forall|i: int| at <= i < s.len() ==> !lex_le(stamp, #[trigger] s[i].created_at)
}

/// In a feed that stands newest first, the slot of a timestamp parts the
/// posts at least as new from the older ones.
pub proof fn lemma_slot_parts(s: Seq<EntryView>, stamp: Seq<char>)
    requires
        newest_first(s),
    ensures
        parts_by_age(s, stamp, slot(s, stamp)),
    decreases s.len(),
{
    if s.len() > 0 {
        let front = s.drop_last();
        if lex_le(stamp, s.last().created_at) {
            assert forall|i: int| 0 <= i < s.len() implies lex_le(
                stamp,
                #[trigger] s[i].created_at,
            ) by {
                if i < s.len() - 1 {
                    lemma_lex_le_transitive(stamp, s.last().created_at, s[i].created_at);
                }
            }
        } else {
            assert forall|i: int, j: int| 0 <= i < j < front.len() implies lex_le(
                front[j].created_at,
                front[i].created_at,
            ) by {
                assert(front[i] == s[i] && front[j] == s[j]);
            }
            lemma_slot_parts(front, stamp);
            let at = slot(front, stamp);
            assert forall|i: int| 0 <= i < at implies lex_le(stamp, #[trigger] s[i].created_at) by {
                assert(front[i] == s[i]);
            }
            assert forall|i: int| at <= i < s.len() implies !lex_le(
                stamp,
                #[trigger] s[i].created_at,
            ) by {
                if i < s.len() - 1 {
                    assert(front[i] == s[i]);
                }
            }
        }
    }
}

/// Only one index parts a feed by age.
pub proof fn lemma_parts_by_age_once(s: Seq<EntryView>, stamp: Seq<char>, p: int, q: int)
    requires
        parts_by_age(s, stamp, p),
        parts_by_age(s, stamp, q),
    ensures
        p == q,
{
    if p < q {
        assert(lex_le(stamp, s[p].created_at));
    } else if q < p {
        assert(lex_le(stamp, s[q].created_at));
    }
}

/// A feed that stands newest first still does after a post has joined it at
/// its slot.
pub proof fn lemma_insert_keeps_newest_first(s: Seq<EntryView>, e: EntryView)
    requires
        newest_first(s),
    ensures
        newest_first(s.insert(slot(s, e.created_at), e)),
{
    let at = slot(s, e.created_at);
    let r = s.insert(at, e);
    lemma_slot_parts(s, e.created_at);
    assert forall|i: int, j: int| 0 <= i < j < r.len() implies lex_le(
        r[j].created_at,
        r[i].created_at,
    ) by {
        if j == at {
            assert(r[i] == s[i]);
        } else if i == at {
            assert(r[j] == s[j - 1]);
            lemma_lex_le_total(e.created_at, s[j - 1].created_at);
        } else {
            let oi = if i < at { i } else { i - 1 };
            let oj = if j < at { j } else { j - 1 };
            assert(r[i] == s[oi] && r[j] == s[oj]);
        }
    }
}

/// Posts whose neighbours are all in order stand newest first.
pub proof fn lemma_neighbours_suffice(s: Seq<EntryView>)
    requires
        neighbours_in_order(s),
    ensures
        newest_first(s),
{
    assert forall|i: int, j: int| 0 <= i < j < s.len() implies lex_le(
        s[j].created_at,
        s[i].created_at,
    ) by {
        lemma_reaches_back(s, i, j);
    }
}

proof fn lemma_reaches_back(s: Seq<EntryView>, i: int, j: int)
    requires
        neighbours_in_order(s),
        0 <= i < j < s.len(),
    ensures
        lex_le(s[j].created_at, s[i].created_at),
    decreases j - i,
{
    assert(lex_le(s[(j - 1) + 1].created_at, s[j - 1].created_at));
    if i < j - 1 {
        lemma_reaches_back(s, i, j - 1);
        lemma_lex_le_transitive(s[j].created_at, s[j - 1].created_at, s[i].created_at);
    }
}

/// Arranging puts the posts newest first: no post of the result stands
/// before a newer one, and so each post is at least as new as the next.
pub proof fn lemma_arranged_newest_first(s: Seq<EntryView>)
    ensures
        newest_first(arranged(s)),
        neighbours_in_order(arranged(s)),
    decreases s.len(),
{
    if s.len() > 0 {
        lemma_arranged_newest_first(s.drop_last());
        lemma_insert_keeps_newest_first(arranged(s.drop_last()), s.last());
    }
    let r = arranged(s);
    assert forall|i: int| 0 <= i < r.len() - 1 implies lex_le(
        #[trigger] r[i + 1].created_at,
        r[i].created_at,
    ) by {}
}

/// Arranging neither adds a post nor loses one.
pub proof fn lemma_arranged_same_posts(s: Seq<EntryView>)
    ensures
        arranged(s).to_multiset() == s.to_multiset(),
        arranged(s).len() == s.len(),
    decreases s.len(),
{
    if s.len() > 0 {
        let front = s.drop_last();
        let earlier = arranged(front);
        lemma_arranged_same_posts(front);
        lemma_arranged_newest_first(front);
        lemma_slot_parts(earlier, s.last().created_at);
        vstd::seq_lib::to_multiset_insert(earlier, slot(earlier, s.last().created_at), s.last());
        assert(s =~= front.push(s.last()));
        vstd::seq_lib::to_multiset_build(front, s.last());
    }
}

/// Arranging keeps posts of one timestamp in the order in which they came.
pub proof fn lemma_arranged_stable(s: Seq<EntryView>, stamp: Seq<char>)
    ensures
        stamped(arranged(s), stamp) == stamped(s, stamp),
    decreases s.len(),
{
    let same = |e: EntryView| e.created_at == stamp;
    if s.len() > 0 {
        let front = s.drop_last();
        let last = s.last();
        let earlier = arranged(front);
        let at = slot(earlier, last.created_at);
        lemma_arranged_stable(front, stamp);
        lemma_arranged_newest_first(front);
        lemma_slot_parts(earlier, last.created_at);
        let head = earlier.subrange(0, at);
        let tail = earlier.subrange(at, earlier.len() as int);
        assert(earlier =~= head + tail);
        assert(arranged(s) =~= head.push(last) + tail);
        Seq::filter_distributes_over_add(head, tail, same);
        Seq::filter_distributes_over_add(head.push(last), tail, same);
        head.lemma_filter_push(last, same);
        assert(s =~= front.push(last));
        front.lemma_filter_push(last, same);
        if last.created_at == stamp {
            assert forall|i: int| 0 <= i < tail.len() implies !same(#[trigger] tail[i]) by {
                assert(tail[i] == earlier[at + i]);
                lemma_lex_le_reflexive(stamp);
            }
            tail.lemma_all_neg_filter_empty(same);
            assert(head.filter(same) + tail.filter(same) =~= head.filter(same));
            assert(head.filter(same).push(last) + tail.filter(same) =~= head.filter(same).push(
                last,
            ));
        }
    }
}

/// Finds the slot of a timestamp in a feed that stands newest first.
fn find_slot(sorted: &Vec<TootContext>, stamp: &str) -> (at: usize)
    requires
        newest_first(entry_views(sorted@)),
    ensures
        at == slot(entry_views(sorted@), stamp@),
        at <= sorted@.len(),
{
    let ghost s = entry_views(sorted@);
    let mut lo: usize = 0;
    let mut hi: usize = sorted.len();
    while lo < hi
        invariant
            s == entry_views(sorted@),
            newest_first(s),
            lo <= hi <= s.len(),
            forall|i: int| 0 <= i < lo ==> lex_le(stamp@, #[trigger] s[i].created_at),
            forall|i: int| hi <= i < s.len() ==> !lex_le(stamp@, #[trigger] s[i].created_at),
        decreases hi - lo,
    {
        let mid = lo + (hi - lo) / 2;
        if text_le(stamp, sorted[mid].created_at.as_str()) {
            assert forall|i: int| 0 <= i < mid + 1 implies lex_le(
                stamp@,
                #[trigger] s[i].created_at,
            ) by {
                if i < mid {
                    lemma_lex_le_transitive(stamp@, s[mid as int].created_at, s[i].created_at);
                }
            }
            lo = mid + 1;
        } else {
            assert forall|i: int| mid <= i < s.len() implies !lex_le(
                stamp@,
                #[trigger] s[i].created_at,
            ) by {
                if i > mid && lex_le(stamp@, s[i].created_at) {
                    lemma_lex_le_transitive(stamp@, s[i].created_at, s[mid as int].created_at);
                }
            }
            hi = mid;
        }
    }
    proof {
        lemma_slot_parts(s, stamp@);
        lemma_parts_by_age_once(s, stamp@, lo as int, slot(s, stamp@));
    }
    lo
}

/// Orders the posts newest first. Posts of one timestamp keep the order in
/// which they came.
pub fn sort_newest_first(entries: Vec<TootContext>) -> (sorted: Vec<TootContext>)
    ensures
        entry_views(sorted@) == arranged(entry_views(entries@)),
        newest_first(entry_views(sorted@)),
        entry_views(sorted@).to_multiset() == entry_views(entries@).to_multiset(),
        forall|stamp: Seq<char>|
            #[trigger] stamped(entry_views(sorted@), stamp) == stamped(entry_views(entries@), stamp),
{
    let ghost all = entries@;
    let mut sorted: Vec<TootContext> = Vec::new();
    assert(entry_views(all.take(0)) =~= entry_views(sorted@));
    for e in it: entries
        invariant
            it.seq() == all,
            it.index() <= all.len(),
            entry_views(sorted@) == arranged(entry_views(all.take(it.index()))),
            newest_first(entry_views(sorted@)),
    {
        let at = find_slot(&sorted, e.created_at.as_str());
        proof {
            let seen = all.take(it.index());
            assert(all.take(it.index() + 1) =~= seen.push(e));
            lemma_entry_views_push(seen, e);
            assert(entry_views(seen).push(e@).drop_last() =~= entry_views(seen));
            lemma_entry_views_insert(sorted@, at as int, e);
            lemma_insert_keeps_newest_first(entry_views(sorted@), e@);
        }
        sorted.insert(at, e);
    }
    assert(all.take(all.len() as int) =~= all);
    proof {
        lemma_arranged_same_posts(entry_views(all));
        assert forall|stamp: Seq<char>| #[trigger]
            stamped(entry_views(sorted@), stamp) == stamped(entry_views(all), stamp) by {
            lemma_arranged_stable(entry_views(all), stamp);
        }
    }
    sorted
}

} // verus!
