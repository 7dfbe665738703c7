//! The feed as an HTML fragment.
//!
//! Every post becomes one block of a fixed shape: the avatar of its author,
//! a link to the author's profile that reads as the author's name, the
//! timestamp and the text. The blocks follow each other in the order of the
//! feed. What comes from the remote service is escaped before it is put into
//! a block.

use vstd::prelude::*;
use crate::escape::{
    delimiter_free, escape, escape_into, is_delimiter, lemma_escape_delimiter_free,
    lemma_escape_injective,
};
use crate::model::{entry_views, EntryView, TootContext};

verus! {

/// The block up to the address of the avatar.
pub const BLOCK_HEAD: &'static str =
    "\n            <div style=\"border: 1px solid #000; background-color: #eef; padding: 5px; margin: 5px\">\n                <div style=\"display: flow-root\">\n                    <img src=\"";

/// From the address of the avatar to the address of the profile.
pub const AFTER_AVATAR: &'static str =
    "\" align=\"left\" width=\"64\" height=\"64\" />\n                    <a href=\"";

/// From the address of the profile to the name.
pub const AFTER_PROFILE: &'static str = "\" target=\"_blank\">";

/// From the name to the timestamp.
pub const AFTER_NAME: &'static str = "</a><br />\n                    ";

/// From the timestamp to the text.
pub const AFTER_STAMP: &'static str =
    "\n                </div>\n                <div>\n                    ";

/// The block behind the text.
pub const BLOCK_TAIL: &'static str = "\n                </div>\n            </div>\n            ";

/// The block of one post.
pub open spec fn block(e: EntryView) -> Seq<char> {
    BLOCK_HEAD@ + escape(e.account.avatar) + AFTER_AVATAR@ + escape(e.account.url)
        + AFTER_PROFILE@ + escape(e.account.username) + AFTER_NAME@ + escape(e.created_at)
        + AFTER_STAMP@ + escape(e.content) + BLOCK_TAIL@
}

/// The blocks of all posts of a feed, in the order of the feed.
pub open spec fn page(feed: Seq<EntryView>) -> Seq<char> {
    feed.map_values(|e: EntryView| block(e)).flatten()
}

/// The frame of a block: all of the block that does not come from the post.
pub open spec fn frame() -> Seq<char> {
    BLOCK_HEAD@ + AFTER_AVATAR@ + AFTER_PROFILE@ + AFTER_NAME@ + AFTER_STAMP@ + BLOCK_TAIL@
}

/// The delimiters of `text`, in order.
pub open spec fn delimiters(text: Seq<char>) -> Seq<char> {
    text.filter(|c: char| is_delimiter(c))
}

/// Whether the first delimiter of `joint` stands at index `at`.
pub open spec fn first_delimiter_at(joint: Seq<char>, at: int) -> bool {
    &&& 0 <= at < joint.len()
    &&& is_delimiter(joint[at])
    &&& forall|i: int| 0 <= i < at ==> !is_delimiter(#[trigger] joint[i])
}

/// Every part of the frame that follows a field of the post has a
/// delimiter, and this is where the first one stands.
proof fn lemma_joints()
    ensures
        first_delimiter_at(AFTER_AVATAR@, 0),
        first_delimiter_at(AFTER_PROFILE@, 0),
        first_delimiter_at(AFTER_NAME@, 0),
        first_delimiter_at(AFTER_STAMP@, 17),
        first_delimiter_at(BLOCK_TAIL@, 17),
{
    reveal_strlit("\" align=\"left\" width=\"64\" height=\"64\" />\n                    <a href=\"");
    reveal_strlit("\" target=\"_blank\">");
    reveal_strlit("</a><br />\n                    ");
    reveal_strlit("\n                </div>\n                <div>\n                    ");
    reveal_strlit("\n                </div>\n            </div>\n            ");
}

/// Text without delimiters adds none.
proof fn lemma_no_delimiters(text: Seq<char>)
    requires
        delimiter_free(text),
    ensures
        delimiters(text) == Seq::<char>::empty(),
{
    text.lemma_all_neg_filter_empty(|c: char| is_delimiter(c));
}

/// The delimiters of two texts put end to end.
proof fn lemma_delimiters_add(front: Seq<char>, back: Seq<char>)
    ensures
        delimiters(front + back) == delimiters(front) + delimiters(back),
{
    Seq::filter_distributes_over_add(front, back, |c: char| is_delimiter(c));
}

/// Whatever a post holds, the delimiters of its block are those of the
/// frame: the post adds no tag and ends no attribute.
pub proof fn lemma_block_delimiters(e: EntryView)
    ensures
        delimiters(block(e)) == delimiters(frame()),
{
    let none = Seq::<char>::empty();
    let a = escape(e.account.avatar);
    let u = escape(e.account.url);
    let n = escape(e.account.username);
    let t = escape(e.created_at);
    let c = escape(e.content);
    lemma_escape_delimiter_free(e.account.avatar);
    lemma_escape_delimiter_free(e.account.url);
    lemma_escape_delimiter_free(e.account.username);
    lemma_escape_delimiter_free(e.created_at);
    lemma_escape_delimiter_free(e.content);
    lemma_no_delimiters(a);
    lemma_no_delimiters(u);
    lemma_no_delimiters(n);
    lemma_no_delimiters(t);
    lemma_no_delimiters(c);
    let b1 = BLOCK_HEAD@ + a;
    let b2 = b1 + AFTER_AVATAR@;
    let b3 = b2 + u;
    let b4 = b3 + AFTER_PROFILE@;
    let b5 = b4 + n;
    let b6 = b5 + AFTER_NAME@;
    let b7 = b6 + t;
    let b8 = b7 + AFTER_STAMP@;
    let b9 = b8 + c;
    lemma_delimiters_add(BLOCK_HEAD@, a);
    lemma_delimiters_add(b1, AFTER_AVATAR@);
    lemma_delimiters_add(b2, u);
    lemma_delimiters_add(b3, AFTER_PROFILE@);
    lemma_delimiters_add(b4, n);
    lemma_delimiters_add(b5, AFTER_NAME@);
    lemma_delimiters_add(b6, t);
    lemma_delimiters_add(b7, AFTER_STAMP@);
    lemma_delimiters_add(b8, c);
    lemma_delimiters_add(b9, BLOCK_TAIL@);
    let f1 = BLOCK_HEAD@ + AFTER_AVATAR@;
    let f2 = f1 + AFTER_PROFILE@;
    let f3 = f2 + AFTER_NAME@;
    let f4 = f3 + AFTER_STAMP@;
    lemma_delimiters_add(BLOCK_HEAD@, AFTER_AVATAR@);
    lemma_delimiters_add(f1, AFTER_PROFILE@);
    lemma_delimiters_add(f2, AFTER_NAME@);
    lemma_delimiters_add(f3, AFTER_STAMP@);
    lemma_delimiters_add(f4, BLOCK_TAIL@);
    assert(delimiters(BLOCK_HEAD@) + none =~= delimiters(BLOCK_HEAD@));
    assert(delimiters(b2) + none =~= delimiters(b2));
    assert(delimiters(b4) + none =~= delimiters(b4));
    assert(delimiters(b6) + none =~= delimiters(b6));
    assert(delimiters(b8) + none =~= delimiters(b8));
}

/// A text that ends at a joint ends there and nowhere else: where two texts
/// without delimiters, each followed by the same joint, give the same
/// whole, the texts are the same and so is what follows.
proof fn lemma_ends_at_joint(
    x1: Seq<char>,
    r1: Seq<char>,
    x2: Seq<char>,
    r2: Seq<char>,
    joint: Seq<char>,
    at: int,
)
    requires
        delimiter_free(x1),
        delimiter_free(x2),
        first_delimiter_at(joint, at),
        x1 + (joint + r1) == x2 + (joint + r2),
    ensures
        x1 == x2,
        r1 == r2,
{
    let w1 = x1 + (joint + r1);
    let w2 = x2 + (joint + r2);
    if x1.len() < x2.len() {
        let p = x1.len() + at;
        assert(w1[p] == joint[at]);
        if p < x2.len() {
            assert(w2[p] == x2[p]);
        } else {
            assert(w2[p] == joint[p - x2.len()]);
        }
        assert(false);
    }
    if x2.len() < x1.len() {
        let p = x2.len() + at;
        assert(w2[p] == joint[at]);
        if p < x1.len() {
            assert(w1[p] == x1[p]);
        } else {
            assert(w1[p] == joint[p - x1.len()]);
        }
        assert(false);
    }
    assert(x1 =~= x2) by {
        assert forall|i: int| 0 <= i < x1.len() implies x1[i] == x2[i] by {
            assert(w1[i] == x1[i]);
            assert(w2[i] == x2[i]);
        }
    }
    assert(w1.len() == x1.len() + joint.len() + r1.len());
    assert(w2.len() == x2.len() + joint.len() + r2.len());
    assert(r1 =~= r2) by {
        assert forall|i: int| 0 <= i < r1.len() implies r1[i] == r2[i] by {
            let p = x1.len() + joint.len() + i;
            assert(w1[p] == r1[i]);
            assert(w2[p] == r2[i]);
        }
    }
}

/// A block from its text on, with `rest` behind the block.
spec fn from_content(e: EntryView, rest: Seq<char>) -> Seq<char> {
    escape(e.content) + (BLOCK_TAIL@ + rest)
}

/// A block from its timestamp on, with `rest` behind the block.
spec fn from_stamp(e: EntryView, rest: Seq<char>) -> Seq<char> {
    escape(e.created_at) + (AFTER_STAMP@ + from_content(e, rest))
}

/// A block from the name on, with `rest` behind the block.
spec fn from_name(e: EntryView, rest: Seq<char>) -> Seq<char> {
    escape(e.account.username) + (AFTER_NAME@ + from_stamp(e, rest))
}

/// A block from the address of the profile on, with `rest` behind the block.
spec fn from_profile(e: EntryView, rest: Seq<char>) -> Seq<char> {
    escape(e.account.url) + (AFTER_PROFILE@ + from_name(e, rest))
}

/// A block from the address of the avatar on, with `rest` behind the block.
spec fn from_avatar(e: EntryView, rest: Seq<char>) -> Seq<char> {
    escape(e.account.avatar) + (AFTER_AVATAR@ + from_profile(e, rest))
}

/// A block followed by more text, written from the right.
proof fn lemma_block_from_the_right(e: EntryView, rest: Seq<char>)
    ensures
        block(e) + rest == BLOCK_HEAD@ + from_avatar(e, rest),
{
    assert(block(e) + rest =~= BLOCK_HEAD@ + from_avatar(e, rest));
}

/// A page begins with one block only: where a block followed by some text
/// is the same as a block followed by some text, the two blocks are of the
/// same post and the same text follows.
pub proof fn lemma_block_read_back(e1: EntryView, rest1: Seq<char>, e2: EntryView, rest2: Seq<char>)
    requires
        block(e1) + rest1 == block(e2) + rest2,
    ensures
        e1 == e2,
        rest1 == rest2,
{
    lemma_joints();
    lemma_block_from_the_right(e1, rest1);
    lemma_block_from_the_right(e2, rest2);
    lemma_escape_delimiter_free(e1.account.avatar);
    lemma_escape_delimiter_free(e1.account.url);
    lemma_escape_delimiter_free(e1.account.username);
    lemma_escape_delimiter_free(e1.created_at);
    lemma_escape_delimiter_free(e1.content);
    lemma_escape_delimiter_free(e2.account.avatar);
    lemma_escape_delimiter_free(e2.account.url);
    lemma_escape_delimiter_free(e2.account.username);
    lemma_escape_delimiter_free(e2.created_at);
    lemma_escape_delimiter_free(e2.content);
    let t0a = from_avatar(e1, rest1);
    let t0b = from_avatar(e2, rest2);
    assert(t0a =~= t0b) by {
        let w1 = BLOCK_HEAD@ + t0a;
        let w2 = BLOCK_HEAD@ + t0b;
        assert(w1.len() == w2.len());
        assert forall|i: int| 0 <= i < t0a.len() implies t0a[i] == t0b[i] by {
            assert(w1[BLOCK_HEAD@.len() + i] == t0a[i]);
            assert(w2[BLOCK_HEAD@.len() + i] == t0b[i]);
        }
    }
    lemma_ends_at_joint(
        escape(e1.account.avatar),
        from_profile(e1, rest1),
        escape(e2.account.avatar),
        from_profile(e2, rest2),
        AFTER_AVATAR@,
        0,
    );
    lemma_ends_at_joint(
        escape(e1.account.url),
        from_name(e1, rest1),
        escape(e2.account.url),
        from_name(e2, rest2),
        AFTER_PROFILE@,
        0,
    );
    lemma_ends_at_joint(
        escape(e1.account.username),
        from_stamp(e1, rest1),
        escape(e2.account.username),
        from_stamp(e2, rest2),
        AFTER_NAME@,
        0,
    );
    lemma_ends_at_joint(
        escape(e1.created_at),
        from_content(e1, rest1),
        escape(e2.created_at),
        from_content(e2, rest2),
        AFTER_STAMP@,
        17,
    );
    lemma_ends_at_joint(escape(e1.content), rest1, escape(e2.content), rest2, BLOCK_TAIL@, 17);
    lemma_escape_injective(e1.account.avatar, e2.account.avatar);
    lemma_escape_injective(e1.account.url, e2.account.url);
    lemma_escape_injective(e1.account.username, e2.account.username);
    lemma_escape_injective(e1.created_at, e2.created_at);
    lemma_escape_injective(e1.content, e2.content);
}

/// The page of a feed, read from its first post.
pub proof fn lemma_page_first(feed: Seq<EntryView>)
    requires
        feed.len() > 0,
    ensures
        page(feed) == block(feed[0]) + page(feed.drop_first()),
{
    let blocks = feed.map_values(|e: EntryView| block(e));
    assert(blocks.drop_first() =~= feed.drop_first().map_values(|e: EntryView| block(e)));
}

/// The page of a feed that grew by one post at its end.
pub proof fn lemma_page_push(feed: Seq<EntryView>, e: EntryView)
    ensures
        page(feed.push(e)) == page(feed) + block(e),
{
    let blocks = feed.map_values(|x: EntryView| block(x));
    assert(feed.push(e).map_values(|x: EntryView| block(x)) =~= blocks.push(block(e)));
    blocks.lemma_flatten_push(block(e));
}

/// A page is empty for the feed without posts, and for no other feed.
pub proof fn lemma_page_of_none(feed: Seq<EntryView>)
    ensures
        page(feed).len() == 0 <==> feed.len() == 0,
{
    if feed.len() == 0 {
        assert(feed.map_values(|e: EntryView| block(e)) =~= Seq::<Seq<char>>::empty());
    } else {
        lemma_joints();
        lemma_page_first(feed);
        assert(block(feed[0]).len() >= AFTER_PROFILE@.len());
    }
}

/// Rendering can be read back: two feeds with the same page are the same
/// feed, post by post and field by field.
pub proof fn lemma_page_injective(a: Seq<EntryView>, b: Seq<EntryView>)
    requires
        page(a) == page(b),
    ensures
        a == b,
    decreases a.len(),
{
    if a.len() == 0 || b.len() == 0 {
        lemma_page_of_none(a);
        lemma_page_of_none(b);
        assert(a =~= b);
    } else {
        lemma_page_first(a);
        lemma_page_first(b);
        lemma_block_read_back(a[0], page(a.drop_first()), b[0], page(b.drop_first()));
        lemma_page_injective(a.drop_first(), b.drop_first());
        assert(a =~= seq![a[0]] + a.drop_first());
        assert(b =~= seq![b[0]] + b.drop_first());
    }
}

/// Appends the block of one post to `out`.
pub fn render_entry(out: &mut String, entry: &TootContext)
    ensures
        final(out)@ == old(out)@ + block(entry@),
{
    let ghost start = out@;
    out.append(BLOCK_HEAD);
    escape_into(out, entry.account.avatar.as_str());
    out.append(AFTER_AVATAR);
    escape_into(out, entry.account.url.as_str());
    out.append(AFTER_PROFILE);
    escape_into(out, entry.account.username.as_str());
    out.append(AFTER_NAME);
    escape_into(out, entry.created_at.as_str());
    out.append(AFTER_STAMP);
    escape_into(out, entry.content.as_str());
    out.append(BLOCK_TAIL);
    assert(out@ =~= start + block(entry@));
}

/// Renders a feed: the blocks of its posts, in its order. Nothing is left
/// out and nothing is moved.
pub fn render(feed: &Vec<TootContext>) -> (body: String)
    ensures
        body@ == page(entry_views(feed@)),
{
    let mut body = String::new();
    let mut i: usize = 0;
    assert(page(entry_views(feed@.take(0))) =~= body@) by {
        assert(entry_views(feed@.take(0)).map_values(|e: EntryView| block(e)) =~= Seq::<
            Seq<char>,
        >::empty());
    }
    while i < feed.len()
        invariant
            i <= feed@.len(),
            body@ == page(entry_views(feed@.take(i as int))),
        decreases feed@.len() - i,
    {
        proof {
            let seen = entry_views(feed@.take(i as int));
            assert(entry_views(feed@.take(i + 1)) =~= seen.push(feed@[i as int]@));
            lemma_page_push(seen, feed@[i as int]@);
        }
        render_entry(&mut body, &feed[i]);
        i += 1;
    }
    assert(feed@.take(feed@.len() as int) =~= feed@);
    body
}

} // verus!
