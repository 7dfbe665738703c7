//! Escaping of text for HTML.
//!
//! Whatever a remote service sends is put into the page as text, never as
//! markup: the five characters that HTML reads as markup are written as
//! character references.

use vstd::prelude::*;

verus! {

/// Taken on trust from the documentation of the standard library, not
/// proved here: `String::push` appends the given character to the end of the
/// string and leaves the characters before it as they are.
pub assume_specification[ String::push ](s: &mut String, ch: char)
    ensures
        final(s)@ == old(s)@.push(ch),
;

/// Whether HTML reads the character as markup: the start or end of a tag, the
/// start of a character reference, or a quote that ends an attribute.
pub open spec fn is_markup(c: char) -> bool {
    c == '&' || c == '<' || c == '>' || c == '"' || c == '\''
}

/// What stands for one character in escaped text: its character reference
/// if HTML reads it as markup, else the character itself.
pub open spec fn escape_char(c: char) -> Seq<char> {
    if c == '&' {
        seq!['&', 'a', 'm', 'p', ';']
    } else if c == '<' {
        seq!['&', 'l', 't', ';']
    } else if c == '>' {
        seq!['&', 'g', 't', ';']
    } else if c == '"' {
        seq!['&', 'q', 'u', 'o', 't', ';']
    } else if c == '\'' {
        seq!['&', '#', 'x', '2', '7', ';']
    } else {
        seq![c]
    }
}

/// The escaped form of a text: what stands for each of its characters, in
/// order.
pub open spec fn escape(text: Seq<char>) -> Seq<char> {
    text.map_values(|c: char| escape_char(c)).flatten()
}

/// Whether the character ends text in a page: it opens or closes a tag, or
/// closes a quoted attribute.
pub open spec fn is_delimiter(c: char) -> bool {
    c == '<' || c == '>' || c == '"' || c == '\''
}

/// Whether no character of `text` is a delimiter.
pub open spec fn delimiter_free(text: Seq<char>) -> bool {
    forall|i: int| 0 <= i < text.len() ==> !is_delimiter(#[trigger] text[i])
}

/// Whether a character reference of one of the markup characters stands in
/// `text` at index `at`.
pub open spec fn reference_at(text: Seq<char>, at: int) -> bool {
    exists|c: char|
        is_markup(c) && 0 <= at && at + escape_char(c).len() <= text.len() && text.subrange(
            at,
            at + escape_char(c).len(),
        ) == #[trigger] escape_char(c)
}

/// Reads escaped text back: every character reference of a markup character
/// becomes that character, and every other character stays.
pub open spec fn unescape(text: Seq<char>) -> Seq<char>
    decreases text.len(),
{
    if text.len() == 0 {
        text
    } else if escape_char('&').is_prefix_of(text) {
        seq!['&'] + unescape(text.skip(5))
    } else if escape_char('<').is_prefix_of(text) {
        seq!['<'] + unescape(text.skip(4))
    } else if escape_char('>').is_prefix_of(text) {
        seq!['>'] + unescape(text.skip(4))
    } else if escape_char('"').is_prefix_of(text) {
        seq!['"'] + unescape(text.skip(6))
    } else if escape_char('\'').is_prefix_of(text) {
        seq!['\''] + unescape(text.skip(6))
    } else {
        seq![text[0]] + unescape(text.skip(1))
    }
}

/// The escaped form of the empty text is empty.
pub proof fn lemma_escape_empty()
    ensures
        escape(Seq::<char>::empty()) == Seq::<char>::empty(),
{
    assert(Seq::<char>::empty().map_values(|x: char| escape_char(x)) =~= Seq::<Seq<char>>::empty());
}

/// The escaped form of a text that grew by one character at its end.
pub proof fn lemma_escape_push(text: Seq<char>, c: char)
    ensures
        escape(text.push(c)) == escape(text) + escape_char(c),
{
    let parts = text.map_values(|x: char| escape_char(x));
    assert(text.push(c).map_values(|x: char| escape_char(x)) =~= parts.push(escape_char(c)));
    parts.lemma_flatten_push(escape_char(c));
}

/// The escaped form of a text, read from its first character.
pub proof fn lemma_escape_first(text: Seq<char>)
    requires
        text.len() > 0,
    ensures
        escape(text) == escape_char(text[0]) + escape(text.drop_first()),
{
    let parts = text.map_values(|x: char| escape_char(x));
    assert(parts.drop_first() =~= text.drop_first().map_values(|x: char| escape_char(x)));
}

/// Text that holds no markup character is its own escaped form: an
/// address, a name or a timestamp of the usual form stands in the page as
/// it is.
pub proof fn lemma_escape_of_plain(text: Seq<char>)
    requires
        forall|i: int| 0 <= i < text.len() ==> !is_markup(#[trigger] text[i]),
    ensures
        escape(text) == text,
    decreases text.len(),
{
    if text.len() == 0 {
        lemma_escape_empty();
        assert(text =~= Seq::<char>::empty());
    } else {
        let front = text.drop_last();
        assert forall|i: int| 0 <= i < front.len() implies !is_markup(#[trigger] front[i]) by {
            assert(front[i] == text[i]);
        }
        lemma_escape_of_plain(front);
        assert(text =~= front.push(text.last()));
        lemma_escape_push(front, text.last());
        assert(!is_markup(text[text.len() - 1]));
        assert(escape(text) =~= text);
    }
}

/// Escaped text holds no delimiter: whatever the text was, it neither opens
/// nor closes a tag and closes no quoted attribute.
pub proof fn lemma_escape_delimiter_free(text: Seq<char>)
    ensures
        delimiter_free(escape(text)),
    decreases text.len(),
{
    if text.len() == 0 {
        lemma_escape_empty();
        assert(text =~= Seq::<char>::empty());
    } else {
        let front = text.drop_last();
        lemma_escape_delimiter_free(front);
        assert(text =~= front.push(text.last()));
        lemma_escape_push(front, text.last());
    }
}

/// Every `&` of escaped text begins a character reference that the
/// escaping wrote.
pub proof fn lemma_escape_ampersands(text: Seq<char>)
    ensures
        forall|i: int|
            0 <= i < escape(text).len() && escape(text)[i] == '&' ==> #[trigger] reference_at(
                escape(text),
                i,
            ),
    decreases text.len(),
{
    if text.len() == 0 {
        lemma_escape_empty();
        assert(text =~= Seq::<char>::empty());
    } else {
        let front = text.drop_last();
        let c = text.last();
        let done = escape(front);
        let whole = escape(text);
        lemma_escape_ampersands(front);
        assert(text =~= front.push(c));
        lemma_escape_push(front, c);
        assert forall|i: int| 0 <= i < whole.len() && whole[i] == '&' implies #[trigger] reference_at(
            whole,
            i,
        ) by {
            if i < done.len() {
                assert(reference_at(done, i));
                let r = choose|r: char|
                    is_markup(r) && 0 <= i && i + escape_char(r).len() <= done.len()
                        && done.subrange(i, i + escape_char(r).len()) == #[trigger] escape_char(r);
                assert(whole.subrange(i, i + escape_char(r).len()) =~= done.subrange(
                    i,
                    i + escape_char(r).len(),
                ));
            } else {
                assert(whole[i] == escape_char(c)[i - done.len()]);
                assert(is_markup(c) && i == done.len());
                assert(whole.subrange(i, i + escape_char(c).len()) =~= escape_char(c));
            }
        }
    }
}

/// Escaping can be read back: unescaping the escaped form of a text gives
/// the text.
pub proof fn lemma_unescape_escape(text: Seq<char>)
    ensures
        unescape(escape(text)) == text,
    decreases text.len(),
{
    if text.len() == 0 {
        lemma_escape_empty();
        assert(text =~= Seq::<char>::empty());
    } else {
        let c = text[0];
        let rest = text.drop_first();
        let whole = escape(text);
        lemma_escape_first(text);
        lemma_unescape_escape(rest);
        assert(whole.skip(escape_char(c).len() as int) =~= escape(rest));
        assert(escape_char(c).is_prefix_of(whole));
        assert(whole[0] == escape_char(c)[0]);
        if is_markup(c) {
            assert(whole[1] == escape_char(c)[1]);
        }
        assert(text =~= seq![c] + rest);
    }
}

/// No two texts have the same escaped form.
pub proof fn lemma_escape_injective(a: Seq<char>, b: Seq<char>)
    requires
        escape(a) == escape(b),
    ensures
        a == b,
{
    lemma_unescape_escape(a);
    lemma_unescape_escape(b);
}

/// Appends the escaped form of `text` to `out`.
pub fn escape_into(out: &mut String, text: &str)
    ensures
        final(out)@ == old(out)@ + escape(text@),
{
    broadcast use vstd::string::group_string_axioms;

    let ghost start = out@;
    proof {
        lemma_escape_empty();
        assert(text@.take(0) =~= Seq::<char>::empty());
    }
    for c in it: text.chars()
        invariant
            it.seq() == text@,
            it.index() <= text@.len(),
            out@ == start + escape(text@.take(it.index())),
    {
        let ghost before = out@;
        if c == '&' {
            out.append("&amp;");
        } else if c == '<' {
            out.append("&lt;");
        } else if c == '>' {
            out.append("&gt;");
        } else if c == '"' {
            out.append("&quot;");
        } else if c == '\'' {
            out.append("&#x27;");
        } else {
            out.push(c);
        }
        proof {
            reveal_strlit("&amp;");
            reveal_strlit("&lt;");
            reveal_strlit("&gt;");
            reveal_strlit("&quot;");
            reveal_strlit("&#x27;");
            assert(out@ =~= before + escape_char(c));
            let seen = text@.take(it.index());
            assert(text@.take(it.index() + 1) =~= seen.push(c));
            lemma_escape_push(seen, c);
            assert(out@ =~= start + escape(text@.take(it.index() + 1)));
        }
    }
    assert(text@.take(text@.len() as int) =~= text@);
}

/// The escaped form of `text`.
pub fn escape_html(text: &str) -> (escaped: String)
    ensures
        escaped@ == escape(text@),
{
    let mut escaped = String::new();
    escape_into(&mut escaped, text);
    assert(Seq::<char>::empty() + escape(text@) =~= escape(text@));
    escaped
}

} // verus!
