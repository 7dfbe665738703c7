//! The order of timestamps: text compared character by character.
//!
//! A timestamp is kept as the text the remote service sent. Two of them are
//! ordered as texts, which agrees with the order in time as long as the
//! service writes every timestamp in one fixed-width form.

use vstd::prelude::*;
use vstd::std_specs::iter::IteratorSpec;

verus! {

/// Whether `a` comes before `b`, or equals it, when the two are compared
/// character by character from the left, a text that ends first coming
/// before every text that continues it.
pub open spec fn lex_le(a: Seq<char>, b: Seq<char>) -> bool
    decreases a.len(),
{
    if a.len() == 0 {
        true
    } else if b.len() == 0 {
        false
    } else if a[0] == b[0] {
        lex_le(a.drop_first(), b.drop_first())
    } else {
        a[0] < b[0]
    }
}

/// Whether `k` is the place where `a` and `b` part: they agree on the `k`
/// characters before it, and at `k` one of them ends or they differ.
pub open spec fn parts_at(a: Seq<char>, b: Seq<char>, k: int) -> bool {
    &&& 0 <= k <= a.len()
    &&& k <= b.len()
    &&& forall|i: int| 0 <= i < k ==> a[i] == b[i]
    &&& k == a.len() || k == b.len() || a[k] != b[k]
}

/// Every text is at or before itself.
pub proof fn lemma_lex_le_reflexive(a: Seq<char>)
    ensures
        lex_le(a, a),
    decreases a.len(),
{
    if a.len() > 0 {
        lemma_lex_le_reflexive(a.drop_first());
    }
}

/// Of two texts, one is at or before the other.
pub proof fn lemma_lex_le_total(a: Seq<char>, b: Seq<char>)
    ensures
        lex_le(a, b) || lex_le(b, a),
    decreases a.len(),
{
    if a.len() > 0 && b.len() > 0 && a[0] == b[0] {
        lemma_lex_le_total(a.drop_first(), b.drop_first());
    }
}

/// The order carries over a text in the middle.
pub proof fn lemma_lex_le_transitive(a: Seq<char>, b: Seq<char>, c: Seq<char>)
    requires
        lex_le(a, b),
        lex_le(b, c),
    ensures
        lex_le(a, c),
    decreases a.len(),
{
    if a.len() > 0 && a[0] == b[0] && b[0] == c[0] {
        lemma_lex_le_transitive(a.drop_first(), b.drop_first(), c.drop_first());
    }
}

/// Two texts that are each at or before the other are the same text.
pub proof fn lemma_lex_le_antisymmetric(a: Seq<char>, b: Seq<char>)
    requires
        lex_le(a, b),
        lex_le(b, a),
    ensures
        a == b,
    decreases a.len(),
{
    if a.len() > 0 {
        lemma_lex_le_antisymmetric(a.drop_first(), b.drop_first());
        assert(a =~= seq![a[0]] + a.drop_first());
        assert(b =~= seq![b[0]] + b.drop_first());
    } else {
        assert(a =~= b);
    }
}

/// The order read off the place where two texts part: `a` is at or before
/// `b` exactly if `a` ends there, or both go on and `a` goes on with the
/// smaller character.
pub proof fn lemma_lex_le_by_parting(a: Seq<char>, b: Seq<char>, k: int)
    requires
        parts_at(a, b, k),
    ensures
        lex_le(a, b) <==> (k == a.len() || (k < b.len() && a[k] < b[k])),
    decreases a.len(),
{
    if k > 0 {
        let ta = a.drop_first();
        let tb = b.drop_first();
        assert forall|i: int| 0 <= i < k - 1 implies ta[i] == tb[i] by {
            assert(ta[i] == a[i + 1]);
            assert(tb[i] == b[i + 1]);
        }
        lemma_lex_le_by_parting(ta, tb, k - 1);
    }
}

/// How many characters `a` and `b` share at their start.
pub open spec fn shared_start(a: Seq<char>, b: Seq<char>) -> int
    decreases a.len(),
{
    if a.len() == 0 || b.len() == 0 || a[0] != b[0] {
        0
    } else {
        1 + shared_start(a.drop_first(), b.drop_first())
    }
}

/// Two texts part behind what they share at their start.
pub proof fn lemma_parts_behind_shared_start(a: Seq<char>, b: Seq<char>)
    ensures
        parts_at(a, b, shared_start(a, b)),
    decreases a.len(),
{
    if !(a.len() == 0 || b.len() == 0 || a[0] != b[0]) {
        let ta = a.drop_first();
        let tb = b.drop_first();
        lemma_parts_behind_shared_start(ta, tb);
        let k = shared_start(ta, tb);
        assert forall|i: int| 0 <= i < k + 1 implies a[i] == b[i] by {
            if i > 0 {
                assert(ta[i - 1] == a[i]);
                assert(tb[i - 1] == b[i]);
            }
        }
        if k < ta.len() && k < tb.len() {
            assert(ta[k] == a[k + 1]);
            assert(tb[k] == b[k + 1]);
        }
    }
}

/// Whether the character is one of the digits `0` to `9`.
pub open spec fn is_digit(c: char) -> bool {
    '0' <= c <= '9'
}

/// The number that a digit stands for.
pub open spec fn digit_of(c: char) -> nat {
    if is_digit(c) {
        (c as int - '0' as int) as nat
    } else {
        0
    }
}

/// Whether `a` and `b` are written in one form: they are equally long, have
/// their digits at the same places, and agree in every other character. Two
/// timestamps of one fixed-width notation are.
pub open spec fn same_form(a: Seq<char>, b: Seq<char>) -> bool {
    &&& a.len() == b.len()
    &&& forall|i: int|
        0 <= i < a.len() ==> if is_digit(#[trigger] a[i]) {
            is_digit(b[i])
        } else {
            a[i] == b[i]
        }
}

/// The number that the digits of `text` write when they are read from the
/// left and every other character is passed over: for a date and time
/// written with the year first and the second last, a number that grows
/// with time.
pub open spec fn number_of(text: Seq<char>) -> nat
    decreases text.len(),
{
    if text.len() == 0 {
        0
    } else if is_digit(text.last()) {
        number_of(text.drop_last()) * 10 + digit_of(text.last())
    } else {
        number_of(text.drop_last())
    }
}

/// Where two texts of one form part at a digit, the text with the smaller
/// digit there writes the smaller number, however the texts go on.
proof fn lemma_smaller_digit_smaller_number(a: Seq<char>, b: Seq<char>, k: int, upto: int)
    requires
        same_form(a, b),
        parts_at(a, b, k),
        k < upto <= a.len(),
        a[k] < b[k],
    ensures
        number_of(a.take(upto)) < number_of(b.take(upto)),
    decreases upto,
{
    let pa = a.take(upto);
    let pb = b.take(upto);
    assert(pa.drop_last() =~= a.take(upto - 1));
    assert(pb.drop_last() =~= b.take(upto - 1));
    assert(pa.last() == a[upto - 1] && pb.last() == b[upto - 1]);
    assert(is_digit(a[upto - 1]) <==> is_digit(b[upto - 1]));
    if upto == k + 1 {
        assert(a.take(k) =~= b.take(k));
        assert(is_digit(a[k]));
    } else {
        lemma_smaller_digit_smaller_number(a, b, k, upto - 1);
    }
}

/// Texts of one form are ordered as the numbers that their digits write.
/// So timestamps of one fixed-width notation, written from the year down to
/// the second, are ordered as text exactly as they are ordered in time.
pub proof fn lemma_same_form_ordered_by_number(a: Seq<char>, b: Seq<char>)
    requires
        same_form(a, b),
    ensures
        lex_le(a, b) <==> number_of(a) <= number_of(b),
{
    let k = shared_start(a, b);
    lemma_parts_behind_shared_start(a, b);
    lemma_lex_le_by_parting(a, b, k);
    assert(a.take(a.len() as int) =~= a);
    assert(b.take(b.len() as int) =~= b);
    if k == a.len() {
        assert(a =~= b);
    } else if a[k] < b[k] {
        lemma_smaller_digit_smaller_number(a, b, k, a.len() as int);
    } else {
        assert(same_form(b, a));
        assert(parts_at(b, a, k));
        lemma_smaller_digit_smaller_number(b, a, k, a.len() as int);
    }
}

/// Compares two texts character by character.
pub fn text_le(a: &str, b: &str) -> (r: bool)
    ensures
        r == lex_le(a@, b@),
{
    broadcast use vstd::string::group_string_axioms;

    let mut rest_a = a.chars();
    let mut rest_b = b.chars();
    loop
        invariant
            lex_le(a@, b@) == lex_le(rest_a.remaining(), rest_b.remaining()),
            rest_a.decrease() is Some,
        decreases rest_a.decrease()->0,
    {
        match rest_a.next() {
            None => {
                return true;
            },
            Some(ca) => {
                match rest_b.next() {
                    None => {
                        return false;
                    },
                    Some(cb) => {
                        if ca != cb {
                            return ca < cb;
                        }
                    },
                }
            },
        }
    }
}

} // verus!
