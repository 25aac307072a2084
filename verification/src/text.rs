//! Text measurement: user-perceived characters and the operations on
//! `String` that the rest of the library builds on.

use vstd::prelude::*;

verus! {

/// The extended grapheme clusters of `text`, in reading order.
pub uninterp spec fn graphemes(text: Seq<char>) -> Seq<Seq<char>>;

/// The number of user-perceived characters of `text`.
pub open spec fn measure(text: Seq<char>) -> nat {
    graphemes(text).len()
}

/// `String::push` appends one character.
pub assume_specification[ String::push ](s: &mut String, c: char)
    ensures
        final(s)@ == old(s)@.push(c),
;

/// Calls `UnicodeSegmentation::graphemes` for the extended clusters and
/// copies each slice it yields. The iterator cuts the text at consecutive
/// cluster boundaries, so the slices are never empty and, put together
/// again, are the text.
#[verifier::external_body]
pub(crate) fn grapheme_clusters(text: &str) -> (out: Vec<String>)
    ensures
        out.deep_view() == graphemes(text@),
        out.deep_view().flatten() == text@,
        forall|i: int| 0 <= i < out.len() ==> (#[trigger] out[i])@.len() > 0,
{
    unicode_segmentation::UnicodeSegmentation::graphemes(text, true).map(String::from).collect()
}

/// Parts that are never empty are no more than the items they hold together.
pub proof fn lemma_parts_bounded<A>(parts: Seq<Seq<A>>)
    requires
        forall|i: int| 0 <= i < parts.len() ==> (#[trigger] parts[i]).len() > 0,
    ensures
        parts.len() <= parts.flatten().len(),
    decreases parts.len(),
{
    if parts.len() > 0 {
        lemma_parts_bounded(parts.drop_first());
    }
}

/// The first none of the parts hold nothing.
pub proof fn lemma_flatten_start<A>(parts: Seq<Seq<A>>)
    ensures
        parts.take(0).flatten() == Seq::<A>::empty(),
{
    assert(parts.take(0) == Seq::<Seq<A>>::empty());
}

/// What the first `k + 1` parts hold together is what the first `k` hold,
/// followed by the part at `k`.
pub proof fn lemma_flatten_next<A>(parts: Seq<Seq<A>>, k: int)
    requires
        0 <= k < parts.len(),
    ensures
        parts.take(k + 1).flatten() == parts.take(k).flatten() + parts[k],
{
    broadcast use Seq::lemma_flatten_push;

    assert(parts.take(k + 1) == parts.take(k).push(parts[k]));
}

/// The number of user-perceived characters of `text`.
pub fn width(text: &str) -> (n: usize)
    ensures
        n == measure(text@),
        n <= text@.len(),
{
    let clusters = grapheme_clusters(text);
    proof {
        lemma_parts_bounded(clusters.deep_view());
    }
    clusters.len()
}

/// The character that stands for the digit `d`.
pub open spec fn digit(d: nat) -> char {
    (('0' as nat) + d) as char
}

/// `n` written in decimal, without leading zeros.
pub open spec fn decimal(n: nat) -> Seq<char>
    decreases n,
{
    if n < 10 {
        seq![digit(n)]
    } else {
        decimal(n / 10).push(digit(n % 10))
    }
}

/// `n` written in decimal, with a minus sign where it is negative.
pub open spec fn signed_decimal(n: int) -> Seq<char> {
    if n < 0 {
        seq!['-'] + decimal((-n) as nat)
    } else {
        decimal(n as nat)
    }
}

fn digit_char(d: u8) -> (c: char)
    requires
        d < 10,
    ensures
        c == digit(d as nat),
{
    (48u8 + d) as char
}

/// `n` written in decimal.
pub fn decimal_text(n: u64) -> (out: String)
    ensures
        out@ == decimal(n as nat),
    decreases n,
{
    if n < 10 {
        let mut out = String::new();
        out.push(digit_char(n as u8));
        out
    } else {
        let mut out = decimal_text(n / 10);
        out.push(digit_char((n % 10) as u8));
        out
    }
}

/// `n` written in decimal, with a minus sign where it is negative.
pub fn signed_decimal_text(n: i64) -> (out: String)
    ensures
        out@ == signed_decimal(n as int),
{
    if n < 0 {
        let mut out = String::new();
        out.push('-');
        let magnitude: u64 = (-(n as i128)) as u64;
        out.append(decimal_text(magnitude).as_str());
        out
    } else {
        decimal_text(n as u64)
    }
}

/// `before`, `number` and `after`, one after another.
pub fn framed(before: &str, number: &str, after: &str) -> (out: String)
    ensures
        out@ == before@ + number@ + after@,
{
    let mut out = before.to_owned();
    out.append(number);
    out.append(after);
    out
}

/// Whether `c` has the Unicode property White_Space.
pub uninterp spec fn white_space(c: char) -> bool;

/// `char::is_whitespace` tells whether a character has the Unicode property
/// White_Space.
pub assume_specification[ char::is_whitespace ](c: char) -> (b: bool)
    ensures
        b == white_space(c),
;

/// The characters of `text`, for reading by position.
pub fn characters(text: &str) -> (out: Vec<char>)
    ensures
        out@ == text@,
{
    let mut out: Vec<char> = Vec::new();
    for c in it: text.chars()
        invariant
            it.seq() == text@,
            out@ == text@.take(it.index() as int),
    {
        out.push(c);
    }
    out
}

/// `text` without the white space at its start.
pub open spec fn without_leading_space(text: Seq<char>) -> Seq<char>
    decreases text.len(),
{
    if text.len() > 0 && white_space(text.first()) {
        without_leading_space(text.drop_first())
    } else {
        text
    }
}

/// `text` without the white space at its end.
pub open spec fn without_trailing_space(text: Seq<char>) -> Seq<char>
    decreases text.len(),
{
    if text.len() > 0 && white_space(text.last()) {
        without_trailing_space(text.drop_last())
    } else {
        text
    }
}

/// `text` without the white space at either end.
pub open spec fn trimmed(text: Seq<char>) -> Seq<char> {
    without_trailing_space(without_leading_space(text))
}

/// Trimming takes characters away and adds none.
pub proof fn lemma_trimmed_is_shorter(text: Seq<char>)
    ensures
        trimmed(text).len() <= text.len(),
{
    lemma_leading_is_shorter(text);
    lemma_trailing_is_shorter(without_leading_space(text));
}

proof fn lemma_leading_is_shorter(text: Seq<char>)
    ensures
        without_leading_space(text).len() <= text.len(),
    decreases text.len(),
{
    if text.len() > 0 && white_space(text.first()) {
        lemma_leading_is_shorter(text.drop_first());
    }
}

proof fn lemma_trailing_is_shorter(text: Seq<char>)
    ensures
        without_trailing_space(text).len() <= text.len(),
    decreases text.len(),
{
    if text.len() > 0 && white_space(text.last()) {
        lemma_trailing_is_shorter(text.drop_last());
    }
}

/// The part of `text` between the positions `from` and `to`, without the
/// white space at either end. `chars` holds the characters of `text`.
pub fn trimmed_part<'a>(text: &'a str, chars: &Vec<char>, from: usize, to: usize) -> (out: &'a str)
    requires
        chars@ == text@,
        from <= to <= text@.len(),
    ensures
        out@ == trimmed(text@.subrange(from as int, to as int)),
{
    let mut first: usize = from;
    while first < to && chars[first].is_whitespace()
        invariant
            chars@ == text@,
            from <= first <= to <= text@.len(),
            without_leading_space(text@.subrange(from as int, to as int))
                == without_leading_space(text@.subrange(first as int, to as int)),
        decreases to - first,
    {
        assert(text@.subrange(first as int, to as int).drop_first() == text@.subrange(
            first as int + 1,
            to as int,
        ));
        first += 1;
    }
    let mut last: usize = to;
    while first < last && chars[last - 1].is_whitespace()
        invariant
            chars@ == text@,
            first <= last <= to <= text@.len(),
            without_trailing_space(text@.subrange(first as int, to as int))
                == without_trailing_space(text@.subrange(first as int, last as int)),
        decreases last - first,
    {
        assert(text@.subrange(first as int, last as int).drop_last() == text@.subrange(
            first as int,
            last as int - 1,
        ));
        last -= 1;
    }
    text.substring_char(first, last)
}

} // verus!
