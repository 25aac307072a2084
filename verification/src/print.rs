//! Padding and stacking of text.

use vstd::prelude::*;
use crate::text::{grapheme_clusters, graphemes, measure};

verus! {

/// `width` copies of `c`.
pub open spec fn repeated(width: nat, c: char) -> Seq<char> {
    Seq::new(width, |i: int| c)
}

/// How many blanks bring `text` to `width` user-perceived characters:
/// none where it is that wide already.
pub open spec fn padding(width: nat, text: Seq<char>) -> nat {
    if width >= measure(text) {
        (width - measure(text)) as nat
    } else {
        0
    }
}

/// `text` followed by blanks up to `width`.
pub open spec fn left_aligned(width: nat, text: Seq<char>) -> Seq<char> {
    text + repeated(padding(width, text), ' ')
}

/// `text` preceded by blanks up to `width`.
pub open spec fn right_aligned(width: nat, text: Seq<char>) -> Seq<char> {
    repeated(padding(width, text), ' ') + text
}

/// `count` cells that hold one blank each.
pub open spec fn blank_cells(count: nat) -> Seq<Seq<char>> {
    Seq::new(count, |i: int| seq![' '])
}

/// The user-perceived characters of `text`, one to a cell, followed by
/// blank cells up to `height`.
pub open spec fn stacked_top(height: nat, text: Seq<char>) -> Seq<Seq<char>> {
    graphemes(text) + blank_cells(padding(height, text))
}

/// The user-perceived characters of `text`, one to a cell, preceded by
/// blank cells up to `height`.
pub open spec fn stacked_bottom(height: nat, text: Seq<char>) -> Seq<Seq<char>> {
    blank_cells(padding(height, text)) + graphemes(text)
}

/// `text` without the blanks at its end.
pub open spec fn without_trailing_blanks(text: Seq<char>) -> Seq<char>
    decreases text.len(),
{
    if text.len() > 0 && text.last() == ' ' {
        without_trailing_blanks(text.drop_last())
    } else {
        text
    }
}

/// A run of `width` copies of `c`.
pub fn chars(width: usize, c: char) -> (out: String)
    ensures
        out@ == repeated(width as nat, c),
{
    let mut out = String::new();
    let mut i: usize = 0;
    while i < width
        invariant
            i <= width,
            out@ == repeated(i as nat, c),
        decreases width - i,
    {
        out.push(c);
        i += 1;
    }
    out
}

/// A run of `width` blanks.
pub fn spaces(width: usize) -> (out: String)
    ensures
        out@ == repeated(width as nat, ' '),
{
    chars(width, ' ')
}

/// `text`, then blanks until the line is `width` user-perceived characters
/// wide. A text that is wider comes back as it is.
pub fn left(width: usize, text: &str) -> (out: String)
    ensures
        out@ == left_aligned(width as nat, text@),
{
    let mut out = text.to_owned();
    let len = crate::text::width(text);
    if width >= len {
        out.append(spaces(width - len).as_str());
    }
    out
}

/// Blanks, then `text`, so that the line is `width` user-perceived
/// characters wide. A text that is wider comes back as it is.
pub fn right(width: usize, text: &str) -> (out: String)
    ensures
        out@ == right_aligned(width as nat, text@),
{
    let mut out = String::new();
    let len = crate::text::width(text);
    if width >= len {
        out.append(spaces(width - len).as_str());
    }
    out.append(text);
    out
}

/// `count` more blank cells at the end of `out`.
fn push_blank_cells(out: &mut Vec<String>, count: usize)
    ensures
        final(out).deep_view() == old(out).deep_view() + blank_cells(count as nat),
{
    let ghost before = out.deep_view();
    let mut i: usize = 0;
    while i < count
        invariant
            i <= count,
            out.deep_view() == before + blank_cells(i as nat),
        decreases count - i,
    {
        proof {
            reveal_strlit(" ");
        }
        let cell = " ".to_owned();
        assert(cell@ == seq![' ']);
        let ghost cells = out.deep_view();
        out.push(cell);
        assert(out.deep_view() == cells.push(seq![' ']));
        i += 1;
    }
}

/// The user-perceived characters of `text` from the top down, one to a
/// cell, then blank cells until there are `height` of them.
pub fn top(height: usize, text: &str) -> (out: Vec<String>)
    ensures
        out.deep_view() == stacked_top(height as nat, text@),
{
    let mut out = grapheme_clusters(text);
    let len = out.len();
    if height > len {
        push_blank_cells(&mut out, height - len);
    } else {
        assert(out.deep_view() == out.deep_view() + blank_cells(0));
    }
    out
}

/// Blank cells, then the user-perceived characters of `text` from the top
/// down, one to a cell, so that there are `height` cells.
pub fn bottom(height: usize, text: &str) -> (out: Vec<String>)
    ensures
        out.deep_view() == stacked_bottom(height as nat, text@),
{
    let mut chars = grapheme_clusters(text);
    let len = chars.len();
    let mut out: Vec<String> = Vec::new();
    assert(out.deep_view() == Seq::<Seq<char>>::empty());
    if height > len {
        push_blank_cells(&mut out, height - len);
    }
    assert(out.deep_view() == blank_cells(padding(height as nat, text@)));
    let ghost blanks = out.deep_view();
    let ghost cells = chars.deep_view();
    out.append(&mut chars);
    assert(out.deep_view() == blanks + cells);
    out
}

/// Padding a text on the right and taking the blanks at the end away again
/// gives the text back, whatever the width, as long as the text itself
/// does not end in a blank.
pub proof fn padding_is_undone(width: nat, text: Seq<char>)
    requires
        text.len() == 0 || text.last() != ' ',
    ensures
        without_trailing_blanks(left_aligned(width, text)) == text,
{
    lemma_blanks_fall_away(text, padding(width, text));
}

proof fn lemma_blanks_fall_away(text: Seq<char>, count: nat)
    requires
        text.len() == 0 || text.last() != ' ',
    ensures
        without_trailing_blanks(text + repeated(count, ' ')) == text,
    decreases count,
{
    let padded = text + repeated(count, ' ');
    if count == 0 {
        assert(padded == text);
    } else {
        assert(padded.last() == ' ');
        assert(padded.drop_last() == text + repeated((count - 1) as nat, ' '));
        lemma_blanks_fall_away(text, (count - 1) as nat);
    }
}

} // verus!
