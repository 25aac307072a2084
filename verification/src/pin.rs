//! The label of one pin: the names it goes by, and how they are laid out
//! in columns beside or in rows above and below the package.

use vstd::prelude::*;
use crate::print::{
    bottom, left, left_aligned, repeated, right, right_aligned, spaces, stacked_bottom,
    stacked_top, top,
};
use crate::text::{characters, lemma_flatten_next, lemma_flatten_start, trimmed, trimmed_part};

verus! {

/// The names of one pin as they were written: separated by commas.
#[derive(Debug, PartialEq)]
pub struct PinName {
    names: String,
}

impl View for PinName {
    type V = Seq<char>;

    closed spec fn view(&self) -> Seq<char> {
        self.names@
    }
}

/// The parts of `text` between its commas. A text without a comma is one
/// part, and so is the empty text.
pub open spec fn parts(text: Seq<char>) -> Seq<Seq<char>>
    decreases text.len(),
{
    if text.len() == 0 {
        seq![Seq::empty()]
    } else {
        let before = parts(text.drop_last());
        if text.last() == ',' {
            before.push(Seq::empty())
        } else {
            before.drop_last().push(before.last().push(text.last()))
        }
    }
}

/// The names that the text of a pin gives: its parts, each without the
/// white space around it. The first is the name of the pin, the others are
/// its alternates.
pub open spec fn alternates(text: Seq<char>) -> Seq<Seq<char>> {
    parts(text).map_values(|part: Seq<char>| trimmed(part))
}

/// There is always a first part.
pub proof fn lemma_parts_nonempty(text: Seq<char>)
    ensures
        parts(text).len() >= 1,
    decreases text.len(),
{
    if text.len() > 0 {
        lemma_parts_nonempty(text.drop_last());
    }
}

/// `pieces` in a row, with a comma between each two.
pub open spec fn joined(pieces: Seq<Seq<char>>) -> Seq<char>
    decreases pieces.len(),
{
    if pieces.len() == 0 {
        Seq::empty()
    } else if pieces.len() == 1 {
        pieces[0]
    } else {
        joined(pieces.drop_last()) + seq![','] + pieces.last()
    }
}

/// Cutting a text at its commas loses nothing and leaves no comma: the
/// parts, with commas between them, are the text again, and no part holds
/// a comma.
pub proof fn parts_make_the_text(text: Seq<char>)
    ensures
        joined(parts(text)) == text,
        forall|i: int, j: int|
            0 <= i < parts(text).len() && 0 <= j < parts(text)[i].len() ==> #[trigger] parts(
                text,
            )[i][j] != ',',
    decreases text.len(),
{
    if text.len() == 0 {
    } else {
        let before = parts(text.drop_last());
        parts_make_the_text(text.drop_last());
        lemma_parts_nonempty(text.drop_last());
        assert(text == text.drop_last().push(text.last()));
        if text.last() == ',' {
            let after = before.push(Seq::empty());
            assert(after.drop_last() == before);
            assert(joined(after) == joined(before) + seq![','] + Seq::<char>::empty());
        } else {
            let grown = before.last().push(text.last());
            let after = before.drop_last().push(grown);
            assert(after.drop_last() == before.drop_last());
            if before.len() == 1 {
                assert(joined(after) == grown);
            } else {
                assert(joined(after) == joined(before.drop_last()) + seq![','] + grown);
                assert(joined(before) == joined(before.drop_last()) + seq![','] + before.last());
            }
        }
    }
}

/// The widths of a vector, as numbers.
pub open spec fn as_nats(widths: Seq<usize>) -> Seq<nat> {
    widths.map_values(|w: usize| w as nat)
}

/// The sum of `widths`.
pub open spec fn total(widths: Seq<nat>) -> nat
    decreases widths.len(),
{
    if widths.len() == 0 {
        0
    } else {
        total(widths.drop_last()) + widths.last()
    }
}

/// The room that columns of these widths take, one blank between each two.
pub open spec fn span(widths: Seq<nat>) -> nat {
    if widths.len() == 0 {
        0
    } else {
        (total(widths) + widths.len() - 1) as nat
    }
}

/// The blank that parts one column from the one before it; the first
/// column has none.
pub open spec fn gap(column: int) -> Seq<char> {
    if column == 0 {
        Seq::empty()
    } else {
        seq![' ']
    }
}

/// The name in column `n`, or the empty text where the pin has fewer names.
pub open spec fn name_at(names: Seq<Seq<char>>, n: int) -> Seq<char> {
    if 0 <= n < names.len() {
        names[n]
    } else {
        Seq::empty()
    }
}

/// What column `c` of a label adds to its line. On the left of the package
/// the names run towards it, the first name last, each flush right in its
/// column, and a column without a name is blank. On the right the first
/// name comes first, each flush left, and a column without a name adds no
/// more than its gap.
pub open spec fn horizontal_cell(
    names: Seq<Seq<char>>,
    widths: Seq<nat>,
    left: bool,
    c: int,
) -> Seq<char> {
    if left {
        let n = widths.len() - 1 - c;
        gap(c) + if n < names.len() {
            right_aligned(widths[n], names[n])
        } else {
            repeated(widths[n], ' ')
        }
    } else {
        gap(c) + if c < names.len() {
            left_aligned(widths[c], names[c])
        } else {
            Seq::empty()
        }
    }
}

/// The line of a label beside the package: its columns, one after another.
pub open spec fn horizontal(names: Seq<Seq<char>>, widths: Seq<nat>, left: bool) -> Seq<char> {
    Seq::new(widths.len(), |c: int| horizontal_cell(names, widths, left, c)).flatten()
}

/// What column `c` of a label adds to its stack of cells. Above the
/// package the names run down towards it, the first name last, each at the
/// bottom of its column; below it the first name comes first, each at the
/// top of its column. A blank cell parts two columns.
pub open spec fn vertical_cells(
    names: Seq<Seq<char>>,
    widths: Seq<nat>,
    top: bool,
    c: int,
) -> Seq<Seq<char>> {
    let between: Seq<Seq<char>> = if c == 0 {
        Seq::empty()
    } else {
        seq![seq![' ']]
    };
    if top {
        let n = widths.len() - 1 - c;
        between + stacked_bottom(widths[n], name_at(names, n))
    } else {
        between + stacked_top(widths[c], name_at(names, c))
    }
}

/// The stack of cells of a label above or below the package: its columns,
/// one after another.
pub open spec fn vertical(names: Seq<Seq<char>>, widths: Seq<nat>, top: bool) -> Seq<Seq<char>> {
    Seq::new(widths.len(), |c: int| vertical_cells(names, widths, top, c)).flatten()
}

/// A sum is its first number and the sum of the others.
pub proof fn lemma_total_first(widths: Seq<nat>)
    requires
        widths.len() > 0,
    ensures
        total(widths) == widths.first() + total(widths.drop_first()),
    decreases widths.len(),
{
    if widths.len() > 1 {
        lemma_total_first(widths.drop_last());
        assert(widths.drop_last().drop_first() == widths.drop_first().drop_last());
    } else {
        assert(total(widths.drop_last()) == 0);
        assert(total(widths.drop_first()) == 0);
    }
}

/// The stack of the first `c` columns holds at least the cells that their
/// widths and the blanks between them ask for.
proof fn lemma_vertical_height(names: Seq<Seq<char>>, widths: Seq<nat>, top: bool, c: int)
    requires
        0 <= c <= widths.len(),
    ensures
        ({
            let cells = Seq::new(widths.len(), |c: int| vertical_cells(names, widths, top, c));
            let taken = if top {
                widths.skip(widths.len() - c)
            } else {
                widths.take(c)
            };
            cells.take(c).flatten().len() >= span(taken)
        }),
    decreases c,
{
    let cells = Seq::new(widths.len(), |c: int| vertical_cells(names, widths, top, c));
    if c == 0 {
        lemma_flatten_start(cells);
    } else {
        lemma_vertical_height(names, widths, top, c - 1);
        lemma_flatten_next(cells, c - 1);
        if top {
            let n = widths.len() - c;
            let taken = widths.skip(n);
            lemma_total_first(taken);
            assert(taken.drop_first() == widths.skip(n + 1));
        } else {
            assert(widths.take(c).drop_last() == widths.take(c - 1));
        }
    }
}

impl PinName {
    /// The label whose names are written in `s`.
    pub fn from_str(s: &str) -> (out: Result<PinName, String>)
        ensures
            out matches Ok(pin) && pin@ == s@,
    {
        Ok(PinName { names: s.to_owned() })
    }

    /// How many characters the names take as they were written.
    pub fn text_len(&self) -> (len: usize)
        ensures
            len == self@.len(),
    {
        self.names.as_str().unicode_len()
    }

    /// The names of the pin, alternates included, in the order written.
    pub fn names(&self) -> (out: Vec<&str>)
        ensures
            out.deep_view() == alternates(self@),
    {
        let text = self.names.as_str();
        let chars = characters(text);
        let n = chars.len();
        let mut out: Vec<&str> = Vec::new();
        let mut start: usize = 0;
        let mut i: usize = 0;
        let ghost mut done: Seq<Seq<char>> = Seq::empty();
        assert(text@.take(0) == Seq::<char>::empty());
        assert(text@.subrange(0, 0) == Seq::<char>::empty());
        assert(parts(text@.take(0)) == done.push(text@.subrange(0, 0)));
        assert(out.deep_view() == done.map_values(|part: Seq<char>| trimmed(part)));
        while i < n
            invariant
                chars@ == text@,
                n == text@.len(),
                start <= i <= n,
                parts(text@.take(i as int)) == done.push(text@.subrange(start as int, i as int)),
                out.deep_view() == done.map_values(|part: Seq<char>| trimmed(part)),
            decreases n - i,
        {
            let ghost prefix = text@.take(i as int + 1);
            assert(prefix.drop_last() == text@.take(i as int));
            assert(prefix.last() == text@[i as int]);
            if chars[i] == ',' {
                let name = trimmed_part(text, &chars, start, i);
                let ghost before = out.deep_view();
                out.push(name);
                proof {
                    done = done.push(text@.subrange(start as int, i as int));
                    assert(out.deep_view() == before.push(name@));
                    assert(out.deep_view() == done.map_values(|part: Seq<char>| trimmed(part)));
                    assert(text@.subrange(i as int + 1, i as int + 1) == Seq::<char>::empty());
                }
                start = i + 1;
            } else {
                proof {
                    let before = parts(text@.take(i as int));
                    assert(before.drop_last() == done);
                    assert(text@.subrange(start as int, i as int).push(text@[i as int])
                        == text@.subrange(start as int, i as int + 1));
                }
            }
            i += 1;
        }
        assert(text@.take(n as int) == text@);
        let name = trimmed_part(text, &chars, start, n);
        let ghost before = out.deep_view();
        out.push(name);
        proof {
            done = done.push(text@.subrange(start as int, n as int));
            assert(out.deep_view() == before.push(name@));
            assert(out.deep_view() == done.map_values(|part: Seq<char>| trimmed(part)));
        }
        out
    }

    /// The names of the pin on one line, in columns of the widths given:
    /// towards the package on its left (`left`), away from it on its right.
    pub fn names_horizontal(&self, names_width: &Vec<usize>, left: bool) -> (line: String)
        ensures
            line@ == horizontal(alternates(self@), as_nats(names_width@), left),
    {
        let column = names_width.len();
        let names: Vec<&str> = self.names();
        let mut line = String::new();
        let ghost widths = as_nats(names_width@);
        let ghost cells = Seq::new(
            widths.len(),
            |c: int| horizontal_cell(alternates(self@), widths, left, c),
        );
        let mut c: usize = 0;
        proof {
            lemma_flatten_start(cells);
        }
        while c < column
            invariant
                c <= column,
                column == names_width.len(),
                widths == as_nats(names_width@),
                names.deep_view() == alternates(self@),
                cells == Seq::new(
                    widths.len(),
                    |c: int| horizontal_cell(alternates(self@), widths, left, c),
                ),
                line@ == cells.take(c as int).flatten(),
            decreases column - c,
        {
            proof {
                lemma_flatten_next(cells, c as int);
                assert(names.deep_view().len() == names.len());
            }
            let ghost before = line@;
            if c != 0 {
                line.push(' ');
            }
            assert(line@ == before + gap(c as int));
            if left {
                let n = column - c - 1;
                if n >= names.len() {
                    line.append(spaces(names_width[n]).as_str());
                } else {
                    assert(names.deep_view()[n as int] == names[n as int]@);
                    line.append(crate::print::right(names_width[n], names[n]).as_str());
                }
            } else {
                if c < names.len() {
                    assert(names.deep_view()[c as int] == names[c as int]@);
                    line.append(crate::print::left(names_width[c], names[c]).as_str());
                }
            }
            assert(line@ == before + cells[c as int]);
            c += 1;
        }
        proof {
            assert(cells.take(column as int) == cells);
        }
        line
    }

    /// The names of the pin as a stack of cells, one user-perceived
    /// character to a cell, in columns of the heights given: down towards
    /// the package above it (`top`), down away from it below.
    pub fn names_vertical(&self, names_width: &Vec<usize>, top: bool) -> (out: Vec<String>)
        ensures
            out.deep_view() == vertical(alternates(self@), as_nats(names_width@), top),
            out.len() >= span(as_nats(names_width@)),
    {
        let column = names_width.len();
        let names: Vec<&str> = self.names();
        let mut out: Vec<String> = Vec::new();
        let ghost widths = as_nats(names_width@);
        let ghost cells = Seq::new(
            widths.len(),
            |c: int| vertical_cells(alternates(self@), widths, top, c),
        );
        let mut c: usize = 0;
        proof {
            lemma_flatten_start(cells);
            assert(out.deep_view() == Seq::<Seq<char>>::empty());
            reveal_strlit("");
            reveal_strlit(" ");
        }
        while c < column
            invariant
                c <= column,
                column == names_width.len(),
                widths == as_nats(names_width@),
                names.deep_view() == alternates(self@),
                cells == Seq::new(
                    widths.len(),
                    |c: int| vertical_cells(alternates(self@), widths, top, c),
                ),
                out.deep_view() == cells.take(c as int).flatten(),
                ""@ == Seq::<char>::empty(),
                " "@ == seq![' '],
            decreases column - c,
        {
            proof {
                lemma_flatten_next(cells, c as int);
                assert(names.deep_view().len() == names.len());
            }
            let ghost before = out.deep_view();
            if c != 0 {
                out.push(" ".to_owned());
                assert(out.deep_view() == before.push(seq![' ']));
            }
            let ghost between = out.deep_view();
            if top {
                let n = column - 1 - c;
                let text = if n < names.len() {
                    assert(names.deep_view()[n as int] == names[n as int]@);
                    names[n]
                } else {
                    ""
                };
                let mut cells = bottom(names_width[n], text);
                let ghost added = cells.deep_view();
                out.append(&mut cells);
                assert(out.deep_view() == between + added);
            } else {
                let text = if c < names.len() {
                    assert(names.deep_view()[c as int] == names[c as int]@);
                    names[c]
                } else {
                    ""
                };
                let mut cells = crate::print::top(names_width[c], text);
                let ghost added = cells.deep_view();
                out.append(&mut cells);
                assert(out.deep_view() == between + added);
            }
            assert(out.deep_view() == before + cells[c as int]);
            c += 1;
        }
        proof {
            assert(cells.take(column as int) == cells);
            lemma_vertical_height(alternates(self@), widths, top, column as int);
            assert(widths.skip(0) == widths);
            assert(widths.take(column as int) == widths);
            assert(out.deep_view().len() == out.len());
        }
        out
    }

    /// The name of the pin: the first of its names.
    pub fn name(&self) -> (out: &str)
        ensures
            out@ == alternates(self@)[0],
    {
        let names = self.names();
        proof {
            lemma_parts_nonempty(self@);
            assert(names.deep_view().len() == names.len());
            assert(names.deep_view()[0] == names[0]@);
        }
        names[0]
    }
}

} // verus!
