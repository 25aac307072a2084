//! What a drawing of a chip is, line by line.

use vstd::prelude::*;
use crate::cli::{AltNames, Direction, PinGap, Side};
use crate::chip::{body_height, body_width, pin_width, Chip};
use crate::orient::{holds_pin_one, resolved, Edge, Traversal};
use crate::pin::{horizontal, vertical};
use crate::print::{left_aligned, repeated, right_aligned, stacked_bottom, stacked_top};
use crate::text::{decimal, graphemes, measure};

verus! {

/// How many characters the pin numbers along `edge` take, the gap
/// included; none where no numbers are shown.
pub open spec fn number_width(edge: Edge, show_pin: PinGap) -> nat {
    match show_pin {
        PinGap::NONE => 0,
        PinGap::PIN1 => pin_width(edge.start as int, edge.end as int) + 1,
        PinGap::PIN2 => pin_width(edge.start as int, edge.end as int) + 2,
    }
}

/// One cell of the body of an upright package: column `c` of row `pos`,
/// the rows counted from 1. `left_pin` and `right_pin` are the pins of the
/// row. The corner beside pin 1 holds the mark. The middle column holds
/// the letters of the name, one to a row, in the middle rows, where the
/// package has rows enough for all of them. The last row is the bottom of
/// the package.
pub open spec fn upright_cell(
    letters: Seq<Seq<char>>,
    rows: int,
    width: int,
    left_pin: int,
    right_pin: int,
    pos: int,
    c: int,
) -> Seq<char> {
    let first_row = (rows - letters.len()) / 2 + 1;
    if left_pin == 1 && c == 0 {
        seq!['*']
    } else if right_pin == 1 && c == width - 1 {
        seq!['*']
    } else if c == width / 2 && letters.len() <= rows && first_row <= pos < first_row
        + letters.len() {
        letters[pos - first_row]
    } else if pos == rows {
        seq!['_']
    } else {
        seq![' ']
    }
}

/// The body of an upright package in row `pos`, between its two sides.
pub open spec fn upright_body(
    letters: Seq<Seq<char>>,
    rows: int,
    width: int,
    left_pin: int,
    right_pin: int,
    pos: int,
) -> Seq<char> {
    Seq::new(
        width as nat,
        |c: int| upright_cell(letters, rows, width, left_pin, right_pin, pos, c),
    ).flatten()
}

/// The number of pin `pin` on the left of the package, where numbers are
/// shown.
pub open spec fn number_before(edge: Edge, show_pin: PinGap, pin: int) -> Seq<char> {
    if show_pin == PinGap::NONE {
        Seq::empty()
    } else {
        right_aligned(number_width(edge, show_pin), decimal(pin as nat))
    }
}

/// The number of pin `pin` on the right of the package, where numbers are
/// shown.
pub open spec fn number_after(edge: Edge, show_pin: PinGap, pin: int) -> Seq<char> {
    if show_pin == PinGap::NONE {
        Seq::empty()
    } else {
        left_aligned(number_width(edge, show_pin), decimal(pin as nat))
    }
}

/// The mark at an end of a border line of a lying package, or the side of
/// the package on the lines between.
pub open spec fn corner(height: int, l: int) -> Seq<char> {
    if l == 1 || l == height {
        seq!['+']
    } else {
        seq!['|']
    }
}

/// The first of the two characters that the body of a lying package has
/// for the pins at place `pos` of its edges, in line `l`; places and lines
/// are counted from 1. The first and last line are the borders, with a
/// corner at the start; the other lines start with the side of the
/// package. The line below the middle holds the letters of the name,
/// centred over twice as many characters as an edge has pins, where the
/// package has pins enough for all of them.
pub open spec fn flat_side_cell(
    letters: Seq<Seq<char>>,
    dip: int,
    height: int,
    l: int,
    pos: int,
) -> Seq<char> {
    let c = (pos - 1) * 2;
    let left = (dip - letters.len()) / 2;
    let right = left + letters.len();
    let named = letters.len() <= dip && l == height / 2 + 1;
    if pos == 1 {
        corner(height, l)
    } else if l == 1 || l == height {
        seq!['-']
    } else if named && left <= c < right {
        letters[c - left]
    } else {
        seq![' ']
    }
}

/// The second of the two characters that the body of a lying package has
/// for the pins at place `pos` of its edges, in line `l`. `top_pin` and
/// `bottom_pin` are the pins at that place. The line under the top border
/// marks pin 1 where it is on the top edge, the line over the bottom
/// border where it is on the bottom edge. Elsewhere the line below the
/// middle holds the letters of the name.
pub open spec fn flat_mark_cell(
    letters: Seq<Seq<char>>,
    dip: int,
    height: int,
    top_pin: int,
    bottom_pin: int,
    l: int,
    pos: int,
) -> Seq<char> {
    let c = (pos - 1) * 2;
    let left = (dip - letters.len()) / 2;
    let right = left + letters.len();
    let named = letters.len() <= dip && l == height / 2 + 1;
    if l == 1 || l == height {
        seq!['-']
    } else if l == 2 && top_pin == 1 {
        seq!['*']
    } else if l == height - 1 && bottom_pin == 1 {
        seq!['*']
    } else if named && left <= c + 1 < right {
        letters[c + 1 - left]
    } else {
        seq![' ']
    }
}

/// The two characters that the body of a lying package has for the pins
/// at place `pos` of its edges, in line `l`.
pub open spec fn flat_cell(
    letters: Seq<Seq<char>>,
    dip: int,
    height: int,
    top_pin: int,
    bottom_pin: int,
    l: int,
    pos: int,
) -> Seq<char> {
    flat_side_cell(letters, dip, height, l, pos) + flat_mark_cell(
        letters,
        dip,
        height,
        top_pin,
        bottom_pin,
        l,
        pos,
    )
}

/// Line `l` of the body of a lying package whose edges are `edges`.
pub open spec fn flat_body(
    letters: Seq<Seq<char>>,
    dip: int,
    height: int,
    edges: Traversal,
    l: int,
) -> Seq<char> {
    Seq::new(
        (dip / 2) as nat,
        |k: int|
            flat_cell(
                letters,
                dip,
                height,
                edges.first.pin_at(k),
                edges.second.pin_at(k),
                l,
                k + 1,
            ),
    ).flatten() + corner(height, l)
}

/// The digits of the number of pin `pin` as a stack of cells: at the
/// bottom of the stack above the package, at its top below.
pub open spec fn stacked_number(edge: Edge, pin: int, top: bool) -> Seq<Seq<char>> {
    if top {
        stacked_bottom(pin_width(edge.start as int, edge.end as int), decimal(pin as nat))
    } else {
        stacked_top(pin_width(edge.start as int, edge.end as int), decimal(pin as nat))
    }
}

/// A line that holds, for each stack in turn, a blank and the cell that
/// the stack has at `l`.
pub open spec fn across(stacks: Seq<Seq<Seq<char>>>, l: int) -> Seq<char> {
    Seq::new(stacks.len(), |k: int| seq![' '] + stacks[k][l]).flatten()
}

/// The lines that stacks of `height` cells make side by side.
pub open spec fn side_by_side(stacks: Seq<Seq<Seq<char>>>, height: nat) -> Seq<Seq<char>> {
    Seq::new(height, |l: int| across(stacks, l))
}

impl Chip {
    /// The names of pin `pin` on `edge`, on one line.
    pub open spec fn label(self, edge: Edge, show_alt: AltNames, pin: int, left: bool) -> Seq<
        char,
    > {
        horizontal(self.names(pin), self.widths(edge, show_alt), left)
    }

    /// The line above an upright package: its top, over the body.
    pub open spec fn upright_top(
        self,
        edges: Traversal,
        show_pin: PinGap,
        show_alt: AltNames,
    ) -> Seq<char> {
        right_aligned(
            self.label_width(edges.first, show_alt) + number_width(edges.first, show_pin) + 1,
            seq![' '],
        ) + repeated(body_width(self.width), '_')
    }

    /// Row `pos` of an upright package, the rows counted from 1: the label
    /// and number of the pin on the left, the body, the number and label
    /// of the pin on the right.
    pub open spec fn upright_row(
        self,
        edges: Traversal,
        show_pin: PinGap,
        show_alt: AltNames,
        pos: int,
    ) -> Seq<char> {
        let left_pin = edges.first.pin_at(pos - 1);
        let right_pin = edges.second.pin_at(pos - 1);
        right_aligned(
            self.label_width(edges.first, show_alt),
            self.label(edges.first, show_alt, left_pin, true),
        ) + number_before(edges.first, show_pin, left_pin) + seq!['|'] + upright_body(
            graphemes(self.name),
            self.dip as int / 2,
            body_width(self.width) as int,
            left_pin,
            right_pin,
            pos,
        ) + seq!['|'] + number_after(edges.second, show_pin, right_pin) + left_aligned(
            self.label_width(edges.second, show_alt),
            self.label(edges.second, show_alt, right_pin, false),
        )
    }

    /// The title under an upright package, its middle under the middle of
    /// the body.
    pub open spec fn upright_title(
        self,
        edges: Traversal,
        show_pin: PinGap,
        show_alt: AltNames,
    ) -> Seq<char> {
        right_aligned(
            self.label_width(edges.first, show_alt) + number_width(edges.first, show_pin) + 1 + (
            body_width(self.width) + measure(self.title)) / 2,
            self.title,
        )
    }

    /// The title line, which is drawn where pin numbers are.
    pub open spec fn title_lines(show_pin: PinGap, title: Seq<char>) -> Seq<Seq<char>> {
        if show_pin == PinGap::NONE {
            Seq::empty()
        } else {
            seq![title]
        }
    }

    /// The drawing of an upright package, with its pins on the left and
    /// right: the top, a row for each pair of pins, and the title where
    /// pin numbers are shown.
    pub open spec fn upright(self, edges: Traversal, show_pin: PinGap, show_alt: AltNames) -> Seq<
        Seq<char>,
    > {
        seq![self.upright_top(edges, show_pin, show_alt)] + Seq::new(
            self.dip / 2,
            |k: int| self.upright_row(edges, show_pin, show_alt, k + 1),
        ) + Self::title_lines(show_pin, self.upright_title(edges, show_pin, show_alt))
    }
    /// The stacks of the labels of the pins along `edge`, from its start.
    pub open spec fn label_stacks(self, edge: Edge, show_alt: AltNames, top: bool) -> Seq<
        Seq<Seq<char>>,
    > {
        Seq::new(
            self.dip / 2,
            |k: int| vertical(self.names(edge.pin_at(k)), self.widths(edge, show_alt), top),
        )
    }

    /// The stacks of the numbers of the pins along `edge`, from its start.
    pub open spec fn number_stacks(self, edge: Edge, top: bool) -> Seq<Seq<Seq<char>>> {
        Seq::new(self.dip / 2, |k: int| stacked_number(edge, edge.pin_at(k), top))
    }

    /// The lines that hold the labels of the pins along `edge`.
    pub open spec fn label_rows(self, edge: Edge, show_alt: AltNames, top: bool) -> Seq<Seq<char>> {
        side_by_side(self.label_stacks(edge, show_alt, top), self.label_width(edge, show_alt))
    }

    /// The lines that hold the numbers of the pins along `edge`.
    pub open spec fn number_rows(self, edge: Edge, top: bool) -> Seq<Seq<char>> {
        side_by_side(
            self.number_stacks(edge, top),
            pin_width(edge.start as int, edge.end as int),
        )
    }

    /// The lines above (`top`) or below a lying package for the pins
    /// along `edge`: their labels, and between the labels and the package,
    /// where pin numbers are shown, their numbers and a line with one
    /// blank.
    pub open spec fn pin_rows(
        self,
        edge: Edge,
        show_pin: PinGap,
        show_alt: AltNames,
        top: bool,
    ) -> Seq<Seq<char>> {
        let labels = self.label_rows(edge, show_alt, top);
        let numbers = self.number_rows(edge, top);
        if show_pin == PinGap::NONE {
            labels
        } else if top {
            labels + seq![seq![' ']] + numbers
        } else {
            numbers + seq![seq![' ']] + labels
        }
    }

    /// The lines of the body of a lying package.
    pub open spec fn flat_lines(self, edges: Traversal) -> Seq<Seq<char>> {
        Seq::new(
            body_height(self.width),
            |i: int|
                flat_body(
                    graphemes(self.name),
                    self.dip as int,
                    body_height(self.width) as int,
                    edges,
                    i + 1,
                ),
        )
    }

    /// The title under a lying package.
    pub open spec fn flat_title(self) -> Seq<char> {
        right_aligned((self.dip + 1 + measure(self.title)) / 2, self.title)
    }

    /// The drawing of a lying package, with its pins at the top and
    /// bottom: the lines for the pins of the top edge, the body, the lines
    /// for the pins of the bottom edge, and the title where pin numbers
    /// are shown.
    pub open spec fn flat(self, edges: Traversal, show_pin: PinGap, show_alt: AltNames) -> Seq<
        Seq<char>,
    > {
        self.pin_rows(edges.first, show_pin, show_alt, true) + self.flat_lines(edges)
            + self.pin_rows(edges.second, show_pin, show_alt, false) + Self::title_lines(
            show_pin,
            self.flat_title(),
        )
    }

    /// The drawing of the chip, seen from `side` with pin 1 turned to
    /// `direction`.
    pub open spec fn drawing(
        self,
        direction: Direction,
        side: Side,
        show_pin: PinGap,
        show_alt: AltNames,
    ) -> Seq<Seq<char>> {
        let edges = resolved(side, direction, self.dip as int);
        match direction {
            Direction::NORTH | Direction::SOUTH => self.upright(edges, show_pin, show_alt),
            Direction::EAST | Direction::WEST => self.flat(edges, show_pin, show_alt),
        }
    }
}

/// Seen from below, the two edges of the package change places, and the
/// mark of pin 1 goes with them. Where pin 1 is at a place of the first
/// edge seen from above, an upright package holds the mark in that row at
/// its left seen from above and at its right seen from below, and a lying
/// package holds it at that place under its top border seen from above
/// and over its bottom border seen from below; and the other way round
/// where pin 1 is on the second edge. Pin 1 is on one of the two.
pub proof fn faces_mirror(chip: Chip, direction: Direction, k: int)
    requires
        chip.wf(),
        0 <= k < chip.dip / 2,
    ensures
        resolved(Side::BOTTOM, direction, chip.dip as int) == resolved(
            Side::TOP,
            direction,
            chip.dip as int,
        ).swapped(),
        ({
            let above = resolved(Side::TOP, direction, chip.dip as int);
            let below = resolved(Side::BOTTOM, direction, chip.dip as int);
            let letters = graphemes(chip.name);
            let dip = chip.dip as int;
            let width = body_width(chip.width) as int;
            let height = body_height(chip.width) as int;
            let left_above = above.first.pin_at(k);
            let right_above = above.second.pin_at(k);
            let left_below = below.first.pin_at(k);
            let right_below = below.second.pin_at(k);
            &&& left_above == 1 ==> {
                &&& upright_cell(letters, dip / 2, width, left_above, right_above, k + 1, 0)
                    == seq!['*']
                &&& upright_cell(
                    letters,
                    dip / 2,
                    width,
                    left_below,
                    right_below,
                    k + 1,
                    width - 1,
                ) == seq!['*']
                &&& flat_mark_cell(letters, dip, height, left_above, right_above, 2, k + 1)
                    == seq!['*']
                &&& flat_mark_cell(letters, dip, height, left_below, right_below, height - 1, k + 1)
                    == seq!['*']
            }
            &&& right_above == 1 ==> {
                &&& upright_cell(
                    letters,
                    dip / 2,
                    width,
                    left_above,
                    right_above,
                    k + 1,
                    width - 1,
                ) == seq!['*']
                &&& upright_cell(letters, dip / 2, width, left_below, right_below, k + 1, 0)
                    == seq!['*']
                &&& flat_mark_cell(letters, dip, height, left_above, right_above, height - 1, k + 1)
                    == seq!['*']
                &&& flat_mark_cell(letters, dip, height, left_below, right_below, 2, k + 1)
                    == seq!['*']
            }
        }),
        exists|place: int|
            0 <= place < chip.dip / 2 && #[trigger] holds_pin_one(
                resolved(Side::TOP, direction, chip.dip as int),
                place,
            ),
{
    let above = resolved(Side::TOP, direction, chip.dip as int);
    let last = chip.dip as int / 2 - 1;
    let place = match direction {
        Direction::NORTH => 0,
        Direction::SOUTH => last,
        Direction::EAST => last,
        Direction::WEST => 0,
    };
    assert(holds_pin_one(above, place));
}

/// An upright package is drawn with one line for its top and one for each
/// pair of pins, a lying package with its body and, above and below it,
/// the lines that the labels along the edge take; where pin numbers are
/// shown, their lines, a line between them and the labels, and the title
/// come on top of that.
pub proof fn lines_of_a_drawing(chip: Chip, edges: Traversal, show_pin: PinGap, show_alt: AltNames)
    ensures
        chip.upright(edges, PinGap::NONE, show_alt).len() == 1 + chip.dip / 2,
        show_pin != PinGap::NONE ==> chip.upright(edges, show_pin, show_alt).len() == 2 + chip.dip
            / 2,
        chip.flat(edges, PinGap::NONE, show_alt).len() == chip.label_width(edges.first, show_alt)
            + body_height(chip.width) + chip.label_width(edges.second, show_alt),
        show_pin != PinGap::NONE ==> chip.flat(edges, show_pin, show_alt).len() == chip.label_width(
            edges.first,
            show_alt,
        ) + 1 + pin_width(edges.first.start as int, edges.first.end as int) + body_height(
            chip.width,
        ) + pin_width(edges.second.start as int, edges.second.end as int) + 1 + chip.label_width(
            edges.second,
            show_alt,
        ) + 1,
{
}

} // verus!
