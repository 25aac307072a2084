//! A chip as it is kept, read from its description and drawn.

use vstd::prelude::*;
use crate::chip::{
    body_height, body_width, Chip, lemma_total_prefix, lemma_total_update, lemma_weight_of_names,
    pin_width, shown, weight, width_name,
};
use crate::cli::{AltNames, Direction, PinGap, Side};
use crate::describe::{described, described_by, described_chip_is_whole, pins_to_vec_result};
use crate::draw::{
    across, flat_body, flat_cell, number_width, stacked_number, upright_body, upright_cell,
};
use crate::orient::{pin_step, resolve, Edge, Traversal};
use crate::pin::{alternates, as_nats, total, PinName};
use crate::pins::Pins;
use crate::print::{bottom, chars, left, right};
use crate::table::{fields_of, find, read_document, toml_document, Document, Entry, Field, Value};
use crate::text::{
    decimal, decimal_text, framed, grapheme_clusters, graphemes, lemma_flatten_next,
    lemma_flatten_start, measure, signed_decimal_text,
};

verus! {

/// The width of the package.
#[derive(Clone, Copy, Debug, PartialEq, Eq, Structural)]
pub enum DipWidth {
    MIL300,
    MIL600,
}

/// A chip: what it is called, how many pins it has, how wide its package
/// is, and the names of each pin.
#[derive(Debug, PartialEq)]
pub struct Dip {
    pub name: String,
    pub title: String,
    pub dip: usize,
    pub width: DipWidth,
    pub pins: Pins,
}

/// The text of each pin, by its number.
pub open spec fn labels(pins: Map<usize, PinName>) -> Map<int, Seq<char>> {
    Map::new(
        |p: int| 0 <= p <= usize::MAX && pins.contains_key(p as usize),
        |p: int| pins[p as usize]@,
    )
}

/// The body of an upright package in row `pos`, between its two sides.
/// `name_chars` holds the letters of the name of the chip, `lpin` and
/// `rpin` are the pins of the row.
fn upright_body_line(
    name_chars: &Vec<String>,
    rows: usize,
    width: usize,
    lpin: usize,
    rpin: usize,
    pos: usize,
) -> (line: String)
    requires
        1 <= pos <= rows,
    ensures
        line@ == upright_body(
            name_chars.deep_view(),
            rows as int,
            width as int,
            lpin as int,
            rpin as int,
            pos as int,
        ),
{
    let num_chars = name_chars.len();
    let center = width / 2;
    let spc = if pos == rows { '_' } else { ' ' };
    let ghost letters = name_chars.deep_view();
    let ghost cells = Seq::new(
        width as nat,
        |c: int|
            upright_cell(
                letters,
                rows as int,
                width as int,
                lpin as int,
                rpin as int,
                pos as int,
                c,
            ),
    );
    let mut line = String::new();
    let mut c: usize = 0;
    proof {
        lemma_flatten_start(cells);
    }
    while c < width
        invariant
            c <= width,
            1 <= pos <= rows,
            num_chars == name_chars.len(),
            center == width / 2,
            spc == if pos == rows { '_' } else { ' ' },
            letters == name_chars.deep_view(),
            cells == Seq::new(
                width as nat,
                |c: int|
                    upright_cell(
                        letters,
                        rows as int,
                        width as int,
                        lpin as int,
                        rpin as int,
                        pos as int,
                        c,
                    ),
            ),
            line@ == cells.take(c as int).flatten(),
        decreases width - c,
    {
        proof {
            lemma_flatten_next(cells, c as int);
            assert(letters.len() == name_chars.len());
        }
        let ghost before = line@;
        if lpin == 1 && c == 0 {
            line.push('*');
        } else if rpin == 1 && c == width - 1 {
            line.push('*');
        } else if c == center && num_chars <= rows && pos >= (rows - num_chars) / 2 + 1 && pos - ((
        rows - num_chars) / 2 + 1) < num_chars {
            let name_start = (rows - num_chars) / 2 + 1;
            assert(letters[pos - name_start] == name_chars[pos - name_start]@);
            line.append(name_chars[pos - name_start].as_str());
        } else {
            line.push(spc);
        }
        assert(line@ == before + cells[c as int]);
        c += 1;
    }
    proof {
        assert(cells.take(width as int) == cells);
    }
    line
}

/// Adds to each of the first `height` lines a blank and the cell that
/// `cells` has for it.
fn add_column(lines: &mut Vec<String>, cells: &Vec<String>, height: usize)
    requires
        old(lines).len() == height,
        cells.len() >= height,
    ensures
        final(lines).len() == height,
        forall|l: int|
            0 <= l < height ==> (#[trigger] final(lines)[l])@ == old(lines)[l]@ + seq![' ']
                + cells[l]@,
{
    let mut l: usize = 0;
    while l < height
        invariant
            l <= height,
            lines.len() == height,
            cells.len() >= height,
            forall|j: int|
                0 <= j < l ==> (#[trigger] lines[j])@ == old(lines)[j]@ + seq![' '] + cells[j]@,
            forall|j: int| l <= j < height ==> (#[trigger] lines[j]) == old(lines)[j],
        decreases height - l,
    {
        let line = &mut lines[l];
        line.push(' ');
        line.append(cells[l].as_str());
        l += 1;
    }
}

/// `count` lines with nothing on them.
fn empty_lines(count: usize) -> (lines: Vec<String>)
    ensures
        lines.len() == count,
        forall|l: int| 0 <= l < count ==> (#[trigger] lines[l])@ == Seq::<char>::empty(),
{
    let mut lines: Vec<String> = Vec::new();
    let mut l: usize = 0;
    while l < count
        invariant
            l <= count,
            lines.len() == l,
            forall|j: int| 0 <= j < l ==> (#[trigger] lines[j])@ == Seq::<char>::empty(),
        decreases count - l,
    {
        lines.push(String::new());
        l += 1;
    }
    lines
}

/// A line across one more stack is the line across those before it, a
/// blank, and the cell of that stack.
proof fn lemma_across_next(stacks: Seq<Seq<Seq<char>>>, k: int, l: int)
    requires
        0 <= k < stacks.len(),
    ensures
        across(stacks.take(k + 1), l) == across(stacks.take(k), l) + (seq![' '] + stacks[k][l]),
        across(stacks.take(0), l) == Seq::<char>::empty(),
{
    let more = stacks.take(k + 1);
    let cells = Seq::new(more.len(), |j: int| seq![' '] + more[j][l]);
    let fewer = stacks.take(k);
    let cells_before = Seq::new(fewer.len(), |j: int| seq![' '] + fewer[j][l]);
    assert(cells.take(k) == cells_before);
    assert(cells.take(k + 1) == cells);
    lemma_flatten_next(cells, k);
    let none = stacks.take(0);
    let no_cells = Seq::new(none.len(), |j: int| seq![' '] + none[j][l]);
    assert(no_cells == cells.take(0));
}

/// Line `l` of the body of a lying package whose edges are `edges`.
/// `name_chars` holds the letters of the name of the chip.
fn flat_body_line(
    name_chars: &Vec<String>,
    dip: usize,
    height: usize,
    edges: Traversal,
    l: usize,
) -> (line: String)
    requires
        1 <= l <= height < usize::MAX,
        dip < usize::MAX,
        1 <= edges.first.low(),
        edges.first.high() <= dip,
        edges.first.high() - edges.first.low() + 1 == dip / 2,
        1 <= edges.second.low(),
        edges.second.high() <= dip,
        edges.second.high() - edges.second.low() + 1 == dip / 2,
    ensures
        line@ == flat_body(name_chars.deep_view(), dip as int, height as int, edges, l as int),
{
    let width = dip / 2;
    let num_chars = name_chars.len();
    let named = l == height / 2 + 1 && num_chars <= dip;
    let left: usize = if num_chars <= dip { (dip - num_chars) / 2 } else { 0 };
    let border = l == 1 || l == height;
    let ghost letters = name_chars.deep_view();
    let ghost cells = Seq::new(
        (dip / 2) as nat,
        |k: int|
            flat_cell(
                letters,
                dip as int,
                height as int,
                edges.first.pin_at(k),
                edges.second.pin_at(k),
                l as int,
                k + 1,
            ),
    );
    let mut line = String::new();
    let mut tpin = edges.first.start;
    let mut bpin = edges.second.start;
    let mut pos: usize = 1;
    proof {
        lemma_flatten_start(cells);
        assert(letters.len() == name_chars.len());
    }
    while pos <= width
        invariant
            1 <= pos <= width + 1,
            width == dip / 2,
            1 <= l <= height,
            num_chars == name_chars.len(),
            letters == name_chars.deep_view(),
            named == (l == height / 2 + 1 && num_chars <= dip),
            left == if num_chars <= dip { (dip - num_chars) / 2 } else { 0 },
            border == (l == 1 || l == height),
            dip < usize::MAX,
            1 <= edges.first.low(),
            edges.first.high() <= dip,
            edges.first.high() - edges.first.low() + 1 == dip / 2,
            1 <= edges.second.low(),
            edges.second.high() <= dip,
            edges.second.high() - edges.second.low() + 1 == dip / 2,
            tpin == edges.first.pin_at(pos - 1),
            bpin == edges.second.pin_at(pos - 1),
            cells == Seq::new(
                (dip / 2) as nat,
                |k: int|
                    flat_cell(
                        letters,
                        dip as int,
                        height as int,
                        edges.first.pin_at(k),
                        edges.second.pin_at(k),
                        l as int,
                        k + 1,
                    ),
            ),
            line@ == cells.take(pos - 1).flatten(),
        decreases width + 1 - pos,
    {
        proof {
            lemma_flatten_next(cells, pos - 1);
        }
        let ghost drawn = line@;
        let c = (pos - 1) * 2;
        if pos == 1 {
            if border {
                line.push('+');
            } else {
                line.push('|');
            }
        } else if border {
            line.push('-');
        } else if named && c >= left && c - left < num_chars {
            assert(letters[c - left] == name_chars[c - left]@);
            line.append(name_chars[c - left].as_str());
        } else {
            line.push(' ');
        }
        if border {
            line.push('-');
        } else if l == 2 && tpin == 1 {
            line.push('*');
        } else if l == height - 1 && bpin == 1 {
            line.push('*');
        } else if named && c + 1 >= left && c + 1 - left < num_chars {
            assert(letters[c + 1 - left] == name_chars[c + 1 - left]@);
            line.append(name_chars[c + 1 - left].as_str());
        } else {
            line.push(' ');
        }
        assert(line@ == drawn + cells[pos - 1]);
        tpin = pin_step(tpin, edges.first.start, edges.first.end);
        bpin = pin_step(bpin, edges.second.start, edges.second.end);
        pos += 1;
    }
    proof {
        assert(cells.take(width as int) == cells);
    }
    if border {
        line.push('+');
    } else {
        line.push('|');
    }
    line
}

impl View for Dip {
    type V = Chip;

    open spec fn view(&self) -> Chip {
        Chip {
            name: self.name@,
            title: self.title@,
            dip: self.dip as nat,
            width: self.width,
            pins: labels(self.pins@),
        }
    }
}

impl Dip {

    /// The chip is one that a description can give: see `Chip::wf`.
    pub open spec fn wf(&self) -> bool {
        self@.wf()
    }

    fn dip_width(&self) -> (w: usize)
        ensures
            w == body_width(self.width),
    {
        match self.width {
            DipWidth::MIL300 => 5,
            DipWidth::MIL600 => 9,
        }
    }

    fn dip_height(&self) -> (h: usize)
        ensures
            h == body_height(self.width),
    {
        match self.width {
            DipWidth::MIL300 => 4,
            DipWidth::MIL600 => 6,
        }
    }

    /// The user-perceived characters of the name of the chip.
    fn name_chars(&self) -> (out: Vec<String>)
        ensures
            out.deep_view() == graphemes(self.name@),
    {
        grapheme_clusters(self.name.as_str())
    }

    /// The label of pin `pin_number`.
    pub fn pin(&self, pin_number: usize) -> (label: &PinName)
        requires
            self@.pins.contains_key(pin_number as int),
        ensures
            label@ == self@.pins[pin_number as int],
    {
        self.pins.get(pin_number).unwrap()
    }

    /// The widths of the columns that the labels of the pins from `start`
    /// to `end` are written in, and the room that the columns take
    /// together.
    pub fn max_name_width(&self, start: usize, end: usize, show_alt: AltNames) -> (out: (
        usize,
        Vec<usize>,
    ))
        requires
            self.wf(),
            1 <= start <= self@.dip,
            1 <= end <= self@.dip,
            self@.text_size(Edge { start, end }.low(), Edge { start, end }.high()) <= usize::MAX,
        ensures
            as_nats(out.1@) == self@.widths(Edge { start, end }, show_alt),
            out.0 == self@.label_width(Edge { start, end }, show_alt),
            out.1.len() >= 1,
            out.0 < self@.text_size(Edge { start, end }.low(), Edge { start, end }.high()),
    {
        let limit: usize = match show_alt {
            AltNames::NONE => 1,
            AltNames::ALT1 => 2,
            AltNames::ALT2 => 3,
            AltNames::ALL => usize::MAX,
        };
        let lo: usize = if start < end { start } else { end };
        let hi: usize = if start < end { end } else { start };
        let ghost chip = self@;
        let mut names_width: Vec<usize> = Vec::new();
        let mut pin: usize = lo;
        assert(as_nats(names_width@) == chip.widths_between(lo as int, pin - 1, show_alt));
        assert(total(as_nats(names_width@)) == 0);
        while pin <= hi
            invariant
                chip == self@,
                chip.wf(),
                1 <= lo <= pin <= hi + 1,
                hi <= self.dip,
                limit == match show_alt {
                    AltNames::NONE => 1,
                    AltNames::ALT1 => 2,
                    AltNames::ALT2 => 3,
                    AltNames::ALL => usize::MAX,
                },
                chip.text_size(lo as int, hi as int) <= usize::MAX,
                as_nats(names_width@) == chip.widths_between(lo as int, pin - 1, show_alt),
                total(as_nats(names_width@)) + names_width.len() <= chip.text_size(
                    lo as int,
                    pin - 1,
                ),
            decreases hi + 1 - pin,
        {
            let label = self.pin(pin);
            let names = label.names();
            let ghost before = as_nats(names_width@);
            let ghost given = chip.names(pin as int);
            let ghost room = chip.text_size(lo as int, pin - 1);
            let count: usize = if names.len() < limit { names.len() } else { limit };
            proof {
                assert(names.deep_view().len() == names.len());
                assert(count == shown(given.len(), show_alt));
                chip.lemma_text_size_grows(lo as int, pin as int, lo as int, hi as int);
                assert(given.take(0).len() == 0);
            }
            let mut i: usize = 0;
            while i < count
                invariant
                    i <= count <= names.len(),
                    names.deep_view() == given,
                    given == alternates(chip.pins[pin as int]),
                    names_width.len() == if before.len() < i { i as nat } else { before.len() },
                    forall|j: int|
                        0 <= j < names_width.len() ==> (#[trigger] names_width@[j]) as nat == {
                            let old_width = if j < before.len() { before[j] } else { 0 };
                            let new_width = if j < i { measure(given[j]) } else { 0 };
                            if old_width < new_width { new_width } else { old_width }
                        },
                    total(as_nats(names_width@)) + names_width.len() <= room + weight(
                        given.take(i as int),
                    ),
                    room + chip.pins[pin as int].len() + 1 <= usize::MAX,
                decreases count - i,
            {
                proof {
                    lemma_weight_of_names(chip.pins[pin as int], i as int + 1);
                    assert(given.take(i as int + 1).drop_last() == given.take(i as int));
                    assert(names.deep_view()[i as int] == names[i as int]@);
                }
                let width = crate::text::width(names[i]);
                if names_width.len() <= i {
                    let ghost widths = as_nats(names_width@);
                    names_width.push(0);
                    proof {
                        assert(as_nats(names_width@) == widths.push(0));
                        assert(widths.push(0).drop_last() == widths);
                    }
                }
                if names_width[i] < width {
                    let ghost widths = as_nats(names_width@);
                    names_width.set(i, width);
                    proof {
                        assert(as_nats(names_width@) == widths.update(i as int, width as nat));
                        lemma_total_update(widths, i as int, width as nat);
                    }
                }
                i += 1;
            }
            proof {
                lemma_weight_of_names(chip.pins[pin as int], count as int);
                let after = as_nats(names_width@);
                let wanted = chip.widths_between(lo as int, pin as int, show_alt);
                assert(after.len() == wanted.len());
                assert forall|j: int| 0 <= j < after.len() implies after[j] == wanted[j] by {
                    chip.lemma_columns_within(lo as int, pin as int, show_alt, j);
                    if j >= before.len() {
                        chip.lemma_column_unused(lo as int, pin - 1, show_alt, j);
                    }
                    assert(after[j] == names_width@[j] as nat);
                }
                assert(after == wanted);
            }
            pin += 1;
        }
        let ghost widths = as_nats(names_width@);
        proof {
            chip.lemma_columns_exist(lo as int, hi as int, show_alt);
            assert(widths.take(0).len() == 0);
        }
        let mut sum: usize = 0;
        let mut k: usize = 0;
        while k < names_width.len()
            invariant
                k <= names_width.len(),
                widths == as_nats(names_width@),
                sum == total(widths.take(k as int)),
                total(widths) + names_width.len() <= usize::MAX,
            decreases names_width.len() - k,
        {
            proof {
                lemma_total_prefix(widths, k as int + 1);
                assert(widths.take(k as int + 1).drop_last() == widths.take(k as int));
            }
            sum = sum + names_width[k];
            k += 1;
        }
        assert(widths.take(k as int) == widths);
        let spaces = names_width.len() - 1;
        (sum + spaces, names_width)
    }

    /// The drawing of the chip as an upright package whose left and right
    /// edges are those of `edges`.
    pub fn print_vertical(&self, edges: Traversal, show_pin: PinGap, show_alt: AltNames) -> (out:
        Vec<String>)
        requires
            self.wf(),
            self@.fits(),
            self@.holds(edges.first),
            self@.holds(edges.second),
        ensures
            out.deep_view() == self@.upright(edges, show_pin, show_alt),
    {
        let lstart = edges.first.start;
        let lend = edges.first.end;
        let rstart = edges.second.start;
        let rend = edges.second.end;
        let ghost chip = self@;
        proof {
            chip.lemma_text_size_grows(edges.first.low(), edges.first.high(), 1, chip.dip as int);
            chip.lemma_text_size_grows(edges.second.low(), edges.second.high(), 1, chip.dip as int);
        }
        let (lmax, lmaxes) = self.max_name_width(lstart, lend, show_alt);
        let (rmax, rmaxes) = self.max_name_width(rstart, rend, show_alt);
        let (lpin_width, rpin_width): (usize, usize) = match show_pin {
            PinGap::PIN2 => (
                self.max_pin_width(lstart, lend) + 2,
                self.max_pin_width(rstart, rend) + 2,
            ),
            PinGap::PIN1 => (
                self.max_pin_width(lstart, lend) + 1,
                self.max_pin_width(rstart, rend) + 1,
            ),
            PinGap::NONE => (0, 0),
        };
        assert(lpin_width == number_width(edges.first, show_pin));
        assert(rpin_width == number_width(edges.second, show_pin));

        let mut out: Vec<String> = Vec::new();
        let mut line = String::new();
        proof {
            reveal_strlit(" ");
            assert(" "@ == seq![' ']);
        }
        line.append(right(lmax + lpin_width + 1, " ").as_str());
        line.append(chars(self.dip_width(), '_').as_str());
        assert(line@ == chip.upright_top(edges, show_pin, show_alt));
        out.push(line);

        let bottom = self.dip / 2;
        let name_chars = self.name_chars();
        let ghost rows = Seq::new(
            chip.dip / 2,
            |k: int| chip.upright_row(edges, show_pin, show_alt, k + 1),
        );
        let ghost top = seq![chip.upright_top(edges, show_pin, show_alt)];
        assert(out.deep_view() == top + rows.take(0));

        let mut lpin = lstart;
        let mut rpin = rstart;
        let mut pos: usize = 1;
        while pos <= bottom
            invariant
                chip == self@,
                chip.wf(),
                chip.holds(edges.first),
                chip.holds(edges.second),
                lstart == edges.first.start,
                lend == edges.first.end,
                rstart == edges.second.start,
                rend == edges.second.end,
                1 <= pos <= bottom + 1,
                bottom == chip.dip / 2,
                lpin == edges.first.pin_at(pos - 1),
                rpin == edges.second.pin_at(pos - 1),
                lmax == chip.label_width(edges.first, show_alt),
                rmax == chip.label_width(edges.second, show_alt),
                as_nats(lmaxes@) == chip.widths(edges.first, show_alt),
                as_nats(rmaxes@) == chip.widths(edges.second, show_alt),
                lpin_width == number_width(edges.first, show_pin),
                rpin_width == number_width(edges.second, show_pin),
                name_chars.deep_view() == graphemes(chip.name),
                rows == Seq::new(
                    chip.dip / 2,
                    |k: int| chip.upright_row(edges, show_pin, show_alt, k + 1),
                ),
                top == seq![chip.upright_top(edges, show_pin, show_alt)],
                out.deep_view() == top + rows.take(pos - 1),
            decreases bottom + 1 - pos,
        {
            let mut line = String::new();
            line.append(
                right(lmax, self.pin(lpin).names_horizontal(&lmaxes, true).as_str()).as_str(),
            );
            if show_pin != PinGap::NONE {
                line.append(right(lpin_width, decimal_text(lpin as u64).as_str()).as_str());
            }
            line.push('|');
            line.append(
                upright_body_line(&name_chars, bottom, self.dip_width(), lpin, rpin, pos).as_str(),
            );
            line.push('|');
            if show_pin != PinGap::NONE {
                line.append(left(rpin_width, decimal_text(rpin as u64).as_str()).as_str());
            }
            line.append(
                left(rmax, self.pin(rpin).names_horizontal(&rmaxes, false).as_str()).as_str(),
            );
            assert(line@ == chip.upright_row(edges, show_pin, show_alt, pos as int));
            let ghost drawn = out.deep_view();
            out.push(line);
            proof {
                assert(out.deep_view() == drawn.push(rows[pos - 1]));
                assert(rows.take(pos as int) == rows.take(pos - 1).push(rows[pos - 1]));
            }
            lpin = pin_step(lpin, lstart, lend);
            rpin = pin_step(rpin, rstart, rend);
            pos += 1;
        }
        assert(rows.take(bottom as int) == rows);
        if show_pin != PinGap::NONE {
            let title_width = crate::text::width(self.title.as_str());
            let width = lmax + lpin_width + 1 + (self.dip_width() + title_width) / 2;
            let ghost drawn = out.deep_view();
            let title = right(width, self.title.as_str());
            assert(title@ == chip.upright_title(edges, show_pin, show_alt));
            out.push(title);
            assert(out.deep_view() == drawn.push(chip.upright_title(edges, show_pin, show_alt)));
        }
        out
    }

    /// Adds to `out` the lines above (`top`) or below a lying package for
    /// the pins from `start` to `end`: their labels, and their numbers
    /// where those are shown.
    pub fn print_pins_vertical(
        &self,
        start: usize,
        end: usize,
        show_pin: PinGap,
        show_alt: AltNames,
        top: bool,
        out: &mut Vec<String>,
    )
        requires
            self.wf(),
            self@.fits(),
            self@.holds(Edge { start, end }),
        ensures
            final(out).deep_view() == old(out).deep_view() + self@.pin_rows(
                Edge { start, end },
                show_pin,
                show_alt,
                top,
            ),
    {
        let ghost chip = self@;
        let ghost edge = Edge { start, end };
        proof {
            chip.lemma_text_size_grows(edge.low(), edge.high(), 1, chip.dip as int);
        }
        let (name_height, names_width) = self.max_name_width(start, end, show_alt);
        let pin_height = self.max_pin_width(start, end);
        let width = self.dip / 2;
        let mut names = empty_lines(name_height);
        let mut pins = empty_lines(pin_height);
        let ghost label_stacks = chip.label_stacks(edge, show_alt, top);
        let ghost number_stacks = chip.number_stacks(edge, top);
        let mut pin = start;
        let mut k: usize = 0;
        proof {
            assert forall|l: int| 0 <= l < name_height implies (#[trigger] names[l])@ == across(
                label_stacks.take(0),
                l,
            ) by {
                lemma_across_next(label_stacks, 0, l);
            }
            assert forall|l: int| 0 <= l < pin_height implies (#[trigger] pins[l])@ == across(
                number_stacks.take(0),
                l,
            ) by {
                lemma_across_next(number_stacks, 0, l);
            }
        }
        while k < width
            invariant
                chip == self@,
                chip.wf(),
                chip.holds(edge),
                edge == (Edge { start, end }),
                k <= width,
                width == chip.dip / 2,
                pin == edge.pin_at(k as int),
                name_height == chip.label_width(edge, show_alt),
                as_nats(names_width@) == chip.widths(edge, show_alt),
                pin_height == pin_width(start as int, end as int),
                label_stacks == chip.label_stacks(edge, show_alt, top),
                number_stacks == chip.number_stacks(edge, top),
                names.len() == name_height,
                pins.len() == pin_height,
                forall|l: int|
                    0 <= l < name_height ==> (#[trigger] names[l])@ == across(
                        label_stacks.take(k as int),
                        l,
                    ),
                show_pin != PinGap::NONE ==> forall|l: int|
                    0 <= l < pin_height ==> (#[trigger] pins[l])@ == across(
                        number_stacks.take(k as int),
                        l,
                    ),
            decreases width - k,
        {
            let name_chars = self.pin(pin).names_vertical(&names_width, top);
            let ghost names_before = names@;
            add_column(&mut names, &name_chars, name_height);
            proof {
                assert forall|l: int| 0 <= l < name_height implies (#[trigger] names[l])@
                    == across(label_stacks.take(k as int + 1), l) by {
                    lemma_across_next(label_stacks, k as int, l);
                    assert(name_chars.deep_view()[l] == name_chars[l]@);
                    assert(names[l]@ == names_before[l]@ + seq![' '] + name_chars[l]@);
                }
            }
            if show_pin != PinGap::NONE {
                let number = decimal_text(pin as u64);
                let pin_chars = if top {
                    bottom(pin_height, number.as_str())
                } else {
                    crate::print::top(pin_height, number.as_str())
                };
                assert(pin_chars.deep_view() == stacked_number(edge, pin as int, top));
                assert(pin_chars.deep_view().len() == pin_chars.len());
                let ghost pins_before = pins@;
                add_column(&mut pins, &pin_chars, pin_height);
                proof {
                    assert forall|l: int| 0 <= l < pin_height implies (#[trigger] pins[l])@
                        == across(number_stacks.take(k as int + 1), l) by {
                        lemma_across_next(number_stacks, k as int, l);
                        assert(pin_chars.deep_view()[l] == pin_chars[l]@);
                        assert(pins[l]@ == pins_before[l]@ + seq![' '] + pin_chars[l]@);
                    }
                }
            }
            pin = pin_step(pin, start, end);
            k += 1;
        }
        proof {
            assert(label_stacks.take(width as int) == label_stacks);
            assert(number_stacks.take(width as int) == number_stacks);
            assert(names.deep_view() == chip.label_rows(edge, show_alt, top));
            if show_pin != PinGap::NONE {
                assert(pins.deep_view() == chip.number_rows(edge, top));
            }
            reveal_strlit(" ");
            assert(" "@ == seq![' ']);
        }
        let ghost drawn = out.deep_view();
        let ghost labels = names.deep_view();
        let ghost numbers = pins.deep_view();
        if top {
            out.append(&mut names);
            assert(out.deep_view() == drawn + labels);
            if show_pin != PinGap::NONE {
                out.push(" ".to_owned());
                assert(out.deep_view() == drawn + (labels + seq![seq![' ']]));
                out.append(&mut pins);
                assert(out.deep_view() == drawn + (labels + seq![seq![' ']] + numbers));
            }
        } else {
            if show_pin != PinGap::NONE {
                out.append(&mut pins);
                assert(out.deep_view() == drawn + numbers);
                out.push(" ".to_owned());
                assert(out.deep_view() == drawn + (numbers + seq![seq![' ']]));
                out.append(&mut names);
                assert(out.deep_view() == drawn + (numbers + seq![seq![' ']] + labels));
            } else {
                out.append(&mut names);
                assert(out.deep_view() == drawn + labels);
            }
        }
    }

    /// The drawing of the chip as a lying package whose top and bottom
    /// edges are those of `edges`.
    pub fn print_horizontal(&self, edges: Traversal, show_pin: PinGap, show_alt: AltNames) -> (out:
        Vec<String>)
        requires
            self.wf(),
            self@.fits(),
            self@.holds(edges.first),
            self@.holds(edges.second),
        ensures
            out.deep_view() == self@.flat(edges, show_pin, show_alt),
    {
        let ghost chip = self@;
        let height = self.dip_height();
        let mut out: Vec<String> = Vec::new();
        assert(out.deep_view() == Seq::<Seq<char>>::empty());
        self.print_pins_vertical(
            edges.first.start,
            edges.first.end,
            show_pin,
            show_alt,
            true,
            &mut out,
        );
        let ghost above = chip.pin_rows(edges.first, show_pin, show_alt, true);
        assert(out.deep_view() == above);
        let name_chars = self.name_chars();
        let ghost lines = chip.flat_lines(edges);
        assert(out.deep_view() == above + lines.take(0));
        let mut l: usize = 1;
        while l <= height
            invariant
                chip == self@,
                chip.wf(),
                chip.holds(edges.first),
                chip.holds(edges.second),
                1 <= l <= height + 1,
                height == body_height(chip.width),
                name_chars.deep_view() == graphemes(chip.name),
                lines == chip.flat_lines(edges),
                above == chip.pin_rows(edges.first, show_pin, show_alt, true),
                out.deep_view() == above + lines.take(l - 1),
            decreases height + 1 - l,
        {
            let line = flat_body_line(&name_chars, self.dip, height, edges, l);
            let ghost drawn = out.deep_view();
            out.push(line);
            proof {
                assert(out.deep_view() == drawn.push(lines[l - 1]));
                assert(lines.take(l as int) == lines.take(l - 1).push(lines[l - 1]));
            }
            l += 1;
        }
        assert(lines.take(height as int) == lines);
        self.print_pins_vertical(
            edges.second.start,
            edges.second.end,
            show_pin,
            show_alt,
            false,
            &mut out,
        );
        if show_pin != PinGap::NONE {
            let title_width = crate::text::width(self.title.as_str());
            proof {
                chip.lemma_text_size_counts(1, chip.dip as int);
            }
            let width = (self.dip + 1 + title_width) / 2;
            let ghost drawn = out.deep_view();
            let title = right(width, self.title.as_str());
            out.push(title);
            assert(out.deep_view() == drawn.push(chip.flat_title()));
        }
        out
    }

    /// The drawing of the chip, seen from `side` with pin 1 turned to
    /// `dir`: one text line for each line of the drawing, from the top.
    pub fn print(&self, dir: Direction, side: Side, show_pin: PinGap, show_alt: AltNames) -> (out:
        Vec<String>)
        requires
            self.wf(),
            self@.fits(),
        ensures
            out.deep_view() == self@.drawing(dir, side, show_pin, show_alt),
    {
        let edges = resolve(side, dir, self.dip);
        match dir {
            Direction::NORTH => self.print_vertical(edges, show_pin, show_alt),
            Direction::SOUTH => self.print_vertical(edges, show_pin, show_alt),
            Direction::EAST => self.print_horizontal(edges, show_pin, show_alt),
            Direction::WEST => self.print_horizontal(edges, show_pin, show_alt),
        }
    }

    /// The chip that `document` describes, or the first thing that is
    /// wrong with it.
    pub fn from_document(document: Document) -> (out: Result<Dip, String>)
        ensures
            match out {
                Ok(dip) => described_by(document@) == Ok::<Chip, Seq<char>>(dip@) && dip.wf(),
                Err(complaint) => described_by(document@) == Err::<Chip, Seq<char>>(complaint@),
            },
    {
        let toml: Vec<Entry> = match document {
            Document::Invalid(complaint) => return Err(complaint),
            Document::Scalar => Vec::new(),
            Document::Table(entries) => entries,
        };
        let ghost fields = fields_of(toml@);
        assert(document@ is Scalar ==> fields == Seq::<Field>::empty());

        let name = match find(&toml, "name") {
            None => return Err("no name".to_owned()),
            Some(v) => match v {
                Value::Text(text) => text.clone(),
                _ => return Err("name must be string".to_owned()),
            },
        };

        let title = match find(&toml, "title") {
            None => name.clone(),
            Some(v) => match v {
                Value::Text(text) => text.clone(),
                _ => return Err("title must be string".to_owned()),
            },
        };

        let dip: usize = match find(&toml, "dip") {
            None => return Err("no dip package".to_owned()),
            Some(v) => match v {
                Value::Integer(n) => {
                    let n: i64 = *n;
                    if n <= 0 {
                        return Err(
                            framed(
                                "dip package ",
                                signed_decimal_text(n).as_str(),
                                " must be positive",
                            ),
                        );
                    } else if n >= 50 {
                        return Err(
                            framed(
                                "dip package ",
                                signed_decimal_text(n).as_str(),
                                " must be less than 50",
                            ),
                        );
                    } else if n % 2 != 0 {
                        return Err(
                            framed(
                                "dip package ",
                                signed_decimal_text(n).as_str(),
                                " must be even",
                            ),
                        );
                    }
                    n as usize
                },
                _ => return Err("dip package must be number".to_owned()),
            },
        };

        let width = match find(&toml, "width") {
            None => return Err("no width".to_owned()),
            Some(v) => match v {
                Value::Integer(w) => {
                    let w: i64 = *w;
                    if w == 300 {
                        DipWidth::MIL300
                    } else if w == 600 {
                        DipWidth::MIL600
                    } else {
                        return Err(
                            framed(
                                "width ",
                                signed_decimal_text(w).as_str(),
                                " must be 300 or 600 mil",
                            ),
                        );
                    }
                },
                _ => return Err("width must be number in mil".to_owned()),
            },
        };

        match pins_to_vec_result(&toml, dip) {
            Err(err) => Err(err),
            Ok(pins) => {
                let chip = Dip { name, title, dip, width, pins };
                proof {
                    assert(described(fields) == Ok::<Chip, Seq<char>>(chip@));
                    described_chip_is_whole(fields);
                }
                Ok(chip)
            },
        }
    }

    /// The chip that the text `s` describes, or what is wrong with the
    /// text: as a document, or else as the description of a chip.
    pub fn from_str(s: &str) -> (out: Result<Dip, String>)
        ensures
            match out {
                Ok(dip) => described_by(toml_document(s@)) == Ok::<Chip, Seq<char>>(dip@)
                    && dip.wf(),
                Err(complaint) => described_by(toml_document(s@)) == Err::<Chip, Seq<char>>(
                    complaint@,
                ),
            },
    {
        Dip::from_document(read_document(s))
    }

    /// Whether a drawing of the chip can be measured in `usize`.
    pub fn fits(&self) -> (ok: bool)
        requires
            self.wf(),
        ensures
            ok == self@.fits(),
    {
        let ghost chip = self@;
        let mut size: usize = 0;
        let mut pin: usize = 0;
        while pin < self.dip
            invariant
                chip == self@,
                chip.wf(),
                pin <= self.dip,
                size == chip.text_size(1, pin as int),
            decreases self.dip - pin,
        {
            pin += 1;
            proof {
                chip.lemma_text_size_grows(1, pin as int, 1, chip.dip as int);
            }
            size = match size.checked_add(self.pin(pin).text_len()) {
                None => return false,
                Some(sum) => match sum.checked_add(1) {
                    None => return false,
                    Some(sum) => sum,
                },
            };
        }
        match size.checked_add(self.title.as_str().unicode_len()) {
            None => false,
            Some(sum) => sum.checked_add(16).is_some(),
        }
    }

    /// What the chip is, on one line.
    pub fn to_string(&self) -> (out: String)
        requires
            self.wf(),
        ensures
            out@ == self@.summary(),
    {
        let ghost chip = self@;
        let mut out = framed("[name=", self.name.as_str(), " ");
        out.append(framed("title=", self.title.as_str(), " ").as_str());
        let package = framed("package=DIP", decimal_text(self.dip as u64).as_str(), " withd=");
        out.append(package.as_str());
        match self.width {
            DipWidth::MIL300 => out.append("MIL300"),
            DipWidth::MIL600 => out.append("MIL600"),
        }
        out.append(" pins=[");
        let ghost head = out@;
        let ghost cells = Seq::new(
            (chip.dip - 1) as nat,
            |k: int| chip.names(k + 1)[0] + seq![' '],
        );
        proof {
            reveal_strlit(" ");
            reveal_strlit("[name=");
            reveal_strlit("title=");
            reveal_strlit(" title=");
            reveal_strlit("package=DIP");
            reveal_strlit(" package=DIP");
            assert(" "@ + "title="@ == " title="@);
            assert(" "@ + "package=DIP"@ == " package=DIP"@);
            assert(head == "[name="@ + chip.name + " title="@ + chip.title + " package=DIP"@
                + decimal(chip.dip) + " withd="@ + width_name(chip.width) + " pins=["@);
            lemma_flatten_start(cells);
        }
        let mut pin: usize = 1;
        while pin < self.dip
            invariant
                chip == self@,
                chip.wf(),
                1 <= pin <= self.dip,
                cells == Seq::new((chip.dip - 1) as nat, |k: int| chip.names(k + 1)[0] + seq![' ']),
                out@ == head + cells.take(pin - 1).flatten(),
            decreases self.dip - pin,
        {
            proof {
                lemma_flatten_next(cells, pin - 1);
            }
            out.append(self.pin(pin).name());
            out.push(' ');
            pin += 1;
        }
        assert(cells.take(pin - 1) == cells);
        out.append(self.pin(self.dip).name());
        out.append("]]");
        out
    }

    fn max_pin_width(&self, start: usize, end: usize) -> (w: usize)
        ensures
            w == pin_width(start as int, end as int),
    {
        if start < 10 && end < 10 {
            1
        } else {
            2
        }
    }
}

} // verus!
