//! What a chip is, and the measures that a drawing of it is laid out by.

use vstd::prelude::*;
use crate::cli::AltNames;
use crate::dip::DipWidth;
use crate::orient::Edge;
use crate::pin::{alternates, lemma_parts_nonempty, parts, span, total};
use crate::text::{decimal, lemma_trimmed_is_shorter, measure};

verus! {

/// What a chip is, apart from how it is stored.
pub struct Chip {
    pub name: Seq<char>,
    pub title: Seq<char>,
    pub dip: nat,
    pub width: DipWidth,
    /// The text of each pin, by its number.
    pub pins: Map<int, Seq<char>>,
}

/// Whether column `i` of a label is shown.
pub open spec fn within(i: int, show_alt: AltNames) -> bool {
    match show_alt {
        AltNames::NONE => i < 1,
        AltNames::ALT1 => i < 2,
        AltNames::ALT2 => i < 3,
        AltNames::ALL => true,
    }
}

/// How many of `count` names are shown.
pub open spec fn shown(count: nat, show_alt: AltNames) -> nat {
    match show_alt {
        AltNames::NONE => if count < 1 { count } else { 1 },
        AltNames::ALT1 => if count < 2 { count } else { 2 },
        AltNames::ALT2 => if count < 3 { count } else { 3 },
        AltNames::ALL => count,
    }
}

/// The room that `names` take, each with the comma or the end behind it.
pub open spec fn weight(names: Seq<Seq<char>>) -> nat
    decreases names.len(),
{
    if names.len() == 0 {
        0
    } else {
        weight(names.drop_last()) + names.last().len() + 1
    }
}

impl Chip {
    /// There are pins, an even number of them and fewer than 50, and
    /// exactly the pins 1 to that number have a text.
    pub open spec fn wf(self) -> bool {
        &&& 0 < self.dip < 50
        &&& self.dip % 2 == 0
        &&& forall|p: int| self.pins.contains_key(p) <==> 1 <= p <= self.dip
    }

    /// The pins along `edge` are pins of the chip, and there are as many of
    /// them as one edge of the package has.
    pub open spec fn holds(self, edge: Edge) -> bool {
        &&& 1 <= edge.low()
        &&& edge.high() <= self.dip
        &&& edge.high() - edge.low() + 1 == self.dip / 2
    }

    /// The names of pin `pin`, alternates included.
    pub open spec fn names(self, pin: int) -> Seq<Seq<char>> {
        alternates(self.pins[pin])
    }

    /// How wide the name in column `i` of pin `pin` is; nothing where the
    /// pin has no such name.
    pub open spec fn name_width(self, pin: int, i: int) -> nat {
        if 0 <= i < self.names(pin).len() {
            measure(self.names(pin)[i])
        } else {
            0
        }
    }

    /// How many columns the labels of the pins `lo` to `hi` need: as many
    /// as the pin with the most names that are shown.
    pub open spec fn columns(self, lo: int, hi: int, show_alt: AltNames) -> nat
        decreases hi - lo + 1,
    {
        if hi < lo {
            0
        } else {
            let before = self.columns(lo, hi - 1, show_alt);
            let here = shown(self.names(hi).len(), show_alt);
            if before < here {
                here
            } else {
                before
            }
        }
    }

    /// How wide column `i` is for the pins `lo` to `hi`: as wide as the
    /// widest name that any of them has there.
    pub open spec fn column_width(self, lo: int, hi: int, i: int) -> nat
        decreases hi - lo + 1,
    {
        if hi < lo {
            0
        } else {
            let before = self.column_width(lo, hi - 1, i);
            let here = self.name_width(hi, i);
            if before < here {
                here
            } else {
                before
            }
        }
    }

    /// The widths of the columns that the labels of the pins `lo` to `hi`
    /// are written in.
    pub open spec fn widths_between(self, lo: int, hi: int, show_alt: AltNames) -> Seq<nat> {
        Seq::new(self.columns(lo, hi, show_alt), |i: int| self.column_width(lo, hi, i))
    }

    /// The widths of the columns that the labels along `edge` are written
    /// in.
    pub open spec fn widths(self, edge: Edge, show_alt: AltNames) -> Seq<nat> {
        self.widths_between(edge.low(), edge.high(), show_alt)
    }

    /// The room that the labels along `edge` take.
    pub open spec fn label_width(self, edge: Edge, show_alt: AltNames) -> nat {
        span(self.widths(edge, show_alt))
    }

    /// The characters in the texts of the pins `lo` to `hi`, and one more
    /// for each pin.
    pub open spec fn text_size(self, lo: int, hi: int) -> nat
        decreases hi - lo + 1,
    {
        if hi < lo {
            0
        } else {
            self.text_size(lo, hi - 1) + self.pins[hi].len() + 1
        }
    }

    /// What the chip is, on one line: its name, its title, its package
    /// and the first name of each pin.
    pub open spec fn summary(self) -> Seq<char> {
        "[name="@ + self.name + " title="@ + self.title + " package=DIP"@ + decimal(self.dip)
            + " withd="@ + width_name(self.width) + " pins=["@ + Seq::new(
            (self.dip - 1) as nat,
            |k: int| self.names(k + 1)[0] + seq![' '],
        ).flatten() + self.names(self.dip as int)[0] + "]]"@
    }

    /// A drawing of the chip can be measured in `usize`: the texts of its
    /// pins and its title leave room to spare.
    pub open spec fn fits(self) -> bool {
        self.text_size(1, self.dip as int) + self.title.len() + 16 <= usize::MAX
    }
}

/// What a width is called.
pub open spec fn width_name(width: DipWidth) -> Seq<char> {
    match width {
        DipWidth::MIL300 => "MIL300"@,
        DipWidth::MIL600 => "MIL600"@,
    }
}

/// How many character columns the body of a package takes where its pins
/// are at the left and right.
pub open spec fn body_width(width: DipWidth) -> nat {
    match width {
        DipWidth::MIL300 => 5,
        DipWidth::MIL600 => 9,
    }
}

/// How many lines the body of a package takes where its pins are at the
/// top and bottom.
pub open spec fn body_height(width: DipWidth) -> nat {
    match width {
        DipWidth::MIL300 => 4,
        DipWidth::MIL600 => 6,
    }
}

/// How many characters the pin numbers along an edge take.
pub open spec fn pin_width(start: int, end: int) -> nat {
    if start < 10 && end < 10 {
        1
    } else {
        2
    }
}

/// The parts of a text weigh one more than the text has characters.
pub proof fn lemma_weight_of_parts(text: Seq<char>)
    ensures
        weight(parts(text)) == text.len() + 1,
    decreases text.len(),
{
    if text.len() == 0 {
        let only: Seq<Seq<char>> = seq![Seq::empty()];
        assert(only.drop_last().len() == 0);
        assert(weight(only.drop_last()) == 0);
    } else {
        let before = parts(text.drop_last());
        lemma_parts_nonempty(text.drop_last());
        lemma_weight_of_parts(text.drop_last());
        if text.last() == ',' {
            let after = before.push(Seq::empty());
            assert(after.drop_last() == before);
        } else {
            let grown = before.last().push(text.last());
            let after = before.drop_last().push(grown);
            assert(after.drop_last() == before.drop_last());
        }
    }
}

/// Names that are each no longer than their counterparts weigh no more.
pub proof fn lemma_weight_pointwise(a: Seq<Seq<char>>, b: Seq<Seq<char>>)
    requires
        a.len() == b.len(),
        forall|i: int| 0 <= i < a.len() ==> (#[trigger] a[i]).len() <= b[i].len(),
    ensures
        weight(a) <= weight(b),
    decreases a.len(),
{
    if a.len() > 0 {
        lemma_weight_pointwise(a.drop_last(), b.drop_last());
    }
}

/// The first names weigh no more than all of them.
pub proof fn lemma_weight_prefix(names: Seq<Seq<char>>, k: int)
    requires
        0 <= k <= names.len(),
    ensures
        weight(names.take(k)) <= weight(names),
    decreases names.len(),
{
    if k == names.len() {
        assert(names.take(k) == names);
    } else {
        assert(names.take(k) == names.drop_last().take(k));
        lemma_weight_prefix(names.drop_last(), k);
    }
}

/// The first names of a pin weigh no more than its text has characters,
/// and one.
pub proof fn lemma_weight_of_names(text: Seq<char>, k: int)
    requires
        0 <= k <= alternates(text).len(),
    ensures
        weight(alternates(text).take(k)) <= text.len() + 1,
{
    let pieces = parts(text);
    let names = alternates(text);
    assert forall|i: int| 0 <= i < names.len() implies (#[trigger] names[i]).len()
        <= pieces[i].len() by {
        lemma_trimmed_is_shorter(pieces[i]);
    }
    lemma_weight_pointwise(names, pieces);
    lemma_weight_of_parts(text);
    lemma_weight_prefix(names, k);
}

/// A sum changes by as much as one of its numbers does.
pub proof fn lemma_total_update(widths: Seq<nat>, i: int, w: nat)
    requires
        0 <= i < widths.len(),
    ensures
        total(widths.update(i, w)) == total(widths) - widths[i] + w,
    decreases widths.len(),
{
    let changed = widths.update(i, w);
    if i == widths.len() - 1 {
        assert(changed.drop_last() == widths.drop_last());
    } else {
        assert(changed.drop_last() == widths.drop_last().update(i, w));
        lemma_total_update(widths.drop_last(), i, w);
    }
}

/// The first numbers sum to no more than all of them.
pub proof fn lemma_total_prefix(widths: Seq<nat>, k: int)
    requires
        0 <= k <= widths.len(),
    ensures
        total(widths.take(k)) <= total(widths),
    decreases widths.len(),
{
    if k == widths.len() {
        assert(widths.take(k) == widths);
    } else {
        assert(widths.take(k) == widths.drop_last().take(k));
        lemma_total_prefix(widths.drop_last(), k);
    }
}

impl Chip {
    /// Every column that the pins `lo` to `hi` need is one that is shown.
    pub proof fn lemma_columns_within(self, lo: int, hi: int, show_alt: AltNames, i: int)
        requires
            0 <= i < self.columns(lo, hi, show_alt),
        ensures
            within(i, show_alt),
        decreases hi - lo + 1,
    {
        if hi >= lo {
            if i < self.columns(lo, hi - 1, show_alt) {
                self.lemma_columns_within(lo, hi - 1, show_alt, i);
            }
        }
    }

    /// A column that is shown and that none of the pins `lo` to `hi` needs
    /// has no width.
    pub proof fn lemma_column_unused(self, lo: int, hi: int, show_alt: AltNames, i: int)
        requires
            self.columns(lo, hi, show_alt) <= i,
            within(i, show_alt),
        ensures
            self.column_width(lo, hi, i) == 0,
        decreases hi - lo + 1,
    {
        if hi >= lo {
            self.lemma_column_unused(lo, hi - 1, show_alt, i);
        }
    }

    /// Pins that have names need a column.
    pub proof fn lemma_columns_exist(self, lo: int, hi: int, show_alt: AltNames)
        requires
            lo <= hi,
        ensures
            self.columns(lo, hi, show_alt) >= 1,
    {
        lemma_parts_nonempty(self.pins[hi]);
    }

    /// The texts of pins count at least one for each pin.
    pub proof fn lemma_text_size_counts(self, lo: int, hi: int)
        requires
            lo <= hi + 1,
        ensures
            self.text_size(lo, hi) >= hi - lo + 1,
        decreases hi - lo + 1,
    {
        if lo <= hi {
            self.lemma_text_size_counts(lo, hi - 1);
        }
    }

    /// The texts of some of the pins are no larger than those of more.
    pub proof fn lemma_text_size_grows(self, lo: int, hi: int, lower: int, higher: int)
        requires
            lower <= lo,
            hi <= higher,
        ensures
            self.text_size(lo, hi) <= self.text_size(lower, higher),
        decreases higher - lower + 1,
    {
        if higher < lower {
        } else if hi < higher {
            self.lemma_text_size_grows(lo, hi, lower, higher - 1);
        } else if hi < lo {
        } else {
            self.lemma_text_size_grows(lo, hi - 1, lower, higher - 1);
        }
    }
}

} // verus!
