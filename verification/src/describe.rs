//! What a table has to hold to describe a chip, and what is said of one
//! that does not.

use vstd::prelude::*;
use crate::chip::Chip;
use crate::dip::{labels, DipWidth};
use crate::pin::PinName;
use crate::pins::Pins;
use crate::table::{fields_of, lookup, Content, Entry, Field, Item, Value};
use crate::text::{characters, decimal, decimal_text, framed, signed_decimal};

verus! {

/// Whether `c` is one of the digits 0 to 9.
pub open spec fn is_digit(c: char) -> bool {
    '0' <= c <= '9'
}

/// The number that the digit `c` stands for.
pub open spec fn digit_value(c: char) -> nat {
    if is_digit(c) {
        (c as nat - '0' as nat) as nat
    } else {
        0
    }
}

/// The number that `digits` write in decimal.
pub open spec fn digits_value(digits: Seq<char>) -> nat
    decreases digits.len(),
{
    if digits.len() == 0 {
        0
    } else {
        digits_value(digits.drop_last()) * 10 + digit_value(digits.last())
    }
}

/// The digits of a key: the key without the plus sign that it may start
/// with.
pub open spec fn digits_of(key: Seq<char>) -> Seq<char> {
    if key.len() > 0 && key[0] == '+' {
        key.drop_first()
    } else {
        key
    }
}

/// The pin number that `key` writes, where it writes one: digits and
/// nothing else but a plus sign before them, for a number that `usize`
/// holds.
pub open spec fn number_of(key: Seq<char>) -> Option<nat> {
    let digits = digits_of(key);
    if digits.len() > 0 && (forall|i: int| 0 <= i < digits.len() ==> is_digit(#[trigger] digits[i]))
        && digits_value(digits) <= usize::MAX {
        Some(digits_value(digits))
    } else {
        None
    }
}

/// The first digits write no more than all of them.
proof fn lemma_digits_grow(digits: Seq<char>, k: int)
    requires
        0 <= k <= digits.len(),
    ensures
        digits_value(digits.take(k)) <= digits_value(digits),
    decreases digits.len(),
{
    if k == digits.len() {
        assert(digits.take(k) == digits);
    } else {
        assert(digits.take(k) == digits.drop_last().take(k));
        lemma_digits_grow(digits.drop_last(), k);
        assert(digits_value(digits.drop_last()) <= digits_value(digits.drop_last()) * 10)
            by (nonlinear_arith);
    }
}

/// A number in decimal is digits only, and they write that number.
proof fn lemma_decimal_is_digits(n: nat)
    ensures
        decimal(n).len() > 0,
        forall|i: int| 0 <= i < decimal(n).len() ==> is_digit(#[trigger] decimal(n)[i]),
        digits_value(decimal(n)) == n,
    decreases n,
{
    let written = decimal(n);
    if n < 10 {
        assert(written.drop_last().len() == 0);
        assert(digits_value(written.drop_last()) == 0);
        assert(written.last() == crate::text::digit(n));
        assert(digit_value(written.last()) == n);
    } else {
        lemma_decimal_is_digits(n / 10);
        assert(written.drop_last() == decimal(n / 10));
        assert(written.last() == crate::text::digit(n % 10));
        assert(digit_value(written.last()) == n % 10);
    }
}

/// A key that writes a pin number in decimal is read as that number.
pub proof fn written_number_is_read(n: nat)
    requires
        n <= usize::MAX,
    ensures
        number_of(decimal(n)) == Some(n),
{
    lemma_decimal_is_digits(n);
    assert(decimal(n)[0] != '+');
}

/// The pin number that `key` writes, where it writes one.
pub fn pin_number(key: &str) -> (out: Option<usize>)
    ensures
        match out {
            Some(n) => number_of(key@) == Some(n as nat),
            None => number_of(key@) is None,
        },
{
    let chars = characters(key);
    let start: usize = if chars.len() > 0 && chars[0] == '+' { 1 } else { 0 };
    let ghost digits = digits_of(key@);
    assert(digits == key@.skip(start as int));
    if start == chars.len() {
        return None;
    }
    let mut value: usize = 0;
    let mut i: usize = start;
    assert(digits.take(0).len() == 0);
    while i < chars.len()
        invariant
            start <= i <= chars.len(),
            chars@ == key@,
            digits == key@.skip(start as int),
            digits == digits_of(key@),
            forall|j: int| 0 <= j < i - start ==> is_digit(#[trigger] digits[j]),
            value == digits_value(digits.take(i - start)),
        decreases chars.len() - i,
    {
        let c = chars[i];
        assert(c == digits[i - start]);
        if !(c >= '0' && c <= '9') {
            assert(!is_digit(digits[i - start]));
            return None;
        }
        let digit = (c as u32 - '0' as u32) as usize;
        proof {
            assert(digits.take(i - start + 1).drop_last() == digits.take(i - start));
            lemma_digits_grow(digits, i - start + 1);
        }
        value = match value.checked_mul(10) {
            None => return None,
            Some(tens) => match tens.checked_add(digit) {
                None => return None,
                Some(sum) => sum,
            },
        };
        i += 1;
    }
    assert(digits.take(i - start) == digits);
    Some(value)
}

/// What is said of a pin that is numbered 0.
pub open spec fn zero_pin() -> Seq<char> {
    "invalid pin number 0"@
}

/// What is said of a pin whose number is above the number of pins.
pub open spec fn pin_too_high(n: nat, dip: nat) -> Seq<char> {
    "pin number "@ + decimal(n) + " must not be greater than dip "@ + decimal(dip)
}

/// What is said of a pin whose value is no text.
pub open spec fn pin_not_text(n: nat) -> Seq<char> {
    "name for pin "@ + decimal(n) + " must be string"@
}

/// What is said where pin `p` has no text.
pub open spec fn pin_missing(p: nat) -> Seq<char> {
    "missing pin "@ + decimal(p) + " definition"@
}

/// The texts of the pins that `fields` declare, by number, or what is
/// wrong with the first key that declares one wrongly. A key declares a
/// pin where it writes a number; that number is at least 1 and at most
/// `dip`, and the value is a text. Of two keys for one pin the later
/// counts.
pub open spec fn declared(fields: Seq<Field>, dip: nat) -> Result<Map<int, Seq<char>>, Seq<char>>
    decreases fields.len(),
{
    if fields.len() == 0 {
        Ok(Map::empty())
    } else {
        match declared(fields.drop_last(), dip) {
            Err(complaint) => Err(complaint),
            Ok(pins) => match number_of(fields.last().key) {
                None => Ok(pins),
                Some(n) => if n == 0 {
                    Err(zero_pin())
                } else if n > dip {
                    Err(pin_too_high(n, dip))
                } else {
                    match fields.last().item {
                        Item::Text(text) => Ok(pins.insert(n as int, text)),
                        _ => Err(pin_not_text(n)),
                    }
                },
            },
        }
    }
}

/// The lowest pin from `from` to `dip` that has no text.
pub open spec fn first_missing(pins: Map<int, Seq<char>>, from: int, dip: int) -> Option<int>
    decreases dip - from + 1,
{
    if from > dip {
        None
    } else if !pins.contains_key(from) {
        Some(from)
    } else {
        first_missing(pins, from + 1, dip)
    }
}

/// The texts of all the pins 1 to `dip`, as `fields` declare them, or the
/// first thing that is wrong: with a key, or else the lowest pin that none
/// declares.
pub open spec fn pins_of(fields: Seq<Field>, dip: nat) -> Result<Map<int, Seq<char>>, Seq<char>> {
    match declared(fields, dip) {
        Err(complaint) => Err(complaint),
        Ok(pins) => match first_missing(pins, 1, dip as int) {
            Some(p) => Err(pin_missing(p as nat)),
            None => Ok(pins),
        },
    }
}

/// What is wrong with the first fields stays wrong with more of them.
proof fn lemma_complaint_stays(fields: Seq<Field>, dip: nat, k: int)
    requires
        0 <= k <= fields.len(),
        declared(fields.take(k), dip) is Err,
    ensures
        declared(fields, dip) == declared(fields.take(k), dip),
    decreases fields.len() - k,
{
    if k == fields.len() {
        assert(fields.take(k) == fields);
    } else {
        assert(fields.take(k + 1).drop_last() == fields.take(k));
        lemma_complaint_stays(fields, dip, k + 1);
    }
}

/// The pins that fields declare are numbered from 1 to `dip`.
pub proof fn lemma_declared_in_range(fields: Seq<Field>, dip: nat)
    requires
        declared(fields, dip) is Ok,
    ensures
        forall|p: int| #[trigger]
            declared(fields, dip)->Ok_0.contains_key(p) ==> 1 <= p <= dip,
    decreases fields.len(),
{
    if fields.len() > 0 {
        lemma_declared_in_range(fields.drop_last(), dip);
    }
}

/// Where no pin from `from` on is missing, each of them has a text.
pub proof fn lemma_none_missing(pins: Map<int, Seq<char>>, from: int, dip: int, p: int)
    requires
        first_missing(pins, from, dip) is None,
        from <= p <= dip,
    ensures
        pins.contains_key(p),
    decreases dip - from + 1,
{
    if from < p {
        lemma_none_missing(pins, from + 1, dip, p);
    }
}

/// The pin that is found missing is the lowest one without a text.
pub proof fn lemma_first_missing_is_lowest(pins: Map<int, Seq<char>>, from: int, dip: int)
    requires
        first_missing(pins, from, dip) is Some,
    ensures
        ({
            let p = first_missing(pins, from, dip)->Some_0;
            &&& from <= p <= dip
            &&& !pins.contains_key(p)
            &&& forall|q: int| from <= q < p ==> pins.contains_key(q)
        }),
    decreases dip - from + 1,
{
    if from <= dip && pins.contains_key(from) {
        lemma_first_missing_is_lowest(pins, from + 1, dip);
    }
}

/// The texts of all the pins 1 to `dip`, by number, or the first thing
/// that is wrong with what `toml` declares.
pub fn pins_to_vec_result(toml: &Vec<Entry>, dip: usize) -> (out: Result<Pins, String>)
    ensures
        match out {
            Ok(pins) => pins_of(fields_of(toml@), dip as nat) == Ok::<
                Map<int, Seq<char>>,
                Seq<char>,
            >(labels(pins@)),
            Err(complaint) => pins_of(fields_of(toml@), dip as nat) == Err::<
                Map<int, Seq<char>>,
                Seq<char>,
            >(complaint@),
        },
{
    let ghost fields = fields_of(toml@);
    let mut pins = Pins::new();
    let mut i: usize = 0;
    assert(fields.take(0).len() == 0);
    assert(labels(pins@) == Map::<int, Seq<char>>::empty());
    while i < toml.len()
        invariant
            i <= toml.len(),
            fields == fields_of(toml@),
            declared(fields.take(i as int), dip as nat) == Ok::<Map<int, Seq<char>>, Seq<char>>(
                labels(pins@),
            ),
        decreases toml.len() - i,
    {
        let entry = &toml[i];
        proof {
            assert(fields.take(i as int + 1).drop_last() == fields.take(i as int));
            assert(fields.take(i as int + 1).last() == entry@);
        }
        match pin_number(entry.key.as_str()) {
            None => {},
            Some(n) => {
                if n == 0 {
                    proof {
                        lemma_complaint_stays(fields, dip as nat, i as int + 1);
                    }
                    return Err("invalid pin number 0".to_owned());
                }
                if n > dip {
                    proof {
                        lemma_complaint_stays(fields, dip as nat, i as int + 1);
                    }
                    let mut complaint = framed(
                        "pin number ",
                        decimal_text(n as u64).as_str(),
                        " must not be greater than dip ",
                    );
                    complaint.append(decimal_text(dip as u64).as_str());
                    return Err(complaint);
                }
                match &entry.value {
                    Value::Text(name) => {
                        let ghost before = labels(pins@);
                        let label = PinName::from_str(name.as_str()).unwrap();
                        pins.insert(n, label);
                        assert(labels(pins@) == before.insert(n as int, name@));
                    },
                    _ => {
                        proof {
                            lemma_complaint_stays(fields, dip as nat, i as int + 1);
                        }
                        return Err(
                            framed(
                                "name for pin ",
                                decimal_text(n as u64).as_str(),
                                " must be string",
                            ),
                        );
                    },
                }
            },
        }
        i += 1;
    }
    assert(fields.take(i as int) == fields);
    let ghost found = labels(pins@);
    let mut p: usize = 0;
    while p < dip
        invariant
            p <= dip,
            found == labels(pins@),
            fields == fields_of(toml@),
            declared(fields, dip as nat) == Ok::<Map<int, Seq<char>>, Seq<char>>(found),
            first_missing(found, 1, dip as int) == first_missing(found, p + 1, dip as int),
        decreases dip - p,
    {
        p += 1;
        if !pins.contains(p) {
            assert(!found.contains_key(p as int));
            assert(first_missing(found, p as int, dip as int) == Some(p as int));
            return Err(framed("missing pin ", decimal_text(p as u64).as_str(), " definition"));
        }
    }
    Ok(pins)
}

/// The name of the chip: the text under the key `name`.
pub open spec fn name_of(fields: Seq<Field>) -> Result<Seq<char>, Seq<char>> {
    match lookup(fields, "name"@) {
        None => Err("no name"@),
        Some(Item::Text(name)) => Ok(name),
        Some(_) => Err("name must be string"@),
    }
}

/// The title of the chip: the text under the key `title`, or the name
/// where there is no such key.
pub open spec fn title_of(fields: Seq<Field>, name: Seq<char>) -> Result<Seq<char>, Seq<char>> {
    match lookup(fields, "title"@) {
        None => Ok(name),
        Some(Item::Text(title)) => Ok(title),
        Some(_) => Err("title must be string"@),
    }
}

/// What is said of a number of pins that will not do.
pub open spec fn bad_dip(n: int, why: Seq<char>) -> Seq<char> {
    "dip package "@ + signed_decimal(n) + why
}

/// The number of pins: the whole number under the key `dip`, which is
/// above 0, below 50 and even.
pub open spec fn dip_of(fields: Seq<Field>) -> Result<nat, Seq<char>> {
    match lookup(fields, "dip"@) {
        None => Err("no dip package"@),
        Some(Item::Integer(n)) => if n <= 0 {
            Err(bad_dip(n, " must be positive"@))
        } else if n >= 50 {
            Err(bad_dip(n, " must be less than 50"@))
        } else if n % 2 != 0 {
            Err(bad_dip(n, " must be even"@))
        } else {
            Ok(n as nat)
        },
        Some(_) => Err("dip package must be number"@),
    }
}

/// The width of the package: the whole number under the key `width`,
/// which is 300 or 600.
pub open spec fn width_of(fields: Seq<Field>) -> Result<DipWidth, Seq<char>> {
    match lookup(fields, "width"@) {
        None => Err("no width"@),
        Some(Item::Integer(w)) => if w == 300 {
            Ok(DipWidth::MIL300)
        } else if w == 600 {
            Ok(DipWidth::MIL600)
        } else {
            Err("width "@ + signed_decimal(w) + " must be 300 or 600 mil"@)
        },
        Some(_) => Err("width must be number in mil"@),
    }
}

/// The chip that `fields` describe, or the first thing that is wrong with
/// them: with the name, then the title, then the number of pins, then the
/// width, then the pins.
pub open spec fn described(fields: Seq<Field>) -> Result<Chip, Seq<char>> {
    match name_of(fields) {
        Err(complaint) => Err(complaint),
        Ok(name) => match title_of(fields, name) {
            Err(complaint) => Err(complaint),
            Ok(title) => match dip_of(fields) {
                Err(complaint) => Err(complaint),
                Ok(dip) => match width_of(fields) {
                    Err(complaint) => Err(complaint),
                    Ok(width) => match pins_of(fields, dip) {
                        Err(complaint) => Err(complaint),
                        Ok(pins) => Ok(Chip { name, title, dip, width, pins }),
                    },
                },
            },
        },
    }
}

/// The chip that a document describes, or what is wrong with it. A text
/// that is no document is answered with the reader's complaint. A document
/// that is no table has no keys.
pub open spec fn described_by(content: Content) -> Result<Chip, Seq<char>> {
    match content {
        Content::Invalid(complaint) => Err(complaint),
        Content::Scalar => described(Seq::empty()),
        Content::Table(fields) => described(fields),
    }
}

/// A chip that fields describe has exactly the pins 1 to its number of
/// pins, an even number above 0 and below 50.
pub proof fn described_chip_is_whole(fields: Seq<Field>)
    requires
        described(fields) is Ok,
    ensures
        described(fields)->Ok_0.wf(),
{
    let chip = described(fields)->Ok_0;
    let dip = dip_of(fields)->Ok_0;
    lemma_declared_in_range(fields, dip);
    assert forall|p: int| 1 <= p <= chip.dip implies chip.pins.contains_key(p) by {
        lemma_none_missing(chip.pins, 1, dip as int, p);
    }
}

/// Whether field `i` declares pin `p`.
pub open spec fn declares(fields: Seq<Field>, i: int, p: int) -> bool {
    0 <= i < fields.len() && p >= 0 && number_of(fields[i].key) == Some(p as nat)
}

/// Whether some field declares pin `p`.
pub open spec fn is_declared(fields: Seq<Field>, p: int) -> bool {
    exists|i: int| #[trigger] declares(fields, i, p)
}

/// Where every key that writes a number writes one from 1 to `dip` and has
/// a text, the pins declared are those that some key writes.
proof fn lemma_declared_all(fields: Seq<Field>, dip: nat)
    requires
        forall|i: int|
            0 <= i < fields.len() ==> (number_of(#[trigger] fields[i].key) matches Some(n) ==> 1
                <= n <= dip && fields[i].item is Text),
    ensures
        declared(fields, dip) is Ok,
        forall|p: int|
            declared(fields, dip)->Ok_0.contains_key(p) <==> exists|i: int|
                #[trigger] declares(fields, i, p),
    decreases fields.len(),
{
    if fields.len() > 0 {
        let before = fields.drop_last();
        let last = fields.len() - 1;
        assert forall|i: int| 0 <= i < before.len() implies (number_of(
            #[trigger] before[i].key,
        ) matches Some(n) ==> 1 <= n <= dip && before[i].item is Text) by {
            assert(before[i] == fields[i]);
        }
        lemma_declared_all(before, dip);
        assert(number_of(fields[last].key) matches Some(n) ==> 1 <= n <= dip
            && fields[last].item is Text);
        let pins = declared(fields, dip)->Ok_0;
        assert forall|p: int| pins.contains_key(p) <==> exists|i: int| #[trigger]
            declares(fields, i, p) by {
            if pins.contains_key(p) {
                if declared(before, dip)->Ok_0.contains_key(p) {
                    let i = choose|i: int| #[trigger] declares(before, i, p);
                    assert(before[i] == fields[i]);
                    assert(declares(fields, i, p));
                } else {
                    assert(declares(fields, last, p));
                }
            }
            if exists|i: int| #[trigger] declares(fields, i, p) {
                let i = choose|i: int| #[trigger] declares(fields, i, p);
                if i < last {
                    assert(before[i] == fields[i]);
                    assert(declares(before, i, p));
                }
            }
        }
    }
}

/// A table that names the chip, gives it an even number of pins above 0
/// and below 50 and a width of 300 or 600, and declares each of these pins
/// and no other, each with a text, describes a chip, and the pins of that
/// chip are exactly the pins from 1 to that number.
pub proof fn complete_description_is_accepted(fields: Seq<Field>, dip: int)
    requires
        lookup(fields, "name"@) matches Some(name) && name is Text,
        lookup(fields, "title"@) matches Some(title) ==> title is Text,
        lookup(fields, "dip"@) == Some(Item::Integer(dip)),
        0 < dip < 50,
        dip % 2 == 0,
        lookup(fields, "width"@) == Some(Item::Integer(300)) || lookup(fields, "width"@) == Some(
            Item::Integer(600),
        ),
        forall|i: int|
            0 <= i < fields.len() ==> (number_of(#[trigger] fields[i].key) matches Some(n) ==> 1
                <= n <= dip && fields[i].item is Text),
        forall|p: int| 1 <= p <= dip ==> #[trigger] is_declared(fields, p),
    ensures
        described(fields) matches Ok(chip) && chip.dip == dip && chip.wf() && (forall|p: int|
            chip.pins.contains_key(p) <==> 1 <= p <= dip),
{
    lemma_declared_all(fields, dip as nat);
    let pins = declared(fields, dip as nat)->Ok_0;
    if first_missing(pins, 1, dip) is Some {
        lemma_first_missing_is_lowest(pins, 1, dip);
        let p = first_missing(pins, 1, dip)->Some_0;
        assert(is_declared(fields, p));
    }
    described_chip_is_whole(fields);
}

/// Of several things that are wrong with a table the first is reported, in
/// this order: the name, the title, the number of pins, the width, the
/// pins. What comes later in the order has no say in it.
pub proof fn first_fault_is_reported(fields: Seq<Field>)
    ensures
        name_of(fields) matches Err(complaint) ==> described(fields) == Err::<Chip, Seq<char>>(
            complaint,
        ),
        name_of(fields) matches Ok(name) ==> (title_of(fields, name) matches Err(complaint)
            ==> described(fields) == Err::<Chip, Seq<char>>(complaint)),
        name_of(fields) matches Ok(name) ==> (title_of(fields, name) is Ok ==> (dip_of(
            fields,
        ) matches Err(complaint) ==> described(fields) == Err::<Chip, Seq<char>>(complaint))),
        name_of(fields) matches Ok(name) ==> (title_of(fields, name) is Ok ==> (dip_of(fields) is Ok
            ==> (width_of(fields) matches Err(complaint) ==> described(fields) == Err::<
            Chip,
            Seq<char>,
        >(complaint)))),
        name_of(fields) matches Ok(name) ==> (title_of(fields, name) is Ok ==> (dip_of(
            fields,
        ) matches Ok(dip) ==> (width_of(fields) is Ok ==> (pins_of(fields, dip) matches Err(
            complaint,
        ) ==> described(fields) == Err::<Chip, Seq<char>>(complaint))))),
{
}

/// Among the pins, a key that is wrong is reported before a pin that is
/// missing, and of the pins that are missing the lowest is reported.
pub proof fn lowest_missing_pin_is_reported(fields: Seq<Field>, dip: nat)
    ensures
        declared(fields, dip) matches Err(complaint) ==> pins_of(fields, dip) == Err::<
            Map<int, Seq<char>>,
            Seq<char>,
        >(complaint),
        declared(fields, dip) matches Ok(pins) ==> (forall|p: int|
            1 <= p <= dip && !pins.contains_key(p) && (forall|q: int|
                1 <= q < p ==> pins.contains_key(q)) ==> pins_of(fields, dip) == Err::<
                Map<int, Seq<char>>,
                Seq<char>,
            >(pin_missing(p as nat))),
{
    if declared(fields, dip) is Ok {
        let pins = declared(fields, dip)->Ok_0;
        assert forall|p: int|
            1 <= p <= dip && !pins.contains_key(p) && (forall|q: int|
                1 <= q < p ==> pins.contains_key(q)) implies pins_of(fields, dip) == Err::<
            Map<int, Seq<char>>,
            Seq<char>,
        >(pin_missing(p as nat)) by {
            if first_missing(pins, 1, dip as int) is Some {
                lemma_first_missing_is_lowest(pins, 1, dip as int);
            } else {
                lemma_none_missing(pins, 1, dip as int, p);
            }
        }
    }
}

} // verus!
