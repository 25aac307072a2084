//! The choices of a view: which face, which way up, and what is written
//! beside the pins; and how a set of command-line flags settles them.

use vstd::prelude::*;

verus! {

/// A path in the file system, carried through as it was given.
#[verifier::external_type_specification]
#[verifier::external_body]
pub struct ExPathBuf(std::path::PathBuf);

/// The face of the package that is shown.
#[derive(Clone, Copy, PartialEq, Eq, Structural, Debug)]
pub enum Side {
    TOP,
    BOTTOM,
}

/// The compass direction pin 1 is turned to.
#[derive(Clone, Copy, PartialEq, Eq, Structural, Debug)]
pub enum Direction {
    NORTH,
    EAST,
    SOUTH,
    WEST,
}

/// Whether pin numbers are written, and with how wide a gap.
#[derive(Clone, Copy, PartialEq, Eq, Structural, Debug)]
pub enum PinGap {
    NONE,
    PIN1,
    PIN2,
}

/// How many alternate names of a pin are written beside its name.
#[derive(Clone, Copy, PartialEq, Eq, Structural, Debug)]
pub enum AltNames {
    NONE,
    ALT1,
    ALT2,
    ALL,
}

/// The flags of one invocation, as they were given.
#[derive(Debug)]
pub struct Opt {
    pub input: std::path::PathBuf,
    pub top: bool,
    pub bottom: bool,
    pub north: bool,
    pub east: bool,
    pub south: bool,
    pub west: bool,
    pub pin: bool,
    pub pin2: bool,
    pub alt: bool,
    pub alt1: bool,
    pub alt2: bool,
}

/// The view that a set of flags asks for.
#[derive(Debug)]
pub struct Args {
    pub side: Side,
    pub direction: Direction,
    pub show_pin: PinGap,
    pub show_alt: AltNames,
    pub input: std::path::PathBuf,
}

/// What is said of flags that name both faces.
pub const ERR_SIDE: &'static str = "Both -t and -b are specified";

/// What is said of flags that name two directions.
pub const ERR_DIRECTION: &'static str = "More than one of -n -e -s -w are specified";

/// What is said of flags that ask for both kinds of pin numbers.
pub const ERR_PIN_NUMBER: &'static str = "Both --pin and --pin2 are specified";

/// What is said of flags that ask for alternate names in two ways.
pub const ERR_ALT_NAMES: &'static str = "More than one of --alt --alt1 --alt2 are specified";

/// Whether `got` is the value or the message that `want` names.
pub open spec fn agrees<T>(got: Result<T, String>, want: Result<T, Seq<char>>) -> bool {
    match (got, want) {
        (Ok(a), Ok(b)) => a == b,
        (Err(e), Err(m)) => e@ == m,
        _ => false,
    }
}

/// The face that the flags ask for: the top one unless only the bottom
/// one is named; both at once are refused.
pub open spec fn side_of(opt: Opt) -> Result<Side, Seq<char>> {
    if opt.top && opt.bottom {
        Err(ERR_SIDE@)
    } else if opt.bottom {
        Ok(Side::BOTTOM)
    } else {
        Ok(Side::TOP)
    }
}

/// The direction that the flags ask for: north unless one other is named
/// alone; two at once are refused.
pub open spec fn direction_of(opt: Opt) -> Result<Direction, Seq<char>> {
    if !opt.east && !opt.south && !opt.west {
        Ok(Direction::NORTH)
    } else if !opt.north && opt.east && !opt.south && !opt.west {
        Ok(Direction::EAST)
    } else if !opt.north && !opt.east && opt.south && !opt.west {
        Ok(Direction::SOUTH)
    } else if !opt.north && !opt.east && !opt.south && opt.west {
        Ok(Direction::WEST)
    } else {
        Err(ERR_DIRECTION@)
    }
}

/// The pin numbering that the flags ask for; both kinds at once are
/// refused.
pub open spec fn pins_of(opt: Opt) -> Result<PinGap, Seq<char>> {
    if opt.pin && opt.pin2 {
        Err(ERR_PIN_NUMBER@)
    } else if opt.pin {
        Ok(PinGap::PIN1)
    } else if opt.pin2 {
        Ok(PinGap::PIN2)
    } else {
        Ok(PinGap::NONE)
    }
}

/// The alternate names that the flags ask for; two kinds at once are
/// refused.
pub open spec fn alt_names_of(opt: Opt) -> Result<AltNames, Seq<char>> {
    if !opt.alt && !opt.alt1 && !opt.alt2 {
        Ok(AltNames::NONE)
    } else if opt.alt && !opt.alt1 && !opt.alt2 {
        Ok(AltNames::ALL)
    } else if !opt.alt && opt.alt1 && !opt.alt2 {
        Ok(AltNames::ALT1)
    } else if !opt.alt && !opt.alt1 && opt.alt2 {
        Ok(AltNames::ALT2)
    } else {
        Err(ERR_ALT_NAMES@)
    }
}

/// The view that the flags ask for, or the first complaint about them: of
/// the face, then the direction, then the pin numbers, then the alternate
/// names.
pub open spec fn args_of(opt: Opt) -> Result<Args, Seq<char>> {
    match side_of(opt) {
        Err(e) => Err(e),
        Ok(side) => match direction_of(opt) {
            Err(e) => Err(e),
            Ok(direction) => match pins_of(opt) {
                Err(e) => Err(e),
                Ok(show_pin) => match alt_names_of(opt) {
                    Err(e) => Err(e),
                    Ok(show_alt) => Ok(
                        Args { side, direction, show_pin, show_alt, input: opt.input },
                    ),
                },
            },
        },
    }
}

/// The face that the flags ask for.
pub fn parse_side(opt: &Opt) -> (out: Result<Side, String>)
    ensures
        agrees(out, side_of(*opt)),
{
    match (opt.top, opt.bottom) {
        (true, true) => Err(ERR_SIDE.to_owned()),
        (false, true) => Ok(Side::BOTTOM),
        (_, false) => Ok(Side::TOP),
    }
}

/// The direction that the flags ask for.
pub fn parse_direction(opt: &Opt) -> (out: Result<Direction, String>)
    ensures
        agrees(out, direction_of(*opt)),
{
    match (opt.north, opt.east, opt.south, opt.west) {
        (_, false, false, false) => Ok(Direction::NORTH),
        (false, true, false, false) => Ok(Direction::EAST),
        (false, false, true, false) => Ok(Direction::SOUTH),
        (false, false, false, true) => Ok(Direction::WEST),
        _ => Err(ERR_DIRECTION.to_owned()),
    }
}

/// The pin numbering that the flags ask for.
pub fn parse_pins(opt: &Opt) -> (out: Result<PinGap, String>)
    ensures
        agrees(out, pins_of(*opt)),
{
    match (opt.pin, opt.pin2) {
        (false, false) => Ok(PinGap::NONE),
        (true, false) => Ok(PinGap::PIN1),
        (false, true) => Ok(PinGap::PIN2),
        _ => Err(ERR_PIN_NUMBER.to_owned()),
    }
}

/// The alternate names that the flags ask for.
pub fn parse_alt_names(opt: &Opt) -> (out: Result<AltNames, String>)
    ensures
        agrees(out, alt_names_of(*opt)),
{
    match (opt.alt, opt.alt1, opt.alt2) {
        (false, false, false) => Ok(AltNames::NONE),
        (true, false, false) => Ok(AltNames::ALL),
        (false, true, false) => Ok(AltNames::ALT1),
        (false, false, true) => Ok(AltNames::ALT2),
        _ => Err(ERR_ALT_NAMES.to_owned()),
    }
}

/// The view that a set of flags asks for, with the path they name; or what
/// is wrong with them.
pub fn parse_args(opt: Opt) -> (out: Result<Args, String>)
    ensures
        agrees(out, args_of(opt)),
{
    let side = match parse_side(&opt) {
        Err(e) => return Err(e),
        Ok(side) => side,
    };
    let direction = match parse_direction(&opt) {
        Err(e) => return Err(e),
        Ok(direction) => direction,
    };
    let show_pin = match parse_pins(&opt) {
        Err(e) => return Err(e),
        Ok(show_pin) => show_pin,
    };
    let show_alt = match parse_alt_names(&opt) {
        Err(e) => return Err(e),
        Ok(show_alt) => show_alt,
    };
    Ok(Args { side, direction, show_pin, show_alt, input: opt.input })
}

} // verus!
