//! Which pins lie along which edge of the package, and in which order,
//! for each way of looking at it.

use vstd::prelude::*;
use crate::cli::{Direction, Side};

verus! {

/// One edge of the package: the number of the pin it starts with and of
/// the pin it ends with. The pins between them follow one by one, counting
/// up where the edge starts low and down where it starts high.
#[derive(Clone, Copy, Debug, PartialEq, Eq, Structural)]
pub struct Edge {
    pub start: usize,
    pub end: usize,
}

impl Edge {
    /// The lowest pin number on the edge.
    pub open spec fn low(self) -> int {
        if self.start < self.end {
            self.start as int
        } else {
            self.end as int
        }
    }

    /// The highest pin number on the edge.
    pub open spec fn high(self) -> int {
        if self.start < self.end {
            self.end as int
        } else {
            self.start as int
        }
    }

    /// The pin that is `k` places from the start of the edge.
    pub open spec fn pin_at(self, k: int) -> int {
        if self.start < self.end {
            self.start + k
        } else {
            self.start - k
        }
    }
}

/// The two edges of the package that carry pins, in the order they are
/// drawn: the left one before the right one, the top one before the bottom
/// one.
#[derive(Clone, Copy, Debug, PartialEq, Eq, Structural)]
pub struct Traversal {
    pub first: Edge,
    pub second: Edge,
}

impl Traversal {
    /// The same edges, the other way round.
    pub open spec fn swapped(self) -> Traversal {
        Traversal { first: self.second, second: self.first }
    }
}

/// The edges of a package of `dip` pins that is seen from above with pin 1
/// turned to `direction`. To the north the left edge counts up from pin 1
/// and the right edge down from the last pin; to the south the package is
/// turned half round. To the east and west the edges are the top and the
/// bottom one.
pub open spec fn facing(direction: Direction, dip: int) -> Traversal {
    let half = dip / 2;
    match direction {
        Direction::NORTH => Traversal {
            first: Edge { start: 1, end: half as usize },
            second: Edge { start: dip as usize, end: (half + 1) as usize },
        },
        Direction::SOUTH => Traversal {
            first: Edge { start: (half + 1) as usize, end: dip as usize },
            second: Edge { start: half as usize, end: 1 },
        },
        Direction::EAST => Traversal {
            first: Edge { start: half as usize, end: 1 },
            second: Edge { start: (half + 1) as usize, end: dip as usize },
        },
        Direction::WEST => Traversal {
            first: Edge { start: dip as usize, end: (half + 1) as usize },
            second: Edge { start: 1, end: half as usize },
        },
    }
}

/// The edges as they are drawn for a face: from below, the two change
/// places.
pub open spec fn seen_from(side: Side, edges: Traversal) -> Traversal {
    match side {
        Side::TOP => edges,
        Side::BOTTOM => edges.swapped(),
    }
}

/// The edges of a package of `dip` pins, seen from `side` with pin 1
/// turned to `direction`.
pub open spec fn resolved(side: Side, direction: Direction, dip: int) -> Traversal {
    seen_from(side, facing(direction, dip))
}

/// Whether pin `pin` is at place `place` of one of the edges.
pub open spec fn holds_pin(edges: Traversal, place: int, pin: int) -> bool {
    edges.first.pin_at(place) == pin || edges.second.pin_at(place) == pin
}

/// Whether pin 1 is at place `place` of one of the edges.
pub open spec fn holds_pin_one(edges: Traversal, place: int) -> bool {
    holds_pin(edges, place, 1)
}

/// The two edges share the pins between them, whatever the face and the
/// direction: each has half of them, every pin is at a place of one of the
/// edges, and no pin is on both.
pub proof fn edges_share_the_pins(side: Side, direction: Direction, dip: int, pin: int)
    requires
        0 < dip <= usize::MAX,
        dip % 2 == 0,
        1 <= pin <= dip,
    ensures
        ({
            let edges = resolved(side, direction, dip);
            &&& 1 <= edges.first.low() && edges.first.high() <= dip
            &&& 1 <= edges.second.low() && edges.second.high() <= dip
            &&& edges.first.high() - edges.first.low() + 1 == dip / 2
            &&& edges.second.high() - edges.second.low() + 1 == dip / 2
            &&& exists|place: int| 0 <= place < dip / 2 && #[trigger] holds_pin(edges, place, pin)
            &&& forall|j: int, k: int|
                0 <= j < dip / 2 && 0 <= k < dip / 2 ==> #[trigger] edges.first.pin_at(j)
                    != #[trigger] edges.second.pin_at(k)
        }),
{
    let edges = resolved(side, direction, dip);
    let place = if edges.first.low() <= pin <= edges.first.high() {
        if edges.first.start < edges.first.end {
            pin - edges.first.start
        } else {
            edges.first.start - pin
        }
    } else {
        if edges.second.start < edges.second.end {
            pin - edges.second.start
        } else {
            edges.second.start - pin
        }
    };
    assert(holds_pin(edges, place, pin));
}

/// The pin after `pin` on the edge from `start` to `end`.
pub fn pin_step(pin: usize, start: usize, end: usize) -> (next: usize)
    requires
        start < end ==> pin < usize::MAX,
        start >= end ==> pin > 0,
    ensures
        next == if start < end { pin + 1 } else { pin - 1 },
{
    if start < end {
        pin + 1
    } else {
        pin - 1
    }
}

/// The edges of a package of `dip` pins as they are drawn when it is seen
/// from `side` with pin 1 turned to `direction`.
pub fn resolve(side: Side, direction: Direction, dip: usize) -> (edges: Traversal)
    ensures
        edges == resolved(side, direction, dip as int),
{
    let half = dip / 2;
    let seen = match direction {
        Direction::NORTH => Traversal {
            first: Edge { start: 1, end: half },
            second: Edge { start: dip, end: half + 1 },
        },
        Direction::SOUTH => Traversal {
            first: Edge { start: half + 1, end: dip },
            second: Edge { start: half, end: 1 },
        },
        Direction::EAST => Traversal {
            first: Edge { start: half, end: 1 },
            second: Edge { start: half + 1, end: dip },
        },
        Direction::WEST => Traversal {
            first: Edge { start: dip, end: half + 1 },
            second: Edge { start: 1, end: half },
        },
    };
    match side {
        Side::TOP => seen,
        Side::BOTTOM => Traversal { first: seen.second, second: seen.first },
    }
}

} // verus!
