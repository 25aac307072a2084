//! The pins of a chip, kept by number.

use std::collections::BTreeMap;
use vstd::prelude::*;
use crate::pin::PinName;

verus! {

broadcast use {vstd::laws_cmp::group_laws_cmp, vstd::std_specs::btree::group_btree_axioms};

/// The labels of the pins of a chip, each under the number of its pin.
#[derive(Debug, PartialEq)]
pub struct Pins {
    labels: BTreeMap<usize, PinName>,
}

impl View for Pins {
    type V = Map<usize, PinName>;

    closed spec fn view(&self) -> Map<usize, PinName> {
        self.labels@
    }
}

impl Pins {
    /// No pins yet.
    pub fn new() -> (pins: Pins)
        ensures
            pins@ == Map::<usize, PinName>::empty(),
    {
        Pins { labels: BTreeMap::new() }
    }

    /// The label of pin `number`, where it has one.
    pub fn get(&self, number: usize) -> (found: Option<&PinName>)
        ensures
            match found {
                Some(label) => self@.contains_key(number) && *label == self@[number],
                None => !self@.contains_key(number),
            },
    {
        self.labels.get(&number)
    }

    /// Whether pin `number` has a label.
    pub fn contains(&self, number: usize) -> (found: bool)
        ensures
            found == self@.contains_key(number),
    {
        self.labels.contains_key(&number)
    }

    /// Gives pin `number` the label `label`, in place of the one it had.
    pub fn insert(&mut self, number: usize, label: PinName)
        ensures
            final(self)@ == old(self)@.insert(number, label),
    {
        self.labels.insert(number, label);
    }
}

} // verus!
