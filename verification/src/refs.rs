//! Handles: small dense integers that name the entries of one catalog.

use crate::text::{decimal, digits};
use cranelift_entity::EntityRef;
use vstd::prelude::*;

verus! {

/// A reference to a state.
#[derive(Copy, Clone, PartialEq, Eq, Structural, Hash, Debug)]
pub struct StateRef(pub u32);

/// A reference to an operation.
#[derive(Copy, Clone, PartialEq, Eq, Structural, Hash, Debug)]
pub struct OpRef(pub u32);

/// A reference to a setup.
#[derive(Copy, Clone, PartialEq, Eq, Structural, Hash, Debug)]
pub struct SetupRef(pub u32);

impl EntityRef for StateRef {
    /// The handle of the entry at `index`.
    fn new(index: usize) -> (r: Self)
        ensures
            index <= u32::MAX ==> r.0 == index,
    {
        StateRef(index as u32)
    }

    /// The index of the entry that the handle names.
    fn index(self) -> (r: usize)
        ensures
            r == self.0,
    {
        self.0 as usize
    }
}

impl EntityRef for OpRef {
    /// The handle of the entry at `index`.
    fn new(index: usize) -> (r: Self)
        ensures
            index <= u32::MAX ==> r.0 == index,
    {
        OpRef(index as u32)
    }

    /// The index of the entry that the handle names.
    fn index(self) -> (r: usize)
        ensures
            r == self.0,
    {
        self.0 as usize
    }
}

impl EntityRef for SetupRef {
    /// The handle of the entry at `index`.
    fn new(index: usize) -> (r: Self)
        ensures
            index <= u32::MAX ==> r.0 == index,
    {
        SetupRef(index as u32)
    }

    /// The index of the entry that the handle names.
    fn index(self) -> (r: usize)
        ensures
            r == self.0,
    {
        self.0 as usize
    }
}

impl StateRef {
    /// The handle with the given number.
    pub fn from_u32(x: u32) -> (r: Self)
        ensures
            r == StateRef(x),
    {
        StateRef(x)
    }

    /// The number of this handle.
    pub fn as_u32(self) -> (r: u32)
        ensures
            r == self.0,
    {
        self.0
    }

    /// The text that stands for this handle in reports.
    pub open spec fn label_text(self) -> Seq<char> {
        "state"@ + digits(self.0 as nat)
    }

    /// Writes the handle as `state` followed by its number.
    pub fn label(self) -> (r: String)
        ensures
            r@ == self.label_text(),
    {
        let r = String::from_str("state").concat(decimal(self.0).as_str());
        r
    }
}

impl OpRef {
    /// The handle with the given number.
    pub fn from_u32(x: u32) -> (r: Self)
        ensures
            r == OpRef(x),
    {
        OpRef(x)
    }

    /// The number of this handle.
    pub fn as_u32(self) -> (r: u32)
        ensures
            r == self.0,
    {
        self.0
    }

    /// The text that stands for this handle in reports.
    pub open spec fn label_text(self) -> Seq<char> {
        "op"@ + digits(self.0 as nat)
    }

    /// Writes the handle as `op` followed by its number.
    pub fn label(self) -> (r: String)
        ensures
            r@ == self.label_text(),
    {
        let r = String::from_str("op").concat(decimal(self.0).as_str());
        r
    }
}

impl SetupRef {
    /// The handle with the given number.
    pub fn from_u32(x: u32) -> (r: Self)
        ensures
            r == SetupRef(x),
    {
        SetupRef(x)
    }

    /// The number of this handle.
    pub fn as_u32(self) -> (r: u32)
        ensures
            r == self.0,
    {
        self.0
    }

    /// The text that stands for this handle in reports.
    pub open spec fn label_text(self) -> Seq<char> {
        "setup"@ + digits(self.0 as nat)
    }

    /// Writes the handle as `setup` followed by its number.
    pub fn label(self) -> (r: String)
        ensures
            r@ == self.label_text(),
    {
        let r = String::from_str("setup").concat(decimal(self.0).as_str());
        r
    }
}

} // verus!
