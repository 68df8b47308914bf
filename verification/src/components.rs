//! Sample component records: plain data types that demo programs
//! and tests attach to entities.

use vstd::prelude::*;

verus! {

/// A position in three-dimensional integer space.
#[derive(Clone, Copy, PartialEq, Eq, Structural, Debug)]
pub struct Position {
    pub x: i32,
    pub y: i32,
    pub z: i32,
}

/// A hit-point counter.
#[derive(Clone, Copy, PartialEq, Eq, Structural, Debug)]
pub struct HP {
    pub hp: i32,
}

} // verus!
