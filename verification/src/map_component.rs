//! The closed set of cell kinds a map grid is built from.

use vstd::prelude::*;

verus! {

/// The kind of one grid cell.
///
/// A freshly allocated grid is all `Corridor`; carving walls in and stamping
/// rooms on top turn cells into `Wall` and `Room`.
#[derive(Clone, Copy, PartialEq, Eq, Structural, Debug)]
pub enum MapComponent {
    /// An open corridor cell; also the state of every cell before carving.
    Corridor,
    /// A solid, impassable wall cell.
    Wall,
    /// A room floor cell.
    Room,
}

/// A cell one can stand on: anything that is not a wall.
pub open spec fn is_open(c: MapComponent) -> bool {
    c != MapComponent::Wall
}

} // verus!
