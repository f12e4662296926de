//! Rooms: the places that hold those who act.

use vstd::prelude::*;

verus! {

/// Marks an entity as a room. What stands in the room is contained by it.
#[derive(Clone, Copy, Debug, PartialEq, Eq, Structural)]
pub struct GameRoom;

} // verus!
