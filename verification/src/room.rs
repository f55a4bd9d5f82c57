//! The room handle of the presence-listing layer. The listing service
//! itself is an external collaborator: the core only constructs the handle
//! and forwards an accepted session to it.

use vstd::prelude::*;

verus! {

/// Handle under which a session is forwarded to the presence-listing layer.
#[derive(Clone)]
pub struct Room {}

impl Room {
    /// A fresh room handle.
    pub fn new() -> (r: Room)
        ensures
            r == (Room {  }),
    {
        Room {  }
    }
}

} // verus!
