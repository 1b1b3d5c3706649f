use vstd::prelude::*;

verus! {

/// A connection change that is written into every open conversation of a server.
#[derive(Clone, Copy, Debug, PartialEq, Eq, Structural)]
pub enum Broadcast {
    Disconnected,
    Reconnected,
}

} // verus!
