//! Difficulty settings: the power switches of conveyors and storage.
use vstd::prelude::*;

verus! {

/// The default of the conveyor and storage power switches: on.
pub fn yes() -> (on: bool)
    ensures
        on,
{
    true
}

} // verus!
