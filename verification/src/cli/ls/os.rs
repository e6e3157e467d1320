//! Lists the distinct operating systems the store knows.

use vstd::prelude::*;

verus! {

/// List distinct operating systems.
pub struct Os {}

impl Os {
    /// Every distinct operating-system value, one line each, in store
    /// order.
    pub fn run(self, oses: Vec<String>) -> (r: Vec<String>)
        ensures
            r == oses,
    {
        oses
    }
}

} // verus!
