//! Lists the distinct architectures the store knows.

use vstd::prelude::*;

verus! {

/// List distinct architectures.
pub struct Arch {}

impl Arch {
    /// Every distinct architecture value, one line each, in store order.
    pub fn run(self, archs: Vec<String>) -> (r: Vec<String>)
        ensures
            r == archs,
    {
        archs
    }
}

} // verus!
