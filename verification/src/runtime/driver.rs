//! What running a program produced.

use vstd::prelude::*;
use super::failure::Failure;

verus! {

/// What running a program produced.
#[derive(Debug)]
pub struct RunOutcome {
    /// Everything `print` wrote, in order.
    pub output: String,
    /// The failure that escaped `main`, when there was one.
    pub failure: Option<Box<Failure>>,
}

impl RunOutcome {
    /// Whether the program completed without an escaping failure.
    pub fn is_ok(&self) -> (b: bool)
        ensures
            b == self.failure.is_none(),
    {
        self.failure.is_none()
    }
}

} // verus!
