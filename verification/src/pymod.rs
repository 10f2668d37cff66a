//! Names fixed for the Python extension module.
use vstd::prelude::*;

verus! {

/// The Python module name under which the extension is imported.
pub const MODULE_NAME: &'static str = "orvane";

} // verus!
