//! Failures of the network layer.

use vstd::prelude::*;
use vstd::string::StringExecFns;

verus! {

/// A failure of the network layer.
#[derive(Debug, Clone, PartialEq, Eq)]
pub enum NetError {
    InternalError(String),
}

impl NetError {
    /// The text of the failure, which does not tell its detail.
    pub fn message(&self) -> (r: String)
        ensures
            r@ == "NetError"@,
    {
        String::from_str("NetError")
    }
}

} // verus!
