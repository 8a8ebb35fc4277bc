//! The error surface of the prover.

use vstd::prelude::*;

verus! {

/// The single error kind the prover reports, carrying a human-readable reason.
#[derive(Debug)]
pub enum MoproError {
    CircomError(String),
}

impl MoproError {
    /// The reason carried by the error.
    pub open spec fn message(self) -> Seq<char> {
        match self {
            MoproError::CircomError(m) => m@,
        }
    }
}

} // verus!
