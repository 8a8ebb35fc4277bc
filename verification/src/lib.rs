//! Verified core of the Entros mobile prover: canonical decoding of the
//! circuit inputs and public signals of the Entros Hamming-distance Groth16
//! circuit, validation of proof points before they reach the prover, and the
//! identity check of the packaged proving keys.

pub mod circom;
pub mod curve;
pub mod decimal;
pub mod error;
pub mod inputs;
pub mod json;
pub mod key;
pub mod prover;

pub use circom::{CircomProof, CircomProofResult, ProofLib, G1, G2};
pub use error::MoproError;

use vstd::prelude::*;

verus! {

/// The greeting returned by the binding smoke test.
pub open spec fn hello_world_text() -> Seq<char> {
    "Hello, World!"@
}

/// Returns the fixed greeting that the binding transport tests exchange.
pub fn mopro_hello_world() -> (r: String)
    ensures
        r@ == hello_world_text(),
        r@ == "Hello, World!"@,
{
    String::from_str("Hello, World!")
}

/// Returns the same greeting as [`mopro_hello_world`], for the web binding.
pub fn mopro_wasm_hello_world() -> (r: String)
    ensures
        r@ == hello_world_text(),
        r@ == "Hello, World!"@,
{
    String::from_str("Hello, World!")
}

} // verus!
