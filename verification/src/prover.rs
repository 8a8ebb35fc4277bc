//! The decisions around proof generation and verification: which circuit a
//! proving key selects, which inputs reach the prover, and which results are
//! returned to the caller.

use crate::circom::{bn254_text, proof_error, CircomProofResult};
use crate::error::MoproError;
use crate::inputs::{
    circuit_fields, invalid_input_message, normalize, public_input_count, spec_normalize,
    spec_validate_public_inputs, validate_public_inputs,
};
use crate::key::{bound_key_name, is_bound_key, name_view, names_bound_key};
use vstd::prelude::*;

verus! {

/// `i` is the first position of `name` among the registered circuit names.
pub open spec fn is_first_index(names: Seq<String>, name: Seq<char>, i: int) -> bool {
    &&& 0 <= i < names.len()
    &&& names[i]@ == name
    &&& forall|j: int| 0 <= j < i ==> (#[trigger] names[j])@ != name
}

/// The circuit selected for a key is the first one registered under the key's
/// file name: it holds that name, no earlier circuit does, and so there is
/// only one such position.
pub proof fn lemma_first_index_selects_name(names: Seq<String>, name: Seq<char>, i: int, k: int)
    requires
        is_first_index(names, name, i),
    ensures
        0 <= i < names.len(),
        names[i]@ == name,
        forall|j: int| 0 <= j < i ==> (#[trigger] names[j])@ != name,
        is_first_index(names, name, k) ==> k == i,
{
}

/// Finds the first registered circuit named `name`.
pub fn find_circuit(names: &[String], name: &str) -> (r: Option<usize>)
    ensures
        r matches Some(i) ==> i < names@.len() && names@[i as int]@ == name@,
        r is None ==> forall|j: int| 0 <= j < names@.len() ==> (#[trigger] names@[j])@ != name@,
        match r {
            Some(i) => is_first_index(names@, name@, i as int),
            None => forall|j: int| 0 <= j < names@.len() ==> (#[trigger] names@[j])@ != name@,
        },
{
    let wanted = String::from_str(name);
    let mut i: usize = 0;
    while i < names.len()
        invariant
            i <= names@.len(),
            wanted@ == name@,
            forall|j: int| 0 <= j < i ==> (#[trigger] names@[j])@ != name@,
        decreases names@.len() - i,
    {
        if names[i] == wanted {
            return Some(i);
        }
        i += 1;
    }
    None
}

/// Selects the circuit of a proving key by its file name and normalizes the
/// circuit inputs for it: the request-bound key takes the request digest
/// limbs as inputs, every other key does not. Returns the position of the
/// circuit among `circuits` and the normalized inputs.
pub fn prepare_proof_inputs(file_name: Option<&str>, circuits: &[String], circuit_inputs: &str) -> (r:
    Result<(usize, String), MoproError>)
    ensures
        match file_name {
            None => r matches Err(e) && e.message() == "failed to parse file name from zkey_path"@,
            Some(n) => match r {
                Ok((i, t)) => i < circuits@.len() && circuits@[i as int]@ == n@ && is_first_index(circuits@, n@, i as int) && spec_normalize(
                    circuit_inputs@,
                    n@ == bound_key_name(),
                ) == Ok::<_, Seq<char>>(t@),
                Err(e) => {
                    ||| (forall|j: int|
                        0 <= j < circuits@.len() ==> (#[trigger] circuits@[j])@ != n@)
                        && e.message() == "Unknown ZKEY: "@ + n@
                    ||| (exists|i: int| is_first_index(circuits@, n@, i)) && (spec_normalize(
                        circuit_inputs@,
                        n@ == bound_key_name(),
                    ) matches Err(m) && e.message() == invalid_input_message(m))
                },
            },
        },
{
    let name = match file_name {
        Some(n) => n,
        None => {
            return Err(
                MoproError::CircomError(
                    String::from_str("failed to parse file name from zkey_path"),
                ),
            );
        },
    };
    let index = match find_circuit(circuits, name) {
        Some(i) => i,
        None => {
            return Err(MoproError::CircomError(String::from_str("Unknown ZKEY: ").concat(name)));
        },
    };
    assert(is_first_index(circuits@, name@, index as int));
    match normalize(circuit_inputs, is_bound_key(file_name)) {
        Ok(t) => Ok((index, t)),
        Err(e) => Err(e),
    }
}

/// Accepts a generated proof only on the BN254 curve.
pub fn check_proof_curve(curve: &str) -> (r: Result<(), MoproError>)
    ensures
        match r {
            Ok(_) => curve@ == bn254_text() && curve@ == "bn128"@,
            Err(e) => curve@ != bn254_text() && curve@ != "bn128"@ && e.message() == "Unsupported curve: "@ + curve@,
        },
{
    if String::from_str(curve) == String::from_str("bn128") {
        Ok(())
    } else {
        Err(MoproError::CircomError(String::from_str("Unsupported curve: ").concat(curve)))
    }
}

/// Checks a proof before it is verified against the key with file name
/// `file_name`: its public signals must fit the key's statement (six for the
/// request-bound key, four otherwise) and its points must be valid.
pub fn prepare_verification(file_name: Option<&str>, proof_result: &CircomProofResult) -> (r: Result<
    (),
    MoproError,
>)
    ensures
        ({
            let checked = spec_validate_public_inputs(
                proof_result.inputs@,
                names_bound_key(name_view(file_name)),
            );
            match r {
                Ok(_) => checked is Ok && proof_error(proof_result.proof) is None,
                Err(e) => {
                    ||| checked matches Err(m) && e.message() == invalid_input_message(m)
                    ||| checked is Ok && proof_error(proof_result.proof) == Some(e.message())
                },
            }
        }),
{
    match validate_public_inputs(proof_result.inputs.as_slice(), is_bound_key(file_name)) {
        Ok(_) => {},
        Err(e) => return Err(e),
    }
    proof_result.proof.validate()
}

/// Accepts a freshly generated proof for the key with file name `file_name`
/// only when it is on BN254, fits the key's statement (public signal count,
/// canonical and bounded signals, valid Groth16 points) and the verifier
/// answered `verified == true` for it: the witness adapter does not enforce
/// the circuit's assertions, so a proof of a false statement is caught here.
pub fn accept_generated_proof(
    file_name: Option<&str>,
    result: &CircomProofResult,
    verified: bool,
) -> (r: Result<(), MoproError>)
    ensures
        ({
            let bound = names_bound_key(name_view(file_name));
            let checked = spec_validate_public_inputs(result.inputs@, bound);
            match r {
                Ok(_) => {
                    &&& result.proof.curve@ == "bn128"@
                    &&& result.proof.curve@ == bn254_text()
                    &&& result.inputs@.len() == public_input_count(bound)
                    &&& checked is Ok
                    &&& proof_error(result.proof) is None
                    &&& verified
                },
                Err(e) => {
                    ||| result.proof.curve@ != bn254_text() && e.message() == "Unsupported curve: "@
                        + result.proof.curve@
                    ||| result.proof.curve@ == bn254_text() && (checked matches Err(m)
                        && e.message() == invalid_input_message(m))
                    ||| result.proof.curve@ == bn254_text() && checked is Ok && proof_error(
                        result.proof,
                    ) == Some(e.message())
                    ||| result.proof.curve@ == bn254_text() && checked is Ok && proof_error(
                        result.proof,
                    ) is None && !verified && e.message()
                        == "Generated proof does not satisfy the circuit"@
                },
            }
        }),
{
    match check_proof_curve(result.proof.curve.as_str()) {
        Ok(_) => {},
        Err(e) => return Err(e),
    }
    match prepare_verification(file_name, result) {
        Ok(_) => {},
        Err(e) => return Err(e),
    }
    if verified {
        Ok(())
    } else {
        Err(
            MoproError::CircomError(
                String::from_str("Generated proof does not satisfy the circuit"),
            ),
        )
    }
}

/// The key's file name selects one statement for both sides: generation takes
/// the two request digest limbs as inputs exactly when verification expects
/// the two extra public signals that carry them.
pub proof fn lemma_key_selects_one_statement(file_name: Option<Seq<char>>)
    ensures
        ({
            let bound = names_bound_key(file_name);
            &&& circuit_fields(bound).len() == 8 + (if bound {
                2int
            } else {
                0int
            })
            &&& public_input_count(bound) == 4 + (if bound {
                2int
            } else {
                0int
            })
        }),
{
}

} // verus!
