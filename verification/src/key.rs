//! Identity of the proving keys: a key is accepted only under a known file
//! name and only when its SHA-256 digest is the one recorded for that name.

use crate::error::MoproError;
use sha2::{Digest, Sha256};
use vstd::prelude::*;

verus! {

/// The file name of the packaged legacy proving key.
pub open spec fn legacy_key_name() -> Seq<char> {
    "entros_hamming_final.zkey"@
}

/// The file name of the request-bound proving key.
pub open spec fn bound_key_name() -> Seq<char> {
    "entros_request_bound_v1_final.zkey"@
}

/// The recorded SHA-256 digests (lowercase hexadecimal) of the proving keys
/// this build accepts; the request-bound key is accepted only when its digest
/// is recorded.
#[derive(Debug, Clone)]
pub struct ProvingKeyDigests {
    pub legacy: String,
    pub request_bound: Option<String>,
}

/// The digest recorded for a key file name, if the name is known.
pub open spec fn recorded_digest(file_name: Option<Seq<char>>, digests: ProvingKeyDigests) -> Option<
    Seq<char>,
> {
    match file_name {
        Some(n) => if n == legacy_key_name() {
            Some(digests.legacy@)
        } else if n == bound_key_name() {
            match digests.request_bound {
                Some(d) => Some(d@),
                None => None,
            }
        } else {
            None
        },
        None => None,
    }
}

/// Which digest pins which key: the legacy key file is always checked against
/// the legacy digest, whatever else is recorded; the request-bound key file
/// against the request-bound digest, and only when one is recorded; any other
/// file name, or none, is an unknown artifact.
pub proof fn lemma_recorded_digest_by_name(name: Seq<char>, d: ProvingKeyDigests)
    ensures
        recorded_digest(Some("entros_hamming_final.zkey"@), d) == Some(d.legacy@),
        recorded_digest(Some("entros_request_bound_v1_final.zkey"@), d) == match d.request_bound {
            Some(b) => Some(b@),
            None => None::<Seq<char>>,
        },
        name != "entros_hamming_final.zkey"@ && name != "entros_request_bound_v1_final.zkey"@
            ==> recorded_digest(Some(name), d) is None,
        recorded_digest(None, d) is None,
        names_bound_key(Some(name)) <==> name == "entros_request_bound_v1_final.zkey"@,
        !names_bound_key(None),
{
    reveal_strlit("entros_hamming_final.zkey");
    reveal_strlit("entros_request_bound_v1_final.zkey");
    assert("entros_hamming_final.zkey"@.len() != "entros_request_bound_v1_final.zkey"@.len());
}

/// The view of an optional file name.
pub open spec fn name_view(file_name: Option<&str>) -> Option<Seq<char>> {
    match file_name {
        Some(n) => Some(n@),
        None => None,
    }
}

/// Whether a file name is the request-bound key's.
pub open spec fn names_bound_key(file_name: Option<Seq<char>>) -> bool {
    file_name matches Some(n) && n == bound_key_name()
}

/// Returns the digest recorded for the key file name, or the error for an
/// unknown proving artifact.
pub fn expected_key_digest(file_name: Option<&str>, digests: &ProvingKeyDigests) -> (r: Result<
    String,
    MoproError,
>)
    ensures
        match r {
            Ok(d) => recorded_digest(name_view(file_name), *digests) == Some(d@),
            Err(e) => recorded_digest(name_view(file_name), *digests) is None && e.message()
                == "Unknown proving artifact"@,
        },
{
    let unknown = MoproError::CircomError(String::from_str("Unknown proving artifact"));
    let name = match file_name {
        Some(n) => String::from_str(n),
        None => return Err(unknown),
    };
    if name == String::from_str("entros_hamming_final.zkey") {
        return Ok(digests.legacy.clone());
    }
    if name == String::from_str("entros_request_bound_v1_final.zkey") {
        return match &digests.request_bound {
            Some(d) => Ok(d.clone()),
            None => Err(unknown),
        };
    }
    Err(unknown)
}

/// Decides whether a key file name is the request-bound key's.
pub fn is_bound_key(file_name: Option<&str>) -> (r: bool)
    ensures
        r == names_bound_key(name_view(file_name)),
{
    match file_name {
        Some(n) => String::from_str(n) == String::from_str("entros_request_bound_v1_final.zkey"),
        None => false,
    }
}

/// The SHA-256 digest of a byte string.
pub uninterp spec fn sha256(data: Seq<u8>) -> Seq<u8>;

/// `sha2::Sha256::digest` of the bytes, as a vector of its 32 bytes.
#[verifier::external_body]
pub(crate) fn sha256_digest(data: &[u8]) -> (r: Vec<u8>)
    ensures
        r@ == sha256(data@),
{
    Sha256::digest(data).to_vec()
}

/// The lowercase hexadecimal digit of a value below sixteen.
pub open spec fn hex_digit(n: nat) -> char {
    if n < 10 {
        (n + 48) as char
    } else {
        (n + 87) as char
    }
}

/// Two lowercase hexadecimal digits per byte, most significant first.
pub open spec fn lower_hex(bytes: Seq<u8>) -> Seq<char>
    decreases bytes.len(),
{
    if bytes.len() == 0 {
        seq![]
    } else {
        lower_hex(bytes.drop_last()) + seq![
            hex_digit((bytes.last() / 16) as nat),
            hex_digit((bytes.last() % 16) as nat),
        ]
    }
}

proof fn lemma_lower_hex_index(bytes: Seq<u8>)
    ensures
        lower_hex(bytes).len() == 2 * bytes.len(),
        forall|i: int|
            0 <= i < bytes.len() ==> lower_hex(bytes)[2 * i] == hex_digit((#[trigger] bytes[i] / 16) as nat)
                && lower_hex(bytes)[2 * i + 1] == hex_digit((bytes[i] % 16) as nat),
    decreases bytes.len(),
{
    if bytes.len() > 0 {
        let p = bytes.drop_last();
        lemma_lower_hex_index(p);
        assert forall|i: int| 0 <= i < bytes.len() implies lower_hex(bytes)[2 * i] == hex_digit(
            (#[trigger] bytes[i] / 16) as nat,
        ) && lower_hex(bytes)[2 * i + 1] == hex_digit((bytes[i] % 16) as nat) by {
            if i < p.len() {
                assert(p[i] == bytes[i]);
            }
        }
    }
}

/// The digest text names every byte with two lowercase hexadecimal digits,
/// high half first: the text is twice as long as the digest, and each pair of
/// characters, read as `0`-`9` and `a`-`f`, gives back its byte.
pub proof fn lemma_lower_hex_encodes(bytes: Seq<u8>)
    ensures
        lower_hex(bytes).len() == 2 * bytes.len(),
        forall|i: int|
            0 <= i < lower_hex(bytes).len() ==> ('0' <= #[trigger] lower_hex(bytes)[i] <= '9') || (
            'a' <= lower_hex(bytes)[i] <= 'f'),
        forall|i: int|
            0 <= i < bytes.len() ==> {
                let hi = lower_hex(bytes)[2 * i];
                let lo = lower_hex(bytes)[2 * i + 1];
                let hv = if hi <= '9' {
                    hi as int - '0' as int
                } else {
                    hi as int - 'a' as int + 10
                };
                let lv = if lo <= '9' {
                    lo as int - '0' as int
                } else {
                    lo as int - 'a' as int + 10
                };
                16 * hv + lv == #[trigger] bytes[i]
            },
{
    lemma_lower_hex_index(bytes);
    assert forall|n: nat| n < 16 implies #[trigger] hex_digit(n) as int == if n < 10 {
        n + 48
    } else {
        n + 87
    } by {
        if n < 10 {
            assert((n + 48) as char as int == n + 48);
        } else {
            assert((n + 87) as char as int == n + 87);
        }
    }
    assert forall|i: int| 0 <= i < lower_hex(bytes).len() implies ('0' <= #[trigger] lower_hex(bytes)[i] <= '9') || (
        'a' <= lower_hex(bytes)[i] <= 'f') by {
        let j = i / 2;
        assert(bytes[j] == bytes[j]);
        if i % 2 == 0 {
            assert(i == 2 * j);
            let n = (bytes[j] / 16) as nat;
            assert(hex_digit(n) as int == if n < 10 { n + 48 } else { n + 87 });
        } else {
            assert(i == 2 * j + 1);
            let n = (bytes[j] % 16) as nat;
            assert(hex_digit(n) as int == if n < 10 { n + 48 } else { n + 87 });
        }
    }
    assert forall|i: int| 0 <= i < bytes.len() implies {
        let hi = lower_hex(bytes)[2 * i];
        let lo = lower_hex(bytes)[2 * i + 1];
        let hv = if hi <= '9' {
            hi as int - '0' as int
        } else {
            hi as int - 'a' as int + 10
        };
        let lv = if lo <= '9' {
            lo as int - '0' as int
        } else {
            lo as int - 'a' as int + 10
        };
        16 * hv + lv == #[trigger] bytes[i]
    } by {
        let h = (bytes[i] / 16) as nat;
        let l = (bytes[i] % 16) as nat;
        assert(hex_digit(h) as int == if h < 10 { h + 48 } else { h + 87 });
        assert(hex_digit(l) as int == if l < 10 { l + 48 } else { l + 87 });
    }
}

fn hex_digit_char(n: u8) -> (c: char)
    requires
        n < 16,
    ensures
        c == hex_digit(n as nat),
{
    if n < 10 {
        (n + 48) as char
    } else {
        (n + 87) as char
    }
}

/// Decides whether `text` is the lowercase hexadecimal form of `bytes`.
pub fn lower_hex_matches(bytes: &[u8], text: &str) -> (r: bool)
    ensures
        r == (lower_hex(bytes@) == text@),
{
    proof {
        lemma_lower_hex_index(bytes@);
    }
    let n = text.unicode_len();
    if bytes.len() > n || n - bytes.len() != bytes.len() {
        return false;
    }
    let mut i: usize = 0;
    while i < bytes.len()
        invariant
            i <= bytes@.len(),
            n == text@.len(),
            n == 2 * bytes@.len(),
            lower_hex(bytes@).len() == 2 * bytes@.len(),
            forall|j: int|
                0 <= j < bytes@.len() ==> lower_hex(bytes@)[2 * j] == hex_digit(
                    (#[trigger] bytes@[j] / 16) as nat,
                ) && lower_hex(bytes@)[2 * j + 1] == hex_digit((bytes@[j] % 16) as nat),
            forall|k: int| 0 <= k < 2 * i ==> lower_hex(bytes@)[k] == #[trigger] text@[k],
        decreases bytes@.len() - i,
    {
        let b = bytes[i];
        let high = text.get_char(2 * i);
        let low = text.get_char(2 * i + 1);
        if high != hex_digit_char(b / 16) || low != hex_digit_char(b % 16) {
            assert(lower_hex(bytes@)[2 * i as int] != text@[2 * i as int] || lower_hex(
                bytes@,
            )[2 * i + 1] != text@[2 * i + 1]);
            return false;
        }
        assert forall|k: int| 0 <= k < 2 * (i + 1) implies lower_hex(bytes@)[k]
            == #[trigger] text@[k] by {
            if k >= 2 * i {
                assert(bytes@[i as int] == b);
            }
        }
        i += 1;
    }
    assert(lower_hex(bytes@) =~= text@);
    true
}

/// Checks a proving key's bytes against the digest recorded for its name: the
/// lowercase hexadecimal SHA-256 digest of the bytes must be that text.
pub fn check_key_identity(key_bytes: &[u8], expected: &str) -> (r: Result<(), MoproError>)
    ensures
        match r {
            Ok(_) => lower_hex(sha256(key_bytes@)) == expected@,
            Err(e) => lower_hex(sha256(key_bytes@)) != expected@ && e.message()
                == "Proving key SHA-256 mismatch"@,
        },
{
    let digest = sha256_digest(key_bytes);
    if !lower_hex_matches(digest.as_slice(), expected) {
        return Err(MoproError::CircomError(String::from_str("Proving key SHA-256 mismatch")));
    }
    Ok(())
}

} // verus!
