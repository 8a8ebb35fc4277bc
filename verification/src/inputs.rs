//! Normalization of the circuit inputs that the mobile and web clients send,
//! and validation of the public signals of a proof.

use crate::decimal::{
    all_digits, canonical_decimal, decimal_below, decimal_value, is_canonical_decimal,
    lemma_canonical_decimal_unique, lemma_decimal_bounds, lemma_pow10_monotone,
    decimal_text, lemma_canonical_decimal_is_decimal_text,
};
use vstd::arithmetic::div_mod::lemma_small_mod;
use crate::error::MoproError;
use crate::json::{
    is_string_array, json_get, json_lookup, json_object_text, json_parse, parse_json,
    reads_back_as, serialize_fields, Json, distinct_names,
};
use vstd::prelude::*;

verus! {

/// The number of bits in a fingerprint.
pub const FINGERPRINT_BITS: usize = 256;

/// The exclusive upper bound that a decimal input must stay below.
#[derive(Clone, Copy, Debug, PartialEq, Eq)]
pub enum InputBound {
    /// The order of the BN254 scalar field.
    ScalarField,
    /// 512, the bound of the distance parameters.
    DistanceBits,
    /// 2^128, the bound of one limb of the request digest.
    DigestLimb,
}

/// The decimal text of a bound.
pub open spec fn bound_text(b: InputBound) -> Seq<char> {
    match b {
        InputBound::ScalarField => "21888242871839275222246405745257275088548364400416034343698204186575808495617"@,
        InputBound::DistanceBits => "512"@,
        InputBound::DigestLimb => "340282366920938463463374607431768211456"@,
    }
}

/// Returns the decimal text of a bound.
pub fn bound_decimal(b: InputBound) -> (r: &'static str)
    ensures
        r@ == bound_text(b),
{
    match b {
        InputBound::ScalarField => "21888242871839275222246405745257275088548364400416034343698204186575808495617",
        InputBound::DistanceBits => "512",
        InputBound::DigestLimb => "340282366920938463463374607431768211456",
    }
}

/// Every bound is a non-empty text of digits.
pub proof fn lemma_bound_text_digits(b: InputBound)
    ensures
        bound_text(b).len() > 0,
        all_digits(bound_text(b)),
{
    reveal_strlit("21888242871839275222246405745257275088548364400416034343698204186575808495617");
    reveal_strlit("512");
    reveal_strlit("340282366920938463463374607431768211456");
}

/// A text is accepted for a bound when it is canonical decimal and denotes a
/// number below the bound.
pub open spec fn accepted_decimal(t: Seq<char>, b: InputBound) -> bool {
    canonical_decimal(t) && decimal_value(t) < decimal_value(bound_text(b))
}

/// The text that a scalar input carries: a string, or an array holding one
/// string.
pub open spec fn scalar_text(v: Json) -> Option<Seq<char>> {
    match v {
        Json::Str(t) => Some(t@),
        Json::Array(items) => if items@.len() == 1 {
            match items@[0] {
                Json::Str(t) => Some(t@),
                _ => None,
            }
        } else {
            None
        },
        _ => None,
    }
}

/// The normalized text of a scalar input, when it is accepted.
pub open spec fn spec_decimal(v: Json, b: InputBound) -> Option<Seq<char>> {
    match scalar_text(v) {
        Some(t) => if accepted_decimal(t, b) {
            Some(t)
        } else {
            None
        },
        None => None,
    }
}

/// The normalized text of one fingerprint bit: the string `0` or `1`, or the
/// unsigned integer 0 or 1.
pub open spec fn fingerprint_bit(v: Json) -> Option<Seq<char>> {
    match v {
        Json::Str(t) => if t@ == "0"@ || t@ == "1"@ {
            Some(t@)
        } else {
            None
        },
        Json::Number(Some(n)) => if n == 0 {
            Some("0"@)
        } else if n == 1 {
            Some("1"@)
        } else {
            None
        },
        _ => None,
    }
}

/// The normalized bits of a fingerprint input: an array of exactly 256 bits.
pub open spec fn spec_fingerprint(v: Json) -> Option<Seq<Seq<char>>> {
    match v {
        Json::Array(items) => if items@.len() == FINGERPRINT_BITS && forall|i: int|
            0 <= i < items@.len() ==> (#[trigger] fingerprint_bit(items@[i])) is Some {
            Some(Seq::new(items@.len(), |i: int| fingerprint_bit(items@[i]).unwrap()))
        } else {
            None
        },
        _ => None,
    }
}

/// How one named circuit input is read.
#[derive(Clone, Copy, Debug, PartialEq, Eq)]
pub enum InputKind {
    Fingerprint,
    Scalar(InputBound),
}

/// The inputs of the circuit, in the order in which they are read; the
/// request-bound circuit adds the two limbs of the request digest.
pub open spec fn circuit_fields(bound: bool) -> Seq<(Seq<char>, InputKind)> {
    let base = seq![
        ("ft_new"@, InputKind::Fingerprint),
        ("ft_prev"@, InputKind::Fingerprint),
        ("salt_new"@, InputKind::Scalar(InputBound::ScalarField)),
        ("salt_prev"@, InputKind::Scalar(InputBound::ScalarField)),
        ("commitment_new"@, InputKind::Scalar(InputBound::ScalarField)),
        ("commitment_prev"@, InputKind::Scalar(InputBound::ScalarField)),
        ("threshold"@, InputKind::Scalar(InputBound::DistanceBits)),
        ("min_distance"@, InputKind::Scalar(InputBound::DistanceBits)),
    ];
    if bound {
        base + seq![
            ("request_digest_hi"@, InputKind::Scalar(InputBound::DigestLimb)),
            ("request_digest_lo"@, InputKind::Scalar(InputBound::DigestLimb)),
        ]
    } else {
        base
    }
}

/// The normalized strings of one input of the object `members`.
pub open spec fn normalize_field(members: Seq<(String, Json)>, name: Seq<char>, kind: InputKind) -> Option<
    Seq<Seq<char>>,
> {
    match json_lookup(members, name) {
        None => None,
        Some(v) => match kind {
            InputKind::Fingerprint => spec_fingerprint(v),
            InputKind::Scalar(b) => match spec_decimal(v, b) {
                Some(t) => Some(seq![t]),
                None => None,
            },
        },
    }
}

/// Normalizes the listed inputs in order; the error names the first input
/// that is missing or malformed.
pub open spec fn normalize_fields(
    members: Seq<(String, Json)>,
    fields: Seq<(Seq<char>, InputKind)>,
) -> Result<Seq<(Seq<char>, Seq<Seq<char>>)>, Seq<char>>
    decreases fields.len(),
{
    if fields.len() == 0 {
        Ok(seq![])
    } else {
        match normalize_fields(members, fields.drop_last()) {
            Err(e) => Err(e),
            Ok(done) => match normalize_field(members, fields.last().0, fields.last().1) {
                None => Err(fields.last().0),
                Some(vals) => Ok(done.push((fields.last().0, vals))),
            },
        }
    }
}

/// The normalized inputs of a parsed document, or the name of what is wrong.
pub open spec fn spec_normalize_value(v: Json, bound: bool) -> Result<
    Seq<(Seq<char>, Seq<Seq<char>>)>,
    Seq<char>,
> {
    match v {
        Json::Object(members) => if members@.len() != circuit_fields(bound).len() {
            Err("field count"@)
        } else {
            normalize_fields(members@, circuit_fields(bound))
        },
        _ => Err("object"@),
    }
}

/// The normalized input text of a document text, or the name of what is wrong.
pub open spec fn spec_normalize(text: Seq<char>, bound: bool) -> Result<Seq<char>, Seq<char>> {
    match json_parse(text) {
        None => Err("JSON"@),
        Some(v) => match spec_normalize_value(v, bound) {
            Err(e) => Err(e),
            Ok(fields) => match json_object_text(fields) {
                None => Err("serialization"@),
                Some(t) => Ok(t),
            },
        },
    }
}

/// The reason reported for a rejected circuit input.
pub open spec fn invalid_input_message(name: Seq<char>) -> Seq<char> {
    "Invalid circuit input: "@ + name
}

/// The error for a rejected circuit input.
pub fn invalid(name: &str) -> (e: MoproError)
    ensures
        e.message() == invalid_input_message(name@),
{
    MoproError::CircomError(String::from_str("Invalid circuit input: ").concat(name))
}

/// Reads a scalar input: a canonical decimal string, alone or as the single
/// element of an array, below `limit`.
pub fn decimal(value: &Json, name: &str, limit: InputBound) -> (r: Result<String, MoproError>)
    ensures
        match r {
            Ok(t) => spec_decimal(*value, limit) == Some(t@),
            Err(e) => spec_decimal(*value, limit) is None && e.message() == invalid_input_message(
                name@,
            ),
        },
{
    let text: &String = match value {
        Json::Str(t) => t,
        Json::Array(items) => {
            if items.len() != 1 {
                return Err(invalid(name));
            }
            match &items[0] {
                Json::Str(t) => t,
                _ => return Err(invalid(name)),
            }
        },
        _ => return Err(invalid(name)),
    };
    if !is_canonical_decimal(text.as_str()) {
        return Err(invalid(name));
    }
    proof {
        lemma_bound_text_digits(limit);
    }
    if !decimal_below(text.as_str(), bound_decimal(limit)) {
        return Err(invalid(name));
    }
    Ok(text.clone())
}

/// Reads one fingerprint bit.
fn fingerprint_bit_text(value: &Json) -> (r: Option<String>)
    ensures
        match r {
            Some(t) => fingerprint_bit(*value) == Some(t@),
            None => fingerprint_bit(*value) is None,
        },
{
    let zero = String::from_str("0");
    let one = String::from_str("1");
    match value {
        Json::Str(t) => if *t == zero || *t == one {
            Some(t.clone())
        } else {
            None
        },
        Json::Number(Some(n)) => if *n == 0 {
            Some(zero)
        } else if *n == 1 {
            Some(one)
        } else {
            None
        },
        _ => None,
    }
}

/// Reads a fingerprint input: an array of 256 bits, each the string `0` or
/// `1` or the number 0 or 1, normalized to strings.
pub fn fingerprint(value: &Json, name: &str) -> (r: Result<Vec<String>, MoproError>)
    ensures
        match r {
            Ok(bits) => spec_fingerprint(*value) == Some(bits.deep_view()),
            Err(e) => spec_fingerprint(*value) is None && e.message() == invalid_input_message(
                name@,
            ),
        },
{
    let items = match value {
        Json::Array(items) => items,
        _ => return Err(invalid(name)),
    };
    if items.len() != FINGERPRINT_BITS {
        return Err(invalid(name));
    }
    let mut bits: Vec<String> = Vec::new();
    let mut i: usize = 0;
    while i < items.len()
        invariant
            i <= items@.len(),
            items@.len() == FINGERPRINT_BITS,
            *value == Json::Array(*items),
            bits@.len() == i,
            forall|j: int|
                0 <= j < i ==> fingerprint_bit(#[trigger] items@[j]) == Some(bits@[j]@),
        decreases items@.len() - i,
    {
        match fingerprint_bit_text(&items[i]) {
            Some(t) => bits.push(t),
            None => return Err(invalid(name)),
        }
        i += 1;
    }
    assert(bits.deep_view() =~= Seq::new(
        items@.len(),
        |k: int| fingerprint_bit(items@[k]).unwrap(),
    ));
    Ok(bits)
}

/// Returns the inputs of the circuit, as [`circuit_fields`] lists them.
fn circuit_field_list(bound: bool) -> (r: Vec<(&'static str, InputKind)>)
    ensures
        r@.len() == circuit_fields(bound).len(),
        forall|i: int|
            0 <= i < r@.len() ==> (#[trigger] r@[i]).0@ == circuit_fields(bound)[i].0 && r@[i].1
                == circuit_fields(bound)[i].1,
{
    let mut fields: Vec<(&'static str, InputKind)> = Vec::new();
    fields.push(("ft_new", InputKind::Fingerprint));
    fields.push(("ft_prev", InputKind::Fingerprint));
    fields.push(("salt_new", InputKind::Scalar(InputBound::ScalarField)));
    fields.push(("salt_prev", InputKind::Scalar(InputBound::ScalarField)));
    fields.push(("commitment_new", InputKind::Scalar(InputBound::ScalarField)));
    fields.push(("commitment_prev", InputKind::Scalar(InputBound::ScalarField)));
    fields.push(("threshold", InputKind::Scalar(InputBound::DistanceBits)));
    fields.push(("min_distance", InputKind::Scalar(InputBound::DistanceBits)));
    if bound {
        fields.push(("request_digest_hi", InputKind::Scalar(InputBound::DigestLimb)));
        fields.push(("request_digest_lo", InputKind::Scalar(InputBound::DigestLimb)));
    }
    fields
}

/// An error in a prefix of the inputs is the error of the whole list.
proof fn lemma_normalize_fields_error_extends(
    members: Seq<(String, Json)>,
    fields: Seq<(Seq<char>, InputKind)>,
    k: int,
)
    requires
        0 <= k <= fields.len(),
        normalize_fields(members, fields.take(k)) is Err,
    ensures
        normalize_fields(members, fields) == normalize_fields(members, fields.take(k)),
    decreases fields.len(),
{
    if k == fields.len() {
        assert(fields.take(k) =~= fields);
    } else {
        assert(fields.drop_last().take(k) =~= fields.take(k));
        lemma_normalize_fields_error_extends(members, fields.drop_last(), k);
    }
}

/// Normalizing the inputs succeeds exactly when every input normalizes on its
/// own, and then yields each input under its name, in order.
proof fn lemma_normalize_fields_pointwise(
    members: Seq<(String, Json)>,
    fields: Seq<(Seq<char>, InputKind)>,
    out: Seq<(Seq<char>, Seq<Seq<char>>)>,
)
    ensures
        normalize_fields(members, fields) == Ok::<_, Seq<char>>(out) <==> {
            &&& out.len() == fields.len()
            &&& forall|i: int|
                0 <= i < fields.len() ==> (#[trigger] out[i]).0 == fields[i].0 && normalize_field(
                    members,
                    fields[i].0,
                    fields[i].1,
                ) == Some(out[i].1)
        },
    decreases fields.len(),
{
    if fields.len() == 0 {
        if out.len() == 0 {
            assert(out =~= seq![]);
        }
    } else if out.len() > 0 {
        let last = fields.last();
        let ol = out.last();
        lemma_normalize_fields_pointwise(members, fields.drop_last(), out.drop_last());
        assert(out.drop_last().push(ol) =~= out);
        if normalize_fields(members, fields) == Ok::<_, Seq<char>>(out) {
            match normalize_fields(members, fields.drop_last()) {
                Ok(done) => {
                    let vals = normalize_field(members, last.0, last.1).unwrap();
                    assert(out == done.push((last.0, vals)));
                    assert(out.drop_last() =~= done);
                    assert forall|i: int| 0 <= i < fields.len() implies (#[trigger] out[i]).0
                        == fields[i].0 && normalize_field(members, fields[i].0, fields[i].1) == Some(
                        out[i].1,
                    ) by {
                        if i < fields.len() - 1 {
                            assert(out.drop_last()[i] == out[i]);
                            assert(fields.drop_last()[i] == fields[i]);
                        }
                    }
                },
                Err(_) => {},
            }
        }
        if out.len() == fields.len() && forall|i: int|
            0 <= i < fields.len() ==> (#[trigger] out[i]).0 == fields[i].0 && normalize_field(
                members,
                fields[i].0,
                fields[i].1,
            ) == Some(out[i].1) {
            assert forall|i: int| 0 <= i < fields.drop_last().len() implies (#[trigger] out.drop_last()[i]).0
                == fields.drop_last()[i].0 && normalize_field(
                members,
                fields.drop_last()[i].0,
                fields.drop_last()[i].1,
            ) == Some(out.drop_last()[i].1) by {
                assert(out.drop_last()[i] == out[i]);
                assert(fields.drop_last()[i] == fields[i]);
            }
            assert(out[out.len() - 1] == ol);
            assert(fields[fields.len() - 1] == last);
            assert(normalize_fields(members, fields.drop_last()) == Ok::<_, Seq<char>>(out.drop_last()));
            assert(normalize_field(members, last.0, last.1) == Some(ol.1));
            assert((last.0, ol.1) == ol);
        }
    } else {
        match normalize_fields(members, fields.drop_last()) {
            Err(_) => {},
            Ok(done) => {
                match normalize_field(members, fields.last().0, fields.last().1) {
                    None => {},
                    Some(vals) => {
                        assert(done.push((fields.last().0, vals)).len() > 0);
                    },
                }
            },
        }
    }
}

/// Normalizes a parsed document: an object with exactly the inputs of the
/// circuit, each well formed, gives the normalized inputs in circuit order.
pub fn normalize_value(value: &Json, bound: bool) -> (r: Result<Vec<(String, Vec<String>)>, MoproError>)
    ensures
        match r {
            Ok(fields) => spec_normalize_value(*value, bound) == Ok::<_, Seq<char>>(fields.deep_view()),
            Err(e) => spec_normalize_value(*value, bound) matches Err(n) && e.message()
                == invalid_input_message(n),
        },
{
    let members = match value {
        Json::Object(members) => members,
        _ => return Err(invalid("object")),
    };
    let fields = circuit_field_list(bound);
    if members.len() != fields.len() {
        return Err(invalid("field count"));
    }
    let ghost spec_fields = circuit_fields(bound);
    let mut out: Vec<(String, Vec<String>)> = Vec::new();
    let mut k: usize = 0;
    assert(spec_fields.take(0) =~= Seq::<(Seq<char>, InputKind)>::empty());
    assert(out.deep_view() =~= Seq::<(Seq<char>, Seq<Seq<char>>)>::empty());
    while k < fields.len()
        invariant
            k <= fields@.len(),
            *value == Json::Object(*members),
            spec_fields == circuit_fields(bound),
            fields@.len() == spec_fields.len(),
            members@.len() == spec_fields.len(),
            forall|i: int|
                0 <= i < fields@.len() ==> (#[trigger] fields@[i]).0@ == spec_fields[i].0
                    && fields@[i].1 == spec_fields[i].1,
            normalize_fields(members@, spec_fields.take(k as int)) == Ok::<_, Seq<char>>(
                out.deep_view(),
            ),
        decreases fields@.len() - k,
    {
        let (name, kind) = fields[k];
        assert(spec_fields.take(k + 1).drop_last() =~= spec_fields.take(k as int));
        assert(spec_fields.take(k + 1).last() == spec_fields[k as int]);
        let v = match json_get(members, name) {
            Some(v) => v,
            None => {
                proof {
                    lemma_normalize_fields_error_extends(members@, spec_fields, k + 1);
                }
                return Err(invalid(name));
            },
        };
        let vals: Vec<String> = match kind {
            InputKind::Fingerprint => match fingerprint(v, name) {
                Ok(bits) => bits,
                Err(e) => {
                    proof {
                        lemma_normalize_fields_error_extends(members@, spec_fields, k + 1);
                    }
                    return Err(e);
                },
            },
            InputKind::Scalar(b) => match decimal(v, name, b) {
                Ok(t) => {
                    let mut one: Vec<String> = Vec::new();
                    one.push(t);
                    assert(one.deep_view() =~= seq![t@]);
                    one
                },
                Err(e) => {
                    proof {
                        lemma_normalize_fields_error_extends(members@, spec_fields, k + 1);
                    }
                    return Err(e);
                },
            },
        };
        let ghost before = out.deep_view();
        out.push((String::from_str(name), vals));
        assert(out.deep_view() =~= before.push((name@, vals.deep_view())));
        k += 1;
    }
    assert(spec_fields.take(k as int) =~= spec_fields);
    Ok(out)
}

/// No two inputs of the circuit share a name.
proof fn lemma_circuit_field_names_distinct(bound: bool)
    ensures
        forall|i: int, j: int|
            0 <= i < j < circuit_fields(bound).len() ==> circuit_fields(bound)[i].0
                != circuit_fields(bound)[j].0,
{
    reveal_strlit("ft_new");
    reveal_strlit("ft_prev");
    reveal_strlit("salt_new");
    reveal_strlit("salt_prev");
    reveal_strlit("commitment_new");
    reveal_strlit("commitment_prev");
    reveal_strlit("threshold");
    reveal_strlit("min_distance");
    reveal_strlit("request_digest_hi");
    reveal_strlit("request_digest_lo");
    let f = circuit_fields(bound);
    assert forall|i: int, j: int| 0 <= i < j < f.len() implies f[i].0 != f[j].0 by {
        if f[i].0.len() == f[j].0.len() {
            if f[i].0.len() == 9 {
                assert(f[i].0[0] != f[j].0[0]);
            } else {
                assert(f[i].0[15] != f[j].0[15]);
            }
        }
    }
}

/// A normalized fingerprint bit is the text `0` or `1`.
proof fn lemma_fingerprint_bit_text(v: Json)
    ensures
        fingerprint_bit(v) matches Some(t) ==> t == "0"@ || t == "1"@,
{
}

/// An input that normalized to `vals`, written back as an array of those
/// strings, normalizes to `vals` again.
proof fn lemma_normalized_field_rereads(v: Json, kind: InputKind, vals: Seq<Seq<char>>, w: Json)
    requires
        match kind {
            InputKind::Fingerprint => spec_fingerprint(v) == Some(vals),
            InputKind::Scalar(b) => spec_decimal(v, b) matches Some(t) && vals == seq![t],
        },
        is_string_array(w, vals),
    ensures
        match kind {
            InputKind::Fingerprint => spec_fingerprint(w) == Some(vals),
            InputKind::Scalar(b) => spec_decimal(w, b) matches Some(t) && vals == seq![t],
        },
{
    match kind {
        InputKind::Fingerprint => {
            if let Json::Array(items) = v {
                if let Json::Array(written) = w {
                    assert forall|i: int| 0 <= i < written@.len() implies (#[trigger] fingerprint_bit(
                        written@[i],
                    )) == Some(vals[i]) by {
                        lemma_fingerprint_bit_text(items@[i]);
                        assert(vals[i] == fingerprint_bit(items@[i]).unwrap());
                    }
                    assert(Seq::new(written@.len(), |i: int| fingerprint_bit(written@[i]).unwrap())
                        =~= vals);
                }
            }
        },
        InputKind::Scalar(b) => {
            if let Json::Array(written) = w {
                assert(written@[0] matches Json::Str(t) && t@ == vals[0]);
            }
        },
    }
}

/// The normalized inputs carry distinct names.
proof fn lemma_normalized_names_distinct(v: Json, bound: bool)
    requires
        spec_normalize_value(v, bound) is Ok,
    ensures
        distinct_names(spec_normalize_value(v, bound)->Ok_0),
{
    if let Json::Object(members) = v {
        lemma_normalize_fields_pointwise(
            members@,
            circuit_fields(bound),
            spec_normalize_value(v, bound)->Ok_0,
        );
        lemma_circuit_field_names_distinct(bound);
    }
}

/// Once normalized, the inputs normalize to themselves: the text written for
/// the normalized inputs, read back, gives the same inputs and the same text.
proof fn lemma_normalize_rereads(v: Json, bound: bool, text: Seq<char>)
    requires
        spec_normalize_value(v, bound) is Ok,
        json_object_text(spec_normalize_value(v, bound)->Ok_0) == Some(text),
        distinct_names(spec_normalize_value(v, bound)->Ok_0) ==> reads_back_as(
            text,
            spec_normalize_value(v, bound)->Ok_0,
        ),
    ensures
        spec_normalize(text, bound) == Ok::<_, Seq<char>>(text),
{
    let out = spec_normalize_value(v, bound)->Ok_0;
    let cf = circuit_fields(bound);
    if let Json::Object(members) = v {
        lemma_normalize_fields_pointwise(members@, cf, out);
        lemma_circuit_field_names_distinct(bound);
        assert(distinct_names(out));
        if let Some(Json::Object(reread)) = json_parse(text) {
            assert forall|i: int| 0 <= i < cf.len() implies (#[trigger] out[i]).0 == cf[i].0
                && normalize_field(reread@, cf[i].0, cf[i].1) == Some(out[i].1) by {
                let w = json_lookup(reread@, out[i].0).unwrap();
                let orig = json_lookup(members@, cf[i].0).unwrap();
                lemma_normalized_field_rereads(orig, cf[i].1, out[i].1, w);
            }
            lemma_normalize_fields_pointwise(reread@, cf, out);
        }
    }
}

/// Normalization drops no input: a document that normalizes yields every
/// input of the circuit exactly once, in circuit order, each holding the
/// normalized form of the member of that name.
pub proof fn lemma_normalized_inputs_complete(v: Json, bound: bool)
    requires
        spec_normalize_value(v, bound) is Ok,
    ensures
        ({
            let out = spec_normalize_value(v, bound)->Ok_0;
            let fields = circuit_fields(bound);
            &&& out.len() == fields.len()
            &&& forall|i: int|
                0 <= i < fields.len() ==> (#[trigger] out[i]).0 == fields[i].0 && (v matches Json::Object(
                    members,
                ) && normalize_field(members@, fields[i].0, fields[i].1) == Some(out[i].1))
        }),
{
    if let Json::Object(members) = v {
        lemma_normalize_fields_pointwise(
            members@,
            circuit_fields(bound),
            spec_normalize_value(v, bound)->Ok_0,
        );
    }
}

/// Normalizes the circuit inputs that a client sends as a JSON text: an
/// object with exactly the inputs of the circuit (with the two request digest
/// limbs when `bound`), each fingerprint an array of 256 bits, each scalar a
/// canonical decimal string below its bound. The result is a JSON object that
/// maps each input to an array of decimal strings, and reads back as exactly
/// those normalized inputs. It succeeds exactly when the document is such an
/// object. Normalizing that result again gives it back unchanged.
pub fn normalize(json: &str, bound: bool) -> (r: Result<String, MoproError>)
    ensures
        match r {
            Ok(t) => spec_normalize(json@, bound) == Ok::<_, Seq<char>>(t@),
            Err(e) => spec_normalize(json@, bound) matches Err(n) && e.message()
                == invalid_input_message(n),
        },
        r is Ok <==> (json_parse(json@) matches Some(v) && spec_normalize_value(v, bound) is Ok),
        r matches Ok(t) ==> (json_parse(json@) matches Some(v) && (spec_normalize_value(v, bound) matches Ok(f)
            && reads_back_as(t@, f))),
        r matches Ok(t) ==> spec_normalize(t@, bound) == Ok::<_, Seq<char>>(t@),
{
    let value = match parse_json(json) {
        Some(value) => value,
        None => return Err(invalid("JSON")),
    };
    let fields = match normalize_value(&value, bound) {
        Ok(fields) => fields,
        Err(e) => return Err(e),
    };
    match serialize_fields(&fields) {
        Some(t) => {
            proof {
                lemma_normalize_rereads(value, bound, t@);
                lemma_normalized_names_distinct(value, bound);
            }
            Ok(t)
        },
        None => Err(invalid("serialization")),
    }
}

/// The number of public signals of the circuit.
pub open spec fn public_input_count(bound: bool) -> nat {
    if bound {
        6
    } else {
        4
    }
}

/// The bound of the public signal at `index`: the two commitments are field
/// elements, the threshold and minimum distance are below 512, and the limbs
/// of the request digest are below 2^128.
pub open spec fn public_input_bound(index: int) -> InputBound {
    if index < 2 {
        InputBound::ScalarField
    } else if index < 4 {
        InputBound::DistanceBits
    } else {
        InputBound::DigestLimb
    }
}

/// The outcome of checking the public signals of a proof.
pub open spec fn spec_validate_public_inputs(inputs: Seq<String>, bound: bool) -> Result<(), Seq<char>> {
    if inputs.len() != public_input_count(bound) {
        Err("public input count"@)
    } else if forall|i: int|
        0 <= i < inputs.len() ==> accepted_decimal((#[trigger] inputs[i])@, public_input_bound(i)) {
        Ok(())
    } else {
        Err("public input"@)
    }
}

/// Checks the public signals of a proof: four of them (six for the
/// request-bound circuit), each a canonical decimal below the bound of its
/// position.
pub fn validate_public_inputs(inputs: &[String], bound: bool) -> (r: Result<(), MoproError>)
    ensures
        match r {
            Ok(_) => spec_validate_public_inputs(inputs@, bound) is Ok,
            Err(e) => spec_validate_public_inputs(inputs@, bound) matches Err(n) && e.message()
                == invalid_input_message(n),
        },
{
    let count: usize = if bound {
        6
    } else {
        4
    };
    if inputs.len() != count {
        return Err(invalid("public input count"));
    }
    let mut i: usize = 0;
    while i < inputs.len()
        invariant
            i <= inputs@.len(),
            inputs@.len() == public_input_count(bound),
            forall|j: int|
                0 <= j < i ==> accepted_decimal((#[trigger] inputs@[j])@, public_input_bound(j)),
        decreases inputs@.len() - i,
    {
        let limit = if i < 2 {
            InputBound::ScalarField
        } else if i < 4 {
            InputBound::DistanceBits
        } else {
            InputBound::DigestLimb
        };
        let signal = Json::Str(inputs[i].clone());
        match decimal(&signal, "public input", limit) {
            Ok(_) => {},
            Err(e) => {
                assert(!accepted_decimal(inputs@[i as int]@, public_input_bound(i as int)));
                return Err(e);
            },
        }
        i += 1;
    }
    Ok(())
}

/// The legacy statement is the start of the request-bound one: whenever six
/// public signals are accepted for the request-bound key, their first four
/// are accepted for the legacy key.
pub proof fn lemma_legacy_signals_are_a_prefix(inputs: Seq<String>)
    requires
        spec_validate_public_inputs(inputs, true) is Ok,
    ensures
        spec_validate_public_inputs(inputs.take(4), false) is Ok,
{
    let prefix = inputs.take(4);
    assert forall|i: int| 0 <= i < prefix.len() implies accepted_decimal(
        (#[trigger] prefix[i])@,
        public_input_bound(i),
    ) by {
        assert(prefix[i] == inputs[i]);
    }
}

/// A canonical decimal text below the number that the decimal text `limit`
/// denotes.
pub open spec fn canonical_below(t: Seq<char>, limit: Seq<char>) -> bool {
    canonical_decimal(t) && decimal_value(t) < decimal_value(limit)
}

/// What each circuit input is read as: the two fingerprints as bit arrays,
/// the salts and commitments as elements of the BN254 scalar field (below
/// 21888242871839275222246405745257275088548364400416034343698204186575808495617),
/// the threshold and minimum distance as numbers below 512, and the request
/// digest limbs as numbers below 2^128 = 340282366920938463463374607431768211456.
/// The circuit has exactly these inputs, and the request digest limbs only
/// for the request-bound key.
pub proof fn lemma_circuit_input_kinds(bound: bool)
    ensures
        circuit_fields(bound).len() == if bound {
            10int
        } else {
            8int
        },
        forall|i: int|
            0 <= i < circuit_fields(bound).len() ==> {
                let name = (#[trigger] circuit_fields(bound)[i]).0;
                let kind = circuit_fields(bound)[i].1;
                &&& (name == "ft_new"@ || name == "ft_prev"@) ==> kind == InputKind::Fingerprint
                &&& (name == "salt_new"@ || name == "salt_prev"@ || name == "commitment_new"@
                    || name == "commitment_prev"@) ==> (kind matches InputKind::Scalar(b)
                    && bound_text(b)
                    == "21888242871839275222246405745257275088548364400416034343698204186575808495617"@)
                &&& (name == "threshold"@ || name == "min_distance"@) ==> (kind matches InputKind::Scalar(
                    b,
                ) && bound_text(b) == "512"@)
                &&& (name == "request_digest_hi"@ || name == "request_digest_lo"@) ==> (
                kind matches InputKind::Scalar(b) && bound_text(b)
                    == "340282366920938463463374607431768211456"@)
            },
        exists|i: int| 0 <= i < circuit_fields(bound).len() && #[trigger] circuit_fields(bound)[i].0 == "ft_new"@,
        exists|i: int| 0 <= i < circuit_fields(bound).len() && #[trigger] circuit_fields(bound)[i].0 == "ft_prev"@,
        exists|i: int| 0 <= i < circuit_fields(bound).len() && #[trigger] circuit_fields(bound)[i].0 == "salt_new"@,
        exists|i: int| 0 <= i < circuit_fields(bound).len() && #[trigger] circuit_fields(bound)[i].0 == "salt_prev"@,
        exists|i: int| 0 <= i < circuit_fields(bound).len() && #[trigger] circuit_fields(bound)[i].0 == "commitment_new"@,
        exists|i: int| 0 <= i < circuit_fields(bound).len() && #[trigger] circuit_fields(bound)[i].0 == "commitment_prev"@,
        exists|i: int| 0 <= i < circuit_fields(bound).len() && #[trigger] circuit_fields(bound)[i].0 == "threshold"@,
        exists|i: int| 0 <= i < circuit_fields(bound).len() && #[trigger] circuit_fields(bound)[i].0 == "min_distance"@,
        bound ==> exists|i: int| 0 <= i < circuit_fields(bound).len() && #[trigger] circuit_fields(bound)[i].0 == "request_digest_hi"@,
        bound ==> exists|i: int| 0 <= i < circuit_fields(bound).len() && #[trigger] circuit_fields(bound)[i].0 == "request_digest_lo"@,
{
    lemma_circuit_field_names_distinct(bound);
    let f = circuit_fields(bound);
    assert(f[0].0 == "ft_new"@);
    assert(f[1].0 == "ft_prev"@);
    assert(f[2].0 == "salt_new"@);
    assert(f[3].0 == "salt_prev"@);
    assert(f[4].0 == "commitment_new"@);
    assert(f[5].0 == "commitment_prev"@);
    assert(f[6].0 == "threshold"@);
    assert(f[7].0 == "min_distance"@);
    if bound {
        assert(f[8].0 == "request_digest_hi"@);
        assert(f[9].0 == "request_digest_lo"@);
    }
    assert forall|i: int|
        0 <= i < f.len() implies {
            let name = (#[trigger] f[i]).0;
            let kind = f[i].1;
            &&& (name == "ft_new"@ || name == "ft_prev"@) ==> kind == InputKind::Fingerprint
            &&& (name == "salt_new"@ || name == "salt_prev"@ || name == "commitment_new"@
                || name == "commitment_prev"@) ==> (kind matches InputKind::Scalar(b)
                && bound_text(b)
                == "21888242871839275222246405745257275088548364400416034343698204186575808495617"@)
            &&& (name == "threshold"@ || name == "min_distance"@) ==> (kind matches InputKind::Scalar(b)
                && bound_text(b) == "512"@)
            &&& (name == "request_digest_hi"@ || name == "request_digest_lo"@) ==> (
            kind matches InputKind::Scalar(b) && bound_text(b)
                == "340282366920938463463374607431768211456"@)
        } by {
        let names = seq![
            "ft_new"@,
            "ft_prev"@,
            "salt_new"@,
            "salt_prev"@,
            "commitment_new"@,
            "commitment_prev"@,
            "threshold"@,
            "min_distance"@,
            "request_digest_hi"@,
            "request_digest_lo"@,
        ];
        assert forall|k: int| 0 <= k < f.len() && k != i implies f[i].0 != #[trigger] names[k] by {
            assert(names[k] == f[k].0);
            if i < k {
                assert(f[i].0 != f[k].0);
            } else {
                assert(f[k].0 != f[i].0);
            }
        }
        if !bound {
            assert(f[i].0 != names[8]) by {
                reveal_strlit("request_digest_hi");
                reveal_strlit("ft_new");
                reveal_strlit("ft_prev");
                reveal_strlit("salt_new");
                reveal_strlit("salt_prev");
                reveal_strlit("commitment_new");
                reveal_strlit("commitment_prev");
                reveal_strlit("threshold");
                reveal_strlit("min_distance");
                assert(names[8].len() == 17);
            }
            assert(f[i].0 != names[9]) by {
                reveal_strlit("request_digest_lo");
                reveal_strlit("ft_new");
                reveal_strlit("ft_prev");
                reveal_strlit("salt_new");
                reveal_strlit("salt_prev");
                reveal_strlit("commitment_new");
                reveal_strlit("commitment_prev");
                reveal_strlit("threshold");
                reveal_strlit("min_distance");
                assert(names[9].len() == 17);
            }
        }
        assert(f[i].0 == names[i]);
        assert(f[i].0 != names[0] || i == 0);
        assert(f[i].0 != names[1] || i == 1);
        assert(f[i].0 != names[2] || i == 2);
        assert(f[i].0 != names[3] || i == 3);
        assert(f[i].0 != names[4] || i == 4);
        assert(f[i].0 != names[5] || i == 5);
        assert(f[i].0 != names[6] || i == 6);
        assert(f[i].0 != names[7] || i == 7);
    }
}

/// What the public signals of a proof must be: four of them (six for the
/// request-bound key), the first two canonical elements of the BN254 scalar
/// field, the next two canonical numbers below 512, and the request digest
/// limbs canonical numbers below 2^128. Exactly such signals are accepted.
pub proof fn lemma_public_signals_accepted(inputs: Seq<String>, bound: bool)
    ensures
        spec_validate_public_inputs(inputs, bound) is Ok <==> {
            &&& inputs.len() == if bound {
                6int
            } else {
                4int
            }
            &&& forall|i: int|
                0 <= i < 2 ==> canonical_below(
                    (#[trigger] inputs[i])@,
                    "21888242871839275222246405745257275088548364400416034343698204186575808495617"@,
                )
            &&& forall|i: int| 2 <= i < 4 ==> canonical_below((#[trigger] inputs[i])@, "512"@)
            &&& forall|i: int|
                4 <= i < inputs.len() ==> canonical_below(
                    (#[trigger] inputs[i])@,
                    "340282366920938463463374607431768211456"@,
                )
        },
{
}

/// A fingerprint bit as a client may send it: the string `0` or `1`, or the
/// unsigned integer 0 or 1; `one` tells which.
pub open spec fn is_bit_input(v: Json, one: bool) -> bool {
    ||| v matches Json::Str(s) && s@ == (if one {
        "1"@
    } else {
        "0"@
    })
    ||| v == Json::Number(Some(if one {
        1u64
    } else {
        0u64
    }))
}

/// A fingerprint is accepted exactly when it is an array of 256 bits, and it
/// normalizes to 256 strings `0`/`1` that keep each bit and its position.
pub proof fn lemma_fingerprint_bits(v: Json)
    ensures
        spec_fingerprint(v) is Some <==> (v matches Json::Array(items) && items@.len() == 256
            && forall|i: int|
            0 <= i < 256 ==> is_bit_input(#[trigger] items@[i], false) || is_bit_input(
                items@[i],
                true,
            )),
        spec_fingerprint(v) matches Some(bits) ==> (v matches Json::Array(items) && bits.len() == 256
            && forall|i: int|
            0 <= i < 256 ==> (#[trigger] bits[i] == "1"@ && is_bit_input(items@[i], true)) || (
            bits[i] == "0"@ && is_bit_input(items@[i], false))),
{
    if let Json::Array(items) = v {
        assert forall|i: int| 0 <= i < items@.len() implies ((#[trigger] fingerprint_bit(items@[i])) is Some
            <==> (is_bit_input(items@[i], false) || is_bit_input(items@[i], true))) by {
            lemma_fingerprint_bit_text(items@[i]);
        }
        if items@.len() == 256 && forall|i: int|
            0 <= i < 256 ==> is_bit_input(#[trigger] items@[i], false) || is_bit_input(items@[i], true) {
            assert forall|i: int| 0 <= i < items@.len() implies (#[trigger] fingerprint_bit(items@[i])) is Some by {
                assert(is_bit_input(items@[i], false) || is_bit_input(items@[i], true));
            }
        }
        if spec_fingerprint(v) is Some {
            assert forall|i: int| 0 <= i < 256 implies is_bit_input(#[trigger] items@[i], false) || is_bit_input(items@[i], true) by {
                assert(fingerprint_bit(items@[i]) is Some);
            }
            let bits = spec_fingerprint(v)->Some_0;
            assert forall|i: int| 0 <= i < 256 implies (#[trigger] bits[i] == "1"@ && is_bit_input(
                items@[i],
                true,
            )) || (bits[i] == "0"@ && is_bit_input(items@[i], false)) by {
                assert(bits[i] == fingerprint_bit(items@[i]).unwrap());
            }
        }
    }
}

/// A scalar input is accepted exactly when it is a string, or an array
/// holding a single string, whose text is the decimal text of a number below
/// the bound; it normalizes to that text.
pub proof fn lemma_scalar_input(v: Json, b: InputBound)
    ensures
        spec_decimal(v, b) is Some <==> {
            ||| v matches Json::Str(s) && accepted_decimal(s@, b)
            ||| v matches Json::Array(items) && items@.len() == 1 && (items@[0] matches Json::Str(s)
                && accepted_decimal(s@, b))
        },
        spec_decimal(v, b) matches Some(t) ==> {
            &&& t == decimal_text(decimal_value(t))
            &&& decimal_value(t) < decimal_value(bound_text(b))
            &&& (v matches Json::Str(s) && s@ == t) || (v matches Json::Array(items) && items@[0] matches Json::Str(
                s,
            ) && s@ == t)
        },
{
    if spec_decimal(v, b) is Some {
        lemma_accepted_decimal_texts(spec_decimal(v, b)->Some_0, b);
    }
}

/// The texts accepted for a bound are exactly the shortest decimal texts of
/// the numbers below it.
pub proof fn lemma_accepted_decimal_texts(t: Seq<char>, b: InputBound)
    ensures
        accepted_decimal(t, b) <==> (t == decimal_text(decimal_value(t)) && decimal_value(t)
            < decimal_value(bound_text(b))),
{
    lemma_canonical_decimal_is_decimal_text(t);
    reveal_strlit("21888242871839275222246405745257275088548364400416034343698204186575808495617");
    reveal_strlit("512");
    reveal_strlit("340282366920938463463374607431768211456");
    lemma_bound_text_digits(b);
    lemma_decimal_bounds(bound_text(b));
    lemma_pow10_monotone(bound_text(b).len(), 78);
}

/// Normalization succeeds exactly on an object with as many members as the
/// circuit has inputs, each input present and well formed.
pub proof fn lemma_normalize_accepts_exactly(v: Json, bound: bool)
    ensures
        spec_normalize_value(v, bound) is Ok <==> (v matches Json::Object(members) && members@.len()
            == circuit_fields(bound).len() && forall|i: int|
            0 <= i < circuit_fields(bound).len() ==> normalize_field(
                members@,
                (#[trigger] circuit_fields(bound)[i]).0,
                circuit_fields(bound)[i].1,
            ) is Some),
{
    if let Json::Object(members) = v {
        let cf = circuit_fields(bound);
        if members@.len() == cf.len() && forall|i: int|
            0 <= i < cf.len() ==> normalize_field(members@, (#[trigger] cf[i]).0, cf[i].1) is Some {
            let out = Seq::new(cf.len(), |i: int| (cf[i].0, normalize_field(members@, cf[i].0, cf[i].1)->Some_0));
            lemma_normalize_fields_pointwise(members@, cf, out);
            assert forall|i: int| 0 <= i < cf.len() implies (#[trigger] out[i]).0 == cf[i].0 && normalize_field(
                members@,
                cf[i].0,
                cf[i].1,
            ) == Some(out[i].1) by {
                assert(normalize_field(members@, cf[i].0, cf[i].1) is Some);
            }
        }
        if spec_normalize_value(v, bound) is Ok {
            let out = spec_normalize_value(v, bound)->Ok_0;
            lemma_normalize_fields_pointwise(members@, cf, out);
            assert forall|i: int| 0 <= i < cf.len() implies normalize_field(
                members@,
                (#[trigger] cf[i]).0,
                cf[i].1,
            ) is Some by {
                assert(out[i].0 == cf[i].0);
            }
        }
    }
}

/// The order of the BN254 scalar field, as a number.
pub open spec fn scalar_field_order() -> nat {
    decimal_value(bound_text(InputBound::ScalarField))
}

/// No bound exceeds the order of the scalar field.
pub proof fn lemma_bounds_within_scalar_field(b: InputBound)
    ensures
        decimal_value(bound_text(b)) <= scalar_field_order(),
{
    reveal_strlit("21888242871839275222246405745257275088548364400416034343698204186575808495617");
    reveal_strlit("512");
    reveal_strlit("340282366920938463463374607431768211456");
    lemma_bound_text_digits(b);
    lemma_bound_text_digits(InputBound::ScalarField);
    let f = bound_text(InputBound::ScalarField);
    let t = bound_text(b);
    lemma_decimal_bounds(t);
    lemma_decimal_bounds(f);
    if b != InputBound::ScalarField {
        assert(t.len() <= 39);
        assert(f.len() == 77);
        assert(f[0] == '2');
        lemma_pow10_monotone(t.len(), (f.len() - 1) as nat);
    }
}

/// Accepted inputs cannot be aliased: two texts accepted for the same bound
/// that are congruent modulo the order of the scalar field are the same text.
pub proof fn lemma_accepted_decimal_unaliased(a: Seq<char>, b: Seq<char>, limit: InputBound)
    requires
        accepted_decimal(a, limit),
        accepted_decimal(b, limit),
        decimal_value(a) % scalar_field_order() == decimal_value(b) % scalar_field_order(),
    ensures
        a == b,
{
    lemma_bounds_within_scalar_field(limit);
    lemma_small_mod(decimal_value(a), scalar_field_order());
    lemma_small_mod(decimal_value(b), scalar_field_order());
    lemma_canonical_decimal_unique(a, b);
}

} // verus!
