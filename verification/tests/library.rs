use entros_mopro::circom::{parse_bigint, parse_g2_coord};
use entros_mopro::decimal::is_canonical_decimal;
use entros_mopro::inputs::{decimal, fingerprint, invalid, normalize, normalize_value, InputBound};
use entros_mopro::json::{json_get, Json};
use entros_mopro::key::{check_key_identity, expected_key_digest, is_bound_key, ProvingKeyDigests};
use entros_mopro::prover::{
    accept_generated_proof, check_proof_curve, find_circuit, prepare_proof_inputs,
    prepare_verification,
};
use entros_mopro::decimal::usize_to_decimal;
use entros_mopro::{
    mopro_wasm_hello_world, CircomProof, CircomProofResult, MoproError, ProofLib, G1, G2,
};
use serde_json::Value;

const BASE_MODULUS: &str =
    "21888242871839275222246405745257275088696311157297823662689037894645226208583";
const SCALAR_MODULUS: &str =
    "21888242871839275222246405745257275088548364400416034343698204186575808495617";
const SCALAR_MODULUS_MINUS_ONE: &str =
    "21888242871839275222246405745257275088548364400416034343698204186575808495616";

fn message(result: Result<impl std::fmt::Debug, MoproError>) -> String {
    match result {
        Err(MoproError::CircomError(m)) => m,
        Ok(value) => panic!("expected an error, got {value:?}"),
    }
}

fn legacy_input() -> Value {
    let mut object = serde_json::Map::new();
    let mut current = vec![Value::from(0); 256];
    for bit in current.iter_mut().take(10) {
        *bit = Value::from(1);
    }
    object.insert("ft_new".to_owned(), Value::Array(current));
    object.insert("ft_prev".to_owned(), Value::Array(vec![Value::from("0"); 256]));
    for (name, value) in [
        ("salt_new", "1"),
        ("salt_prev", "2"),
        ("commitment_new", "3"),
        ("commitment_prev", "4"),
        ("threshold", "30"),
        ("min_distance", "3"),
    ] {
        object.insert(name.to_owned(), Value::Array(vec![Value::from(value)]));
    }
    Value::Object(object)
}

fn g2_generator() -> G2 {
    G2 {
        x: vec![
            "10857046999023057135944570762232829481370756359578518086990519993285655852781".into(),
            "11559732032986387107991004021392285783925812861821192530917403151452391805634".into(),
        ],
        y: vec![
            "8495653923123431417604973247489272438418190587263600148770280649306958101930".into(),
            "4082367875863433681332203403145435568316851327593401208105741076214120093531".into(),
        ],
        z: vec!["1".into(), "0".into()],
    }
}

fn valid_proof() -> CircomProof {
    CircomProof {
        a: G1 { x: "1".into(), y: "2".into(), z: "1".into() },
        b: g2_generator(),
        c: G1 { x: "0".into(), y: "0".into(), z: "0".into() },
        protocol: "groth16".into(),
        curve: "bn128".into(),
    }
}

#[test]
fn wasm_greeting_matches_native_greeting() {
    assert_eq!(mopro_wasm_hello_world(), "Hello, World!");
}

#[test]
fn canonical_decimal_texts() {
    for text in ["0", "7", "10", "512", BASE_MODULUS] {
        assert!(is_canonical_decimal(text), "{text}");
    }
    for text in ["", "00", "01", "-1", "+1", "1_0", "١", "9".repeat(79).as_str()] {
        assert!(!is_canonical_decimal(text), "{text}");
    }
    assert!(is_canonical_decimal(&"9".repeat(78)));
}

#[test]
fn coordinate_errors_name_the_coordinate() {
    assert_eq!(message(parse_bigint("01", "G1.x")), "Noncanonical coordinate at G1.x");
    assert_eq!(
        message(parse_bigint(BASE_MODULUS, "G1.y")),
        "Coordinate outside the base field at G1.y"
    );
    let below = "21888242871839275222246405745257275088696311157297823662689037894645226208582";
    assert_eq!(parse_bigint(below, "G1.z").unwrap(), below);
}

#[test]
fn g2_coordinates_come_in_pairs() {
    let three = vec!["1".to_owned(), "2".to_owned(), "3".to_owned()];
    assert_eq!(message(parse_g2_coord(&three, "x")), "G2.x expected 2 elements, got 3");
    let pair = vec!["1".to_owned(), "01".to_owned()];
    assert_eq!(message(parse_g2_coord(&pair, "y")), "Noncanonical coordinate at G2.y[1]");
    assert!(parse_g2_coord(&pair[..1], "z").is_err());
    assert!(parse_g2_coord(&["4".to_owned(), "5".to_owned()], "z").is_ok());
}

#[test]
fn g1_points_are_affine_and_on_the_curve() {
    let wrong_z = G1 { x: "1".into(), y: "2".into(), z: "2".into() };
    assert_eq!(message(wrong_z.validate()), "Expected an affine G1 point");
    let off_curve = G1 { x: "1".into(), y: "1".into(), z: "1".into() };
    assert_eq!(message(off_curve.validate()), "Invalid G1 curve point");
    let negated = G1 {
        x: "1".into(),
        y: "21888242871839275222246405745257275088696311157297823662689037894645226208581".into(),
        z: "1".into(),
    };
    assert!(negated.validate().is_ok());
}

#[test]
fn g2_points_are_affine_and_on_the_curve() {
    assert!(g2_generator().validate().is_ok());
    let infinity = G2 {
        x: vec!["0".into(), "0".into()],
        y: vec!["0".into(), "0".into()],
        z: vec!["0".into(), "0".into()],
    };
    assert!(infinity.validate().is_ok());
    let mut projective = g2_generator();
    projective.z = vec!["1".into(), "1".into()];
    assert_eq!(message(projective.validate()), "Expected an affine G2 point");
    let mut off_curve = g2_generator();
    off_curve.y[0] = "1".into();
    assert_eq!(message(off_curve.validate()), "Invalid G2 curve point");
}

#[test]
fn proofs_must_be_bn254_groth16() {
    assert!(valid_proof().validate().is_ok());
    let mut plonk = valid_proof();
    plonk.protocol = "plonk".into();
    assert_eq!(message(plonk.validate()), "Expected a BN254 Groth16 proof");
    let mut bls = valid_proof();
    bls.curve = "bls12381".into();
    assert_eq!(message(bls.validate()), "Expected a BN254 Groth16 proof");
    let mut aliased = valid_proof();
    aliased.c.x = BASE_MODULUS.into();
    assert_eq!(
        message(aliased.validate()),
        "Coordinate outside the base field at G1.x"
    );
}

#[test]
fn scalar_inputs_are_canonical_and_bounded() {
    let text = |t: &str| Json::Str(t.to_owned());
    assert_eq!(
        decimal(&text(SCALAR_MODULUS_MINUS_ONE), "salt", InputBound::ScalarField).unwrap(),
        SCALAR_MODULUS_MINUS_ONE
    );
    assert_eq!(
        message(decimal(&text(SCALAR_MODULUS), "salt", InputBound::ScalarField)),
        "Invalid circuit input: salt"
    );
    assert_eq!(decimal(&text("511"), "t", InputBound::DistanceBits).unwrap(), "511");
    assert!(decimal(&text("512"), "t", InputBound::DistanceBits).is_err());
    let wrapped = Json::Array(vec![text("340282366920938463463374607431768211455")]);
    assert_eq!(
        decimal(&wrapped, "hi", InputBound::DigestLimb).unwrap(),
        "340282366920938463463374607431768211455"
    );
    assert!(decimal(&Json::Number(Some(3)), "t", InputBound::DistanceBits).is_err());
    assert!(decimal(&Json::Array(vec![]), "t", InputBound::DistanceBits).is_err());
}

#[test]
fn fingerprints_are_normalized_to_strings() {
    let bits = || -> Vec<Json> {
        let mut bits: Vec<Json> = (0..256).map(|_| Json::Number(Some(1))).collect();
        bits[1] = Json::Str("0".to_owned());
        bits
    };
    let out = fingerprint(&Json::Array(bits()), "ft").unwrap();
    assert_eq!(out.len(), 256);
    assert_eq!(out[0], "1");
    assert_eq!(out[1], "0");
    let mut bad = bits();
    bad[2] = Json::Number(None);
    assert_eq!(message(fingerprint(&Json::Array(bad), "ft")), "Invalid circuit input: ft");
}

#[test]
fn normalization_reports_the_first_bad_input() {
    assert_eq!(message(normalize("[1]", false)), "Invalid circuit input: object");
    assert_eq!(message(normalize("{", false)), "Invalid circuit input: JSON");
    assert_eq!(message(normalize("{\"a\":1}", false)), "Invalid circuit input: field count");
    assert_eq!(message(normalize("{\"a\":1}}", false)), "Invalid circuit input: JSON");
    let mut numeric = legacy_input();
    numeric["ft_prev"][3] = Value::from(1.0);
    assert_eq!(message(normalize(&numeric.to_string(), false)), "Invalid circuit input: ft_prev");
    let mut input = legacy_input();
    input["salt_prev"] = Value::from("01");
    input["threshold"] = Value::from("512");
    assert_eq!(message(normalize(&input.to_string(), false)), "Invalid circuit input: salt_prev");
    let mut renamed = legacy_input();
    let object = renamed.as_object_mut().unwrap();
    let value = object.remove("salt_new").unwrap();
    object.insert("salt".to_owned(), value);
    assert_eq!(message(normalize(&renamed.to_string(), false)), "Invalid circuit input: salt_new");
}

#[test]
fn normalized_inputs_normalize_to_themselves() {
    let once = normalize(&legacy_input().to_string(), false).unwrap();
    assert_eq!(normalize(&once, false).unwrap(), once);
    let parsed: Value = serde_json::from_str(&once).unwrap();
    assert_eq!(parsed["ft_new"][9], "1");
    assert_eq!(parsed["ft_new"][10], "0");
    assert_eq!(parsed["threshold"], Value::Array(vec![Value::from("30")]));
    let members: Vec<(String, Json)> = [
        ("min_distance", "3"),
        ("threshold", "30"),
        ("commitment_prev", "4"),
        ("commitment_new", "3"),
        ("salt_prev", "2"),
        ("salt_new", "1"),
    ]
    .into_iter()
    .map(|(name, value)| (name.to_owned(), Json::Str(value.to_owned())))
    .chain(["ft_prev", "ft_new"].into_iter().map(|name| {
        (name.to_owned(), Json::Array((0..256).map(|_| Json::Number(Some(0))).collect()))
    }))
    .collect();
    let fields = normalize_value(&Json::Object(members), false).unwrap();
    assert_eq!(fields.len(), 8);
    assert_eq!(fields[0].0, "ft_new");
    assert_eq!(fields[0].1[255], "0");
    assert_eq!(fields[7].0, "min_distance");
    assert_eq!(fields[7].1, vec!["3".to_owned()]);
}

#[test]
fn json_members_are_found_by_name() {
    let members = vec![
        (
            "b".to_owned(),
            Json::Array(vec![
                Json::Bool(true),
                Json::Null,
                Json::Number(Some(u64::MAX)),
                Json::Number(None),
            ]),
        ),
        ("a".to_owned(), Json::Str("x".to_owned())),
        ("a".to_owned(), Json::Str("y".to_owned())),
    ];
    let members = &members;
    match json_get(members, "a") {
        Some(Json::Str(s)) => assert_eq!(s, "x"),
        other => panic!("unexpected {other:?}"),
    }
    match json_get(members, "b") {
        Some(Json::Array(items)) => {
            assert!(matches!(items[0], Json::Bool(true)));
            assert!(matches!(items[1], Json::Null));
            assert!(matches!(items[2], Json::Number(Some(u64::MAX))));
            assert!(matches!(items[3], Json::Number(None)));
        },
        other => panic!("unexpected {other:?}"),
    }
    assert!(json_get(members, "c").is_none());
}

#[test]
fn invalid_names_the_input() {
    assert_eq!(message(Err::<(), _>(invalid("threshold"))), "Invalid circuit input: threshold");
}

#[test]
fn proving_keys_are_pinned_by_digest() {
    let digests = ProvingKeyDigests {
        legacy: "ba7816bf8f01cfea414140de5dae2223b00361a396177a9cb410ff61f20015ad".to_owned(),
        request_bound: None,
    };
    let expected = expected_key_digest(Some("entros_hamming_final.zkey"), &digests).unwrap();
    assert!(check_key_identity(b"abc", &expected).is_ok());
    assert_eq!(message(check_key_identity(b"abd", &expected)), "Proving key SHA-256 mismatch");
    assert!(check_key_identity(b"abc", &expected.to_uppercase()).is_err());
    assert_eq!(
        message(expected_key_digest(Some("entros_request_bound_v1_final.zkey"), &digests)),
        "Unknown proving artifact"
    );
    assert!(expected_key_digest(Some("other.zkey"), &digests).is_err());
    assert!(expected_key_digest(None, &digests).is_err());
    let bound = ProvingKeyDigests {
        legacy: String::new(),
        request_bound: Some("00".repeat(32)),
    };
    assert_eq!(
        expected_key_digest(Some("entros_request_bound_v1_final.zkey"), &bound).unwrap(),
        "00".repeat(32)
    );
    assert!(is_bound_key(Some("entros_request_bound_v1_final.zkey")));
    assert!(!is_bound_key(Some("entros_hamming_final.zkey")));
    assert!(!is_bound_key(None));
}

#[test]
fn generation_selects_the_registered_circuit() {
    let circuits = vec!["entros_hamming_final.zkey".to_owned()];
    assert_eq!(find_circuit(&circuits, "entros_hamming_final.zkey"), Some(0));
    assert_eq!(find_circuit(&circuits, "x"), None);
    let input = legacy_input().to_string();
    let (index, normalized) =
        prepare_proof_inputs(Some("entros_hamming_final.zkey"), &circuits, &input).unwrap();
    assert_eq!(index, 0);
    assert_eq!(normalized, normalize(&input, false).unwrap());
    assert_eq!(
        message(prepare_proof_inputs(None, &circuits, &input)),
        "failed to parse file name from zkey_path"
    );
    assert_eq!(
        message(prepare_proof_inputs(Some("other.zkey"), &circuits, &input)),
        "Unknown ZKEY: other.zkey"
    );
    let bound_circuits = vec![
        "entros_hamming_final.zkey".to_owned(),
        "entros_request_bound_v1_final.zkey".to_owned(),
    ];
    assert_eq!(
        message(prepare_proof_inputs(
            Some("entros_request_bound_v1_final.zkey"),
            &bound_circuits,
            &input
        )),
        "Invalid circuit input: field count"
    );
}

#[test]
fn generated_proofs_are_checked_before_returning() {
    assert!(check_proof_curve("bn128").is_ok());
    assert_eq!(message(check_proof_curve("bls12381")), "Unsupported curve: bls12381");
    let legacy = CircomProofResult {
        proof: valid_proof(),
        inputs: ["1", "2", "30", "3"].map(str::to_owned).to_vec(),
    };
    let name = Some("entros_hamming_final.zkey");
    assert!(accept_generated_proof(name, &legacy, true).is_ok());
    assert_eq!(
        message(accept_generated_proof(name, &legacy, false)),
        "Generated proof does not satisfy the circuit"
    );
    assert_eq!(
        message(accept_generated_proof(Some("entros_request_bound_v1_final.zkey"), &legacy, true)),
        "Invalid circuit input: public input count"
    );
    let mut bls = legacy.clone();
    bls.proof.curve = "bls12381".into();
    assert_eq!(message(accept_generated_proof(name, &bls, true)), "Unsupported curve: bls12381");
}

#[test]
fn verification_checks_the_statement_shape() {
    let legacy = CircomProofResult {
        proof: valid_proof(),
        inputs: ["1", "2", "30", "3"].map(str::to_owned).to_vec(),
    };
    assert!(prepare_verification(Some("entros_hamming_final.zkey"), &legacy).is_ok());
    assert_eq!(
        message(prepare_verification(Some("entros_request_bound_v1_final.zkey"), &legacy)),
        "Invalid circuit input: public input count"
    );
    let mut aliased = legacy.clone();
    aliased.inputs[0] = SCALAR_MODULUS.to_owned();
    assert_eq!(
        message(prepare_verification(Some("entros_hamming_final.zkey"), &aliased)),
        "Invalid circuit input: public input"
    );
    let mut bad_point = legacy;
    bad_point.proof.a.z = "2".into();
    assert_eq!(
        message(prepare_verification(Some("entros_hamming_final.zkey"), &bad_point)),
        "Expected an affine G1 point"
    );
}

#[test]
fn numbers_are_written_in_decimal() {
    assert_eq!(usize_to_decimal(0), "0");
    assert_eq!(usize_to_decimal(7), "7");
    assert_eq!(usize_to_decimal(10), "10");
    assert_eq!(usize_to_decimal(256), "256");
    assert_eq!(usize_to_decimal(usize::MAX), usize::MAX.to_string());
}

#[test]
fn normalized_text_reads_back_as_the_normalized_inputs() {
    let mut input = legacy_input();
    input["salt_new"] = Value::from("1");
    input["ft_prev"][0] = Value::from(1);
    let parsed: Value = serde_json::from_str(&normalize(&input.to_string(), false).unwrap()).unwrap();
    let object = parsed.as_object().unwrap();
    assert_eq!(object.len(), 8);
    assert_eq!(parsed["salt_new"], Value::Array(vec![Value::from("1")]));
    assert_eq!(parsed["ft_prev"][0], "1");
    assert_eq!(parsed["ft_prev"][1], "0");
    assert_eq!(parsed["ft_prev"].as_array().unwrap().len(), 256);
}

#[test]
fn defaults_are_empty() {
    assert!(matches!(ProofLib::default(), ProofLib::Arkworks));
    let proof = CircomProof::default();
    assert!(proof.a.x.is_empty() && proof.b.x.is_empty() && proof.curve.is_empty());
}
