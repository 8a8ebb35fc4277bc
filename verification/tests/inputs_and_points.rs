use entros_mopro::circom::parse_bigint;
use entros_mopro::inputs::{normalize, validate_public_inputs};
use entros_mopro::{mopro_hello_world, G1, G2};
use serde_json::Value;

const SCALAR_MODULUS: &str =
    "21888242871839275222246405745257275088548364400416034343698204186575808495617";

fn valid() -> Value {
    let mut object = serde_json::Map::new();
    object.insert("ft_new".to_owned(), Value::Array(vec![Value::from(0); 256]));
    object.insert("ft_prev".to_owned(), Value::Array(vec![Value::from(1); 256]));
    for (name, value) in [
        ("salt_new", "1"),
        ("salt_prev", "2"),
        ("commitment_new", "3"),
        ("commitment_prev", "4"),
        ("threshold", "30"),
        ("min_distance", "3"),
        ("request_digest_hi", "5"),
        ("request_digest_lo", "6"),
    ] {
        object.insert(name.to_owned(), Value::from(value));
    }
    Value::Object(object)
}

#[test]
fn test_mopro_hello_world() {
    assert_eq!(mopro_hello_world(), "Hello, World!");
}

#[test]
fn rejects_noncanonical_curve_coordinates() {
    for value in [
        "",
        "-1",
        "+1",
        "01",
        " 1",
        "1 ",
        "1.0",
        "21888242871839275222246405745257275088696311157297823662689037894645226208583",
    ] {
        assert!(parse_bigint(value, "test").is_err(), "{value}");
    }
    assert!(parse_bigint(&"9".repeat(10000), "test").is_err());
}

#[test]
fn validates_curve_points_before_dependency_conversion() {
    assert!(G1 {
        x: "1".into(),
        y: "2".into(),
        z: "1".into()
    }
    .validate()
    .is_ok());
    for (x, y, z) in [("1", "1", "1"), ("1", "2", "2"), ("0", "0", "1")] {
        assert!(G1 {
            x: x.into(),
            y: y.into(),
            z: z.into()
        }
        .validate()
        .is_err());
    }
    assert!(G1 {
        x: "0".into(),
        y: "0".into(),
        z: "0".into()
    }
    .validate()
    .is_ok());
    assert!(G2 {
        x: vec!["1".into(), "1".into()],
        y: vec!["1".into(), "1".into()],
        z: vec!["1".into(), "0".into()],
    }
    .validate()
    .is_err());
}

#[test]
fn normalizes_mobile_values_without_dropping_inputs() {
    let parsed: Value = serde_json::from_str(&normalize(&valid().to_string(), true).unwrap()).unwrap();
    assert_eq!(parsed["ft_new"][0], "0");
    assert_eq!(parsed["ft_prev"][255], "1");
    assert_eq!(parsed["commitment_new"], Value::Array(vec![Value::from("3")]));
    assert_eq!(parsed["request_digest_hi"], Value::Array(vec![Value::from("5")]));
    assert_eq!(normalize(&parsed.to_string(), true).unwrap(), parsed.to_string());
}

#[test]
fn rejects_noncanonical_and_out_of_range_inputs() {
    for (name, value) in [
        ("commitment_new", Value::from(SCALAR_MODULUS)),
        ("salt_new", Value::from("-1")),
        ("salt_new", Value::from("01")),
        ("salt_new", Value::from(1)),
        ("threshold", Value::from("512")),
        (
            "request_digest_hi",
            Value::from("340282366920938463463374607431768211456"),
        ),
        (
            "request_digest_lo",
            Value::Array(vec![Value::from("1"), Value::from("2")]),
        ),
        ("ft_new", Value::Array(vec![Value::from(0), Value::from(1)])),
        ("ft_prev", Value::Array(vec![Value::from(2); 256])),
    ] {
        let mut input = valid();
        input[name] = value;
        assert!(normalize(&input.to_string(), true).is_err(), "{name}");
    }
    assert!(normalize(&valid().to_string(), false).is_err());
    assert!(normalize("invalid", true).is_err());
}

#[test]
fn rejects_aliased_or_malformed_public_statements() {
    let valid = ["1", "2", "30", "3", "0", "0"].map(str::to_owned);
    assert!(validate_public_inputs(&valid, true).is_ok());
    assert!(validate_public_inputs(&valid[..4], false).is_ok());
    assert!(validate_public_inputs(&valid[..5], true).is_err());
    for (index, value) in [
        (
            0,
            "21888242871839275222246405745257275088548364400416034343698204186575808495617",
        ),
        (1, "01"),
        (2, "512"),
        (3, "-1"),
        (4, "340282366920938463463374607431768211456"),
        (5, "+1"),
    ] {
        let mut changed = valid.clone();
        changed[index] = value.to_owned();
        assert!(validate_public_inputs(&changed, true).is_err());
    }
}
