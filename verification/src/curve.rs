//! Membership of BN254 points in the proof groups, decided by `ark-bn254`.

use crate::decimal::{canonical_decimal, decimal_value};
use num_bigint::BigUint;
use vstd::prelude::*;

verus! {

/// The decimal text of the BN254 base field modulus.
pub open spec fn base_field_text() -> Seq<char> {
    "21888242871839275222246405745257275088696311157297823662689037894645226208583"@
}

/// Returns the decimal text of the BN254 base field modulus.
pub fn base_field_decimal() -> (r: &'static str)
    ensures
        r@ == base_field_text(),
{
    "21888242871839275222246405745257275088696311157297823662689037894645226208583"
}

/// The BN254 base field modulus, as a number.
pub open spec fn base_field_order() -> nat {
    decimal_value(base_field_text())
}

/// A coordinate text names an element of the base field: canonical decimal
/// and below the modulus.
pub open spec fn coordinate_ok(s: Seq<char>) -> bool {
    canonical_decimal(s) && decimal_value(s) < base_field_order()
}

/// The G1 curve equation y^2 = x^3 + 3 over the base field.
pub open spec fn g1_curve_equation(x: int, y: int) -> bool {
    (y * y - x * x * x - 3) % (base_field_order() as int) == 0
}

/// First coefficient of the G2 curve constant 3 / (9 + u).
pub open spec fn g2_coeff_b0() -> int {
    19485874751759354771024239261021720505790618469301721065564631296452457478373int
}

/// Second coefficient of the G2 curve constant 3 / (9 + u).
pub open spec fn g2_coeff_b1() -> int {
    266929791119991161246907387137283842545076965332900288569378510910307636690int
}

/// The G2 curve equation y^2 = x^3 + 3 / (9 + u) over the quadratic extension
/// of the base field with u^2 = -1, for x = x0 + x1 u and y = y0 + y1 u.
pub open spec fn g2_curve_equation(x0: int, x1: int, y0: int, y1: int) -> bool {
    let m = base_field_order() as int;
    let xx0 = x0 * x0 - x1 * x1;
    let xx1 = 2 * x0 * x1;
    let xxx0 = xx0 * x0 - xx1 * x1;
    let xxx1 = xx0 * x1 + xx1 * x0;
    let yy0 = y0 * y0 - y1 * y1;
    let yy1 = 2 * y0 * y1;
    &&& (yy0 - xxx0 - g2_coeff_b0()) % m == 0
    &&& (yy1 - xxx1 - g2_coeff_b1()) % m == 0
}

/// What `ark_bn254::G2Affine::is_in_correct_subgroup_assuming_on_curve`
/// answers for the affine point with coordinates (x0 + x1 u, y0 + y1 u).
pub uninterp spec fn g2_in_subgroup(x0: Seq<char>, x1: Seq<char>, y0: Seq<char>, y1: Seq<char>) -> bool;

/// Builds `ark_bn254::G1Affine::new_unchecked` from the two coordinates
/// (parsed by `num_bigint::BigUint`, converted by `From<BigUint> for Fq`) and
/// answers `is_on_curve() && is_in_correct_subgroup_assuming_on_curve()`. In
/// ark-bn254 the G1 subgroup check answers `true` (the cofactor is one), and
/// `is_on_curve` checks y^2 = x^3 + 3 in the base field.
#[verifier::external_body]
pub(crate) fn g1_affine_valid(x: &str, y: &str) -> (r: bool)
    requires
        coordinate_ok(x@),
        coordinate_ok(y@),
    ensures
        r == g1_curve_equation(decimal_value(x@) as int, decimal_value(y@) as int),
{
    let x = ark_bn254::Fq::from(BigUint::parse_bytes(x.as_bytes(), 10).unwrap_or_default());
    let y = ark_bn254::Fq::from(BigUint::parse_bytes(y.as_bytes(), 10).unwrap_or_default());
    let point = ark_bn254::G1Affine::new_unchecked(x, y);
    point.is_on_curve() && point.is_in_correct_subgroup_assuming_on_curve()
}

/// `ark_bn254::G1Affine::identity()` checked with `is_on_curve() &&
/// is_in_correct_subgroup_assuming_on_curve()`: ark-ec answers `true` to the
/// first for the point at infinity, and ark-bn254 answers `true` to the second
/// for every G1 point.
#[verifier::external_body]
pub(crate) fn g1_identity_valid() -> (r: bool)
    ensures
        r,
{
    let point = ark_bn254::G1Affine::identity();
    point.is_on_curve() && point.is_in_correct_subgroup_assuming_on_curve()
}

/// Builds `ark_bn254::G2Affine::new_unchecked` from `Fq2::new(x0, x1)` and
/// `Fq2::new(y0, y1)` (coordinates parsed by `num_bigint::BigUint`, converted
/// by `From<BigUint> for Fq`) and answers `is_on_curve() &&
/// is_in_correct_subgroup_assuming_on_curve()`. `is_on_curve` checks
/// y^2 = x^3 + 3 / (9 + u) in the extension field; the subgroup check is
/// ark-bn254's endomorphism test, named [`g2_in_subgroup`].
#[verifier::external_body]
pub(crate) fn g2_affine_valid(x0: &str, x1: &str, y0: &str, y1: &str) -> (r: bool)
    requires
        coordinate_ok(x0@),
        coordinate_ok(x1@),
        coordinate_ok(y0@),
        coordinate_ok(y1@),
    ensures
        r == (g2_curve_equation(
            decimal_value(x0@) as int,
            decimal_value(x1@) as int,
            decimal_value(y0@) as int,
            decimal_value(y1@) as int,
        ) && g2_in_subgroup(x0@, x1@, y0@, y1@)),
{
    let x = ark_bn254::Fq2::new(
        ark_bn254::Fq::from(BigUint::parse_bytes(x0.as_bytes(), 10).unwrap_or_default()),
        ark_bn254::Fq::from(BigUint::parse_bytes(x1.as_bytes(), 10).unwrap_or_default()),
    );
    let y = ark_bn254::Fq2::new(
        ark_bn254::Fq::from(BigUint::parse_bytes(y0.as_bytes(), 10).unwrap_or_default()),
        ark_bn254::Fq::from(BigUint::parse_bytes(y1.as_bytes(), 10).unwrap_or_default()),
    );
    let point = ark_bn254::G2Affine::new_unchecked(x, y);
    point.is_on_curve() && point.is_in_correct_subgroup_assuming_on_curve()
}

/// `ark_bn254::G2Affine::identity()` checked with `is_on_curve() &&
/// is_in_correct_subgroup_assuming_on_curve()`: ark-ec answers `true` to the
/// first for the point at infinity, and the endomorphism test compares two
/// points at infinity, which ark-ec finds equal.
#[verifier::external_body]
pub(crate) fn g2_identity_valid() -> (r: bool)
    ensures
        r,
{
    let point = ark_bn254::G2Affine::identity();
    point.is_on_curve() && point.is_in_correct_subgroup_assuming_on_curve()
}

} // verus!
