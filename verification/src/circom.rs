//! The proof values that cross the binding boundary as decimal strings, and
//! their validation before they reach the prover.

use crate::curve::{
    base_field_decimal, base_field_order, base_field_text, coordinate_ok, g1_affine_valid,
    g1_curve_equation, g1_identity_valid, g2_affine_valid, g2_curve_equation, g2_identity_valid,
    g2_in_subgroup,
};
use crate::decimal::{
    all_digits, canonical_decimal, decimal_below, decimal_text, decimal_value,
    is_canonical_decimal, lemma_canonical_decimal_unique, usize_to_decimal,
    lemma_canonical_decimal_is_decimal_text, lemma_decimal_bounds, lemma_pow10_monotone,
};
use crate::error::MoproError;
use vstd::arithmetic::div_mod::lemma_small_mod;
use vstd::prelude::*;

verus! {

/// A proof together with the public signals it proves.
#[derive(Debug, Clone)]
pub struct CircomProofResult {
    pub proof: CircomProof,
    pub inputs: Vec<String>,
}

/// A G1 point in projective coordinates, each a decimal string.
#[derive(Debug, Clone)]
pub struct G1 {
    pub x: String,
    pub y: String,
    pub z: String,
}

/// A G2 point in projective coordinates, each a pair of decimal strings
/// (the two coefficients of an element of the quadratic extension).
#[derive(Debug, Clone)]
pub struct G2 {
    pub x: Vec<String>,
    pub y: Vec<String>,
    pub z: Vec<String>,
}

/// A Groth16 proof in the snarkjs layout.
#[derive(Debug, Clone)]
pub struct CircomProof {
    pub a: G1,
    pub b: G2,
    pub c: G1,
    pub protocol: String,
    pub curve: String,
}

/// The proving backend.
#[derive(Debug, Clone, Copy, PartialEq, Eq)]
pub enum ProofLib {
    Arkworks,
    Rapidsnark,
}

impl Default for ProofLib {
    fn default() -> (r: Self)
        ensures
            r == ProofLib::Arkworks,
    {
        ProofLib::Arkworks
    }
}

impl Default for G1 {
    fn default() -> (r: Self)
        ensures
            r.x@ == Seq::<char>::empty(),
            r.y@ == Seq::<char>::empty(),
            r.z@ == Seq::<char>::empty(),
    {
        G1 { x: String::new(), y: String::new(), z: String::new() }
    }
}

impl Default for G2 {
    fn default() -> (r: Self)
        ensures
            r.x@ == Seq::<String>::empty(),
            r.y@ == Seq::<String>::empty(),
            r.z@ == Seq::<String>::empty(),
    {
        G2 { x: Vec::new(), y: Vec::new(), z: Vec::new() }
    }
}

impl Default for CircomProof {
    fn default() -> (r: Self)
        ensures
            r.a.x@ == Seq::<char>::empty(),
            r.a.y@ == Seq::<char>::empty(),
            r.a.z@ == Seq::<char>::empty(),
            r.b.x@ == Seq::<String>::empty(),
            r.b.y@ == Seq::<String>::empty(),
            r.b.z@ == Seq::<String>::empty(),
            r.c.x@ == Seq::<char>::empty(),
            r.c.y@ == Seq::<char>::empty(),
            r.c.z@ == Seq::<char>::empty(),
            r.protocol@ == Seq::<char>::empty(),
            r.curve@ == Seq::<char>::empty(),
    {
        CircomProof {
            a: G1::default(),
            b: G2::default(),
            c: G1::default(),
            protocol: String::new(),
            curve: String::new(),
        }
    }
}

/// The protocol name of a Groth16 proof.
pub open spec fn groth16_text() -> Seq<char> {
    "groth16"@
}

/// The curve name of a BN254 proof.
pub open spec fn bn254_text() -> Seq<char> {
    "bn128"@
}

/// Why a coordinate text is refused, if it is.
pub open spec fn coordinate_error(s: Seq<char>, label: Seq<char>) -> Option<Seq<char>> {
    if !canonical_decimal(s) {
        Some("Noncanonical coordinate at "@ + label)
    } else if !(decimal_value(s) < base_field_order()) {
        Some("Coordinate outside the base field at "@ + label)
    } else {
        None
    }
}

/// The modulus text is a non-empty text of digits.
proof fn lemma_base_field_digits()
    ensures
        base_field_text().len() > 0,
        all_digits(base_field_text()),
{
    reveal_strlit("21888242871839275222246405745257275088696311157297823662689037894645226208583");
}

/// For a canonical text, denoting zero or one is being the text `0` or `1`.
proof fn lemma_canonical_zero_one(t: Seq<char>)
    requires
        canonical_decimal(t),
    ensures
        (decimal_value(t) == 0) == (t == "0"@),
        (decimal_value(t) == 1) == (t == "1"@),
{
    reveal_strlit("0");
    reveal_strlit("1");
    assert(("0"@).len() == 1 && ("0"@)[0] == '0');
    assert(("1"@).len() == 1 && ("1"@)[0] == '1');
    assert(("0"@).drop_last() =~= Seq::<char>::empty());
    assert(("1"@).drop_last() =~= Seq::<char>::empty());
    assert(decimal_value(Seq::<char>::empty()) == 0);
    assert(decimal_value("0"@) == 0);
    assert(decimal_value("1"@) == 1);
    assert(canonical_decimal("0"@));
    assert(canonical_decimal("1"@));
    if decimal_value(t) == 0 {
        lemma_canonical_decimal_unique(t, "0"@);
    }
    if decimal_value(t) == 1 {
        lemma_canonical_decimal_unique(t, "1"@);
    }
}

/// Reads one base field coordinate: a canonical decimal text below the BN254
/// base field modulus. Returns the accepted text.
pub fn parse_bigint(s: &str, label: &str) -> (r: Result<String, MoproError>)
    ensures
        match r {
            Ok(t) => coordinate_error(s@, label@) is None && t@ == s@,
            Err(e) => coordinate_error(s@, label@) == Some(e.message()),
        },
{
    if !is_canonical_decimal(s) {
        return Err(
            MoproError::CircomError(String::from_str("Noncanonical coordinate at ").concat(label)),
        );
    }
    proof {
        lemma_base_field_digits();
    }
    if !decimal_below(s, base_field_decimal()) {
        return Err(
            MoproError::CircomError(
                String::from_str("Coordinate outside the base field at ").concat(label),
            ),
        );
    }
    Ok(String::from_str(s))
}

/// Why a G2 coordinate pair is refused, if it is.
pub open spec fn g2_coord_error(coord: Seq<String>, label: Seq<char>) -> Option<Seq<char>> {
    if coord.len() != 2 {
        Some("G2."@ + label + " expected 2 elements, got "@ + decimal_text(coord.len()))
    } else if coordinate_error(coord[0]@, "G2."@ + label + "[0]"@) is Some {
        coordinate_error(coord[0]@, "G2."@ + label + "[0]"@)
    } else {
        coordinate_error(coord[1]@, "G2."@ + label + "[1]"@)
    }
}

/// Reads one G2 coordinate: exactly two base field coordinates.
pub fn parse_g2_coord(coord: &[String], label: &str) -> (r: Result<(), MoproError>)
    ensures
        match r {
            Ok(_) => g2_coord_error(coord@, label@) is None,
            Err(e) => g2_coord_error(coord@, label@) == Some(e.message()),
        },
{
    if coord.len() != 2 {
        let message = String::from_str("G2.").concat(label).concat(" expected 2 elements, got ");
        return Err(MoproError::CircomError(message.concat(usize_to_decimal(coord.len()).as_str())));
    }
    let first = String::from_str("G2.").concat(label).concat("[0]");
    match parse_bigint(coord[0].as_str(), first.as_str()) {
        Ok(_) => {},
        Err(e) => return Err(e),
    }
    let second = String::from_str("G2.").concat(label).concat("[1]");
    match parse_bigint(coord[1].as_str(), second.as_str()) {
        Ok(_) => {},
        Err(e) => return Err(e),
    }
    Ok(())
}

/// Why a G1 point is refused, if it is: a coordinate that is not a base field
/// element, a point that is not affine (z must be 1, or 0 for the point at
/// infinity x = y = 0), or a point off the curve.
pub open spec fn g1_error(p: G1) -> Option<Seq<char>> {
    if coordinate_error(p.x@, "G1.x"@) is Some {
        coordinate_error(p.x@, "G1.x"@)
    } else if coordinate_error(p.y@, "G1.y"@) is Some {
        coordinate_error(p.y@, "G1.y"@)
    } else if coordinate_error(p.z@, "G1.z"@) is Some {
        coordinate_error(p.z@, "G1.z"@)
    } else {
        let infinity = decimal_value(p.x@) == 0 && decimal_value(p.y@) == 0;
        if decimal_value(p.z@) != (if infinity {
            0nat
        } else {
            1nat
        }) {
            Some("Expected an affine G1 point"@)
        } else if !infinity && !g1_curve_equation(
            decimal_value(p.x@) as int,
            decimal_value(p.y@) as int,
        ) {
            Some("Invalid G1 curve point"@)
        } else {
            None
        }
    }
}

/// Whether the coordinates of a G2 point denote the point at infinity.
pub open spec fn g2_at_infinity(p: G2) -> bool {
    &&& decimal_value(p.x@[0]@) == 0
    &&& decimal_value(p.x@[1]@) == 0
    &&& decimal_value(p.y@[0]@) == 0
    &&& decimal_value(p.y@[1]@) == 0
}

/// Why a G2 point is refused, if it is: a coordinate that is not a pair of
/// base field elements, a point that is not affine (z must be (1, 0), or
/// (0, 0) for the point at infinity), or a point off the curve or outside the
/// prime-order subgroup.
pub open spec fn g2_error(p: G2) -> Option<Seq<char>> {
    if g2_coord_error(p.x@, "x"@) is Some {
        g2_coord_error(p.x@, "x"@)
    } else if g2_coord_error(p.y@, "y"@) is Some {
        g2_coord_error(p.y@, "y"@)
    } else if g2_coord_error(p.z@, "z"@) is Some {
        g2_coord_error(p.z@, "z"@)
    } else {
        let infinity = g2_at_infinity(p);
        if decimal_value(p.z@[0]@) != (if infinity {
            0nat
        } else {
            1nat
        }) || decimal_value(p.z@[1]@) != 0 {
            Some("Expected an affine G2 point"@)
        } else if !infinity && !(g2_curve_equation(
            decimal_value(p.x@[0]@) as int,
            decimal_value(p.x@[1]@) as int,
            decimal_value(p.y@[0]@) as int,
            decimal_value(p.y@[1]@) as int,
        ) && g2_in_subgroup(p.x@[0]@, p.x@[1]@, p.y@[0]@, p.y@[1]@)) {
            Some("Invalid G2 curve point"@)
        } else {
            None
        }
    }
}

/// Why a proof is refused, if it is: it must be a Groth16 proof on BN254
/// whose three points are valid.
pub open spec fn proof_error(p: CircomProof) -> Option<Seq<char>> {
    if !(p.protocol@ == groth16_text() && p.curve@ == bn254_text()) {
        Some("Expected a BN254 Groth16 proof"@)
    } else if g1_error(p.a) is Some {
        g1_error(p.a)
    } else if g2_error(p.b) is Some {
        g2_error(p.b)
    } else {
        g1_error(p.c)
    }
}

impl G1 {
    /// Checks that the point is an affine point of G1 (or the point at
    /// infinity) with canonical base field coordinates, before it is handed to
    /// the prover.
    pub fn validate(&self) -> (r: Result<(), MoproError>)
        ensures
            match r {
                Ok(_) => g1_error(*self) is None,
                Err(e) => g1_error(*self) == Some(e.message()),
            },
    {
        match parse_bigint(self.x.as_str(), "G1.x") {
            Ok(_) => {},
            Err(e) => return Err(e),
        }
        match parse_bigint(self.y.as_str(), "G1.y") {
            Ok(_) => {},
            Err(e) => return Err(e),
        }
        match parse_bigint(self.z.as_str(), "G1.z") {
            Ok(_) => {},
            Err(e) => return Err(e),
        }
        proof {
            lemma_canonical_zero_one(self.x@);
            lemma_canonical_zero_one(self.y@);
            lemma_canonical_zero_one(self.z@);
        }
        let zero = String::from_str("0");
        let one = String::from_str("1");
        let infinity = self.x == zero && self.y == zero;
        let affine = if infinity {
            self.z == zero
        } else {
            self.z == one
        };
        if !affine {
            return Err(MoproError::CircomError(String::from_str("Expected an affine G1 point")));
        }
        let valid = if infinity {
            g1_identity_valid()
        } else {
            g1_affine_valid(self.x.as_str(), self.y.as_str())
        };
        if !valid {
            return Err(MoproError::CircomError(String::from_str("Invalid G1 curve point")));
        }
        Ok(())
    }
}

impl G2 {
    /// Checks that the point is an affine point of the prime-order subgroup
    /// of G2 (or the point at infinity) with canonical base field
    /// coordinates, before it is handed to the prover.
    pub fn validate(&self) -> (r: Result<(), MoproError>)
        ensures
            match r {
                Ok(_) => g2_error(*self) is None,
                Err(e) => g2_error(*self) == Some(e.message()),
            },
    {
        match parse_g2_coord(self.x.as_slice(), "x") {
            Ok(_) => {},
            Err(e) => return Err(e),
        }
        match parse_g2_coord(self.y.as_slice(), "y") {
            Ok(_) => {},
            Err(e) => return Err(e),
        }
        match parse_g2_coord(self.z.as_slice(), "z") {
            Ok(_) => {},
            Err(e) => return Err(e),
        }
        proof {
            lemma_canonical_zero_one(self.x@[0]@);
            lemma_canonical_zero_one(self.x@[1]@);
            lemma_canonical_zero_one(self.y@[0]@);
            lemma_canonical_zero_one(self.y@[1]@);
            lemma_canonical_zero_one(self.z@[0]@);
            lemma_canonical_zero_one(self.z@[1]@);
        }
        let zero = String::from_str("0");
        let one = String::from_str("1");
        let infinity = self.x[0] == zero && self.x[1] == zero && self.y[0] == zero && self.y[1]
            == zero;
        let affine = (if infinity {
            self.z[0] == zero
        } else {
            self.z[0] == one
        }) && self.z[1] == zero;
        if !affine {
            return Err(MoproError::CircomError(String::from_str("Expected an affine G2 point")));
        }
        let valid = if infinity {
            g2_identity_valid()
        } else {
            g2_affine_valid(
                self.x[0].as_str(),
                self.x[1].as_str(),
                self.y[0].as_str(),
                self.y[1].as_str(),
            )
        };
        if !valid {
            return Err(MoproError::CircomError(String::from_str("Invalid G2 curve point")));
        }
        Ok(())
    }
}

impl CircomProof {
    /// Checks that the proof is a BN254 Groth16 proof whose points are all
    /// valid, before it is handed to the prover.
    pub fn validate(&self) -> (r: Result<(), MoproError>)
        ensures
            match r {
                Ok(_) => proof_error(*self) is None,
                Err(e) => proof_error(*self) == Some(e.message()),
            },
    {
        let groth16 = String::from_str("groth16");
        let bn254 = String::from_str("bn128");
        if !(self.protocol == groth16 && self.curve == bn254) {
            return Err(
                MoproError::CircomError(String::from_str("Expected a BN254 Groth16 proof")),
            );
        }
        match self.a.validate() {
            Ok(_) => {},
            Err(e) => return Err(e),
        }
        match self.b.validate() {
            Ok(_) => {},
            Err(e) => return Err(e),
        }
        self.c.validate()
    }
}

/// An affine G1 point with canonical base field coordinates: either the point
/// at infinity, written (0, 0, 0), or a point (x, y, 1) on y^2 = x^3 + 3.
pub open spec fn is_affine_g1_point(g: G1) -> bool {
    let (x, y, z) = (decimal_value(g.x@), decimal_value(g.y@), decimal_value(g.z@));
    &&& coordinate_ok(g.x@)
    &&& coordinate_ok(g.y@)
    &&& coordinate_ok(g.z@)
    &&& (x == 0 && y == 0 && z == 0) || (!(x == 0 && y == 0) && z == 1 && g1_curve_equation(
        x as int,
        y as int,
    ))
}

/// An affine G2 point of the prime-order subgroup with canonical coordinate
/// pairs: either the point at infinity, written ((0, 0), (0, 0), (0, 0)), or
/// a point (x, y, (1, 0)) on the twist y^2 = x^3 + 3 / (9 + u) that passes the
/// subgroup test.
pub open spec fn is_affine_g2_point(g: G2) -> bool {
    &&& g.x@.len() == 2 && g.y@.len() == 2 && g.z@.len() == 2
    &&& forall|i: int| 0 <= i < 2 ==> coordinate_ok((#[trigger] g.x@[i])@)
    &&& forall|i: int| 0 <= i < 2 ==> coordinate_ok((#[trigger] g.y@[i])@)
    &&& forall|i: int| 0 <= i < 2 ==> coordinate_ok((#[trigger] g.z@[i])@)
    &&& decimal_value(g.z@[1]@) == 0
    &&& {
        let zero = decimal_value(g.x@[0]@) == 0 && decimal_value(g.x@[1]@) == 0 && decimal_value(
            g.y@[0]@,
        ) == 0 && decimal_value(g.y@[1]@) == 0;
        ||| zero && decimal_value(g.z@[0]@) == 0
        ||| !zero && decimal_value(g.z@[0]@) == 1 && g2_curve_equation(
            decimal_value(g.x@[0]@) as int,
            decimal_value(g.x@[1]@) as int,
            decimal_value(g.y@[0]@) as int,
            decimal_value(g.y@[1]@) as int,
        ) && g2_in_subgroup(g.x@[0]@, g.x@[1]@, g.y@[0]@, g.y@[1]@)
    }
}

/// `G1::validate` accepts exactly the affine G1 points.
pub proof fn lemma_g1_accepts_affine_points(g: G1)
    ensures
        g1_error(g) is None <==> is_affine_g1_point(g),
{
}

/// `G2::validate` accepts exactly the affine points of the G2 subgroup.
pub proof fn lemma_g2_accepts_affine_points(g: G2)
    ensures
        g2_error(g) is None <==> is_affine_g2_point(g),
{
    if g2_error(g) is None {
        assert(coordinate_ok(g.x@[0]@) && coordinate_ok(g.x@[1]@));
        assert(coordinate_ok(g.y@[0]@) && coordinate_ok(g.y@[1]@));
        assert(coordinate_ok(g.z@[0]@) && coordinate_ok(g.z@[1]@));
        assert forall|i: int| 0 <= i < 2 implies coordinate_ok((#[trigger] g.x@[i])@) by {
            if i == 1 {
            }
        }
    }
    if is_affine_g2_point(g) {
        assert(coordinate_ok(g.x@[0]@) && coordinate_ok(g.x@[1]@));
        assert(coordinate_ok(g.y@[0]@) && coordinate_ok(g.y@[1]@));
        assert(coordinate_ok(g.z@[0]@) && coordinate_ok(g.z@[1]@));
    }
}

/// An accepted proof is a BN254 Groth16 proof all of whose points, A, B and
/// C, are affine points of their groups.
pub proof fn lemma_accepted_proof_points(p: CircomProof)
    requires
        proof_error(p) is None,
    ensures
        p.protocol@ == "groth16"@,
        p.curve@ == "bn128"@,
        is_affine_g1_point(p.a),
        is_affine_g2_point(p.b),
        is_affine_g1_point(p.c),
{
    lemma_g1_accepts_affine_points(p.a);
    lemma_g2_accepts_affine_points(p.b);
    lemma_g1_accepts_affine_points(p.c);
}

/// The coordinate texts accepted are exactly the shortest decimal texts of
/// the elements of the BN254 base field, whose modulus is
/// 21888242871839275222246405745257275088696311157297823662689037894645226208583.
pub proof fn lemma_coordinate_texts(t: Seq<char>)
    ensures
        coordinate_ok(t) <==> (t == decimal_text(decimal_value(t)) && decimal_value(t)
            < base_field_order()),
        base_field_order() == decimal_value(
            "21888242871839275222246405745257275088696311157297823662689037894645226208583"@,
        ),
{
    lemma_canonical_decimal_is_decimal_text(t);
    lemma_base_field_digits();
    reveal_strlit("21888242871839275222246405745257275088696311157297823662689037894645226208583");
    lemma_decimal_bounds(base_field_text());
    lemma_pow10_monotone(base_field_text().len(), 78);
}

/// Coordinates cannot be aliased: two accepted coordinate texts that are
/// congruent modulo the base field modulus are the same text.
pub proof fn lemma_coordinate_unaliased(a: Seq<char>, b: Seq<char>)
    requires
        coordinate_ok(a),
        coordinate_ok(b),
        decimal_value(a) % base_field_order() == decimal_value(b) % base_field_order(),
    ensures
        a == b,
{
    lemma_small_mod(decimal_value(a), base_field_order());
    lemma_small_mod(decimal_value(b), base_field_order());
    lemma_canonical_decimal_unique(a, b);
}

} // verus!
