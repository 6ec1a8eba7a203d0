use schnorr_core::{
    bn254_to_bjj_scalar, bn254_to_dec_string, field_from_dec_str, scalar_from_dec_str, BjjPoint,
    BjjScalar, Fp,
};

const BASE8_X: &str = "5299619240641551281634865583518297030282874472190772894086521144482721001553";
const BASE8_Y: &str = "16950150798460657717958625567821834550301663161624707787222815936182638968203";
const BJJ_ORDER: &str = "2736030358979909402780800718157159386076813972158567259200215660948447373041";

#[test]
fn generator_is_on_curve() {
    let g = BjjPoint::generator();
    assert!(g.is_on_curve(), "Base8 generator must be on curve");
}

#[test]
fn identity_is_on_curve() {
    let id = BjjPoint::identity();
    assert!(id.is_on_curve(), "identity must be on curve");
}

#[test]
fn generator_is_not_identity() {
    let g = BjjPoint::generator();
    assert!(!g.is_zero());
}

#[test]
fn add_identity() {
    let g = BjjPoint::generator();
    let id = BjjPoint::identity();
    let result = g.add(&id);
    assert_eq!(result, g, "G + 0 = G");
}

#[test]
fn scalar_mul_by_one() {
    let g = BjjPoint::generator();
    let one = BjjScalar::from_u64(1);
    let result = g.scalar_mul(&one);
    assert!(result.is_on_curve());
    assert_eq!(g, result, "1*G = G");
}

#[test]
fn scalar_mul_by_zero() {
    let g = BjjPoint::generator();
    let zero = BjjScalar::zero();
    let result = g.scalar_mul(&zero);
    assert!(result.is_zero(), "0*G = identity");
}

#[test]
fn scalar_mul_associative() {
    let g = BjjPoint::generator();
    let a = BjjScalar::from_u64(7);
    let b = BjjScalar::from_u64(13);

    let ag = g.scalar_mul(&a);
    let bg = g.scalar_mul(&b);
    let sum_points = ag.add(&bg);

    let ab = BjjScalar::from_u64(7 + 13);
    let sum_scalar = g.scalar_mul(&ab);

    assert!(sum_points.is_on_curve());
    assert_eq!(sum_points, sum_scalar);
}

#[test]
fn double_equals_add_self() {
    let g = BjjPoint::generator();
    let doubled = g.add(&g);
    let two = BjjScalar::from_u64(2);
    let scaled = g.scalar_mul(&two);
    assert_eq!(doubled, scaled);
}

#[test]
fn bn254_scalar_mul_matches() {
    let g = BjjPoint::generator();
    let val_bn254 = Fp::from_u64(42);
    let result_bn254 = g.mul_by_bn254_scalar(&val_bn254);

    let val_bjj = bn254_to_bjj_scalar(&val_bn254);
    let result_bjj = g.scalar_mul(&val_bjj);

    assert_eq!(result_bn254, result_bjj);
}

#[test]
fn generator_coordinates_match_circomlib() {
    let g = BjjPoint::generator();
    let (x, y) = g.coords();
    assert_eq!(bn254_to_dec_string(&x), BASE8_X);
    assert_eq!(bn254_to_dec_string(&y), BASE8_Y);
}

#[test]
fn scalar_mul_result_on_curve() {
    let g = BjjPoint::generator();
    let s = BjjScalar::from_u64(123456789);
    let p = g.scalar_mul(&s);
    assert!(p.is_on_curve());
}

#[test]
fn subgroup_order() {
    // n*G should equal identity
    let g = BjjPoint::generator();
    let n = scalar_from_dec_str(BJJ_ORDER);
    let result = g.scalar_mul(&n);
    assert!(result.is_zero(), "n*G must be identity");
}

#[test]
fn dec_str_round_trips_through_field() {
    let f = field_from_dec_str("42");
    assert_eq!(f, Fp::from_u64(42));
    assert_eq!(bn254_to_dec_string(&f), "42");
    assert_eq!(bn254_to_dec_string(&Fp::from_u64(0)), "0");
    let big = field_from_dec_str(BASE8_Y);
    assert_eq!(bn254_to_dec_string(&big), BASE8_Y);
}

#[test]
fn dec_str_parse_reduces_modulo() {
    // The base-field modulus itself reduces to zero...
    let p_dec = "21888242871839275222246405745257275088548364400416034343698204186575808495617";
    assert_eq!(field_from_dec_str(p_dec), Fp::from_u64(0));
    // ...and so does the subgroup order in the scalar field.
    assert_eq!(scalar_from_dec_str(BJJ_ORDER), BjjScalar::zero());
    assert_eq!(scalar_from_dec_str("12345"), BjjScalar::from_u64(12345));
}
