use fawkes_plonk::error::CircuitError;
use fawkes_plonk::field::{convert_fp, Fp};

#[test]
fn add_wraps_at_modulus() {
    let a = Fp::<97>::new(50);
    let b = Fp::<97>::new(60);
    assert_eq!(a.add(b).v, 13);
}

#[test]
fn sub_wraps_below_zero() {
    let a = Fp::<97>::new(3);
    let b = Fp::<97>::new(5);
    assert_eq!(a.sub(b).v, 95);
}

#[test]
fn mul_reduces() {
    let a = Fp::<97>::new(96);
    assert_eq!(a.mul(a).v, 1);
}

#[test]
fn neg_of_zero_is_zero() {
    assert_eq!(Fp::<97>::zero().neg().v, 0);
    assert_eq!(Fp::<97>::new(3).neg().v, 94);
}

#[test]
fn from_u64_reduces() {
    assert_eq!(Fp::<97>::from_u64(100).v, 3);
}

#[test]
fn byte_width_by_modulus() {
    assert_eq!(Fp::<97>::byte_width(), 1);
    assert_eq!(Fp::<300>::byte_width(), 2);
    assert_eq!(Fp::<4294967291>::byte_width(), 4);
    assert_eq!(Fp::<18446744073709551557>::byte_width(), 8);
}

#[test]
fn le_bytes_round_trip() {
    let x = Fp::<4294967291>::new(0x01020304);
    let bytes = x.to_le_bytes();
    assert_eq!(bytes, vec![4, 3, 2, 1]);
    let y = Fp::<4294967291>::from_le_bytes(&bytes).unwrap();
    assert_eq!(y.v, 0x01020304);
}

#[test]
fn decode_rejects_wrong_length() {
    let r = Fp::<97>::from_le_bytes(&vec![1, 2]);
    assert_eq!(r, Err(CircuitError::DecodeError));
}

#[test]
fn decode_rejects_non_canonical_value() {
    let r = Fp::<97>::from_le_bytes(&vec![98]);
    assert_eq!(r, Err(CircuitError::DecodeError));
}

#[test]
fn convert_round_trip_same_modulus() {
    let x = Fp::<97>::new(42);
    let y: Fp<97> = convert_fp(&x).unwrap();
    assert_eq!(y.v, 42);
}

#[test]
fn convert_byte_identity_across_moduli() {
    // same one-byte width, different moduli: the reinterpretation keeps
    // the canonical bytes, and converting back returns the original
    let x = Fp::<97>::new(42);
    let y: Fp<101> = convert_fp(&x).unwrap();
    assert_eq!(y.to_le_bytes(), x.to_le_bytes());
    let back: Fp<97> = convert_fp(&y).unwrap();
    assert_eq!(back.v, 42);
}

#[test]
fn convert_rejects_width_mismatch() {
    let x = Fp::<97>::new(42);
    let r: Result<Fp<300>, CircuitError> = convert_fp(&x);
    assert_eq!(r, Err(CircuitError::IncompatibleFieldWidth));
}

#[test]
fn convert_rejects_out_of_range_value() {
    let x = Fp::<101>::new(99);
    let r: Result<Fp<97>, CircuitError> = convert_fp(&x);
    assert_eq!(r, Err(CircuitError::DecodeError));
}

#[test]
fn error_descriptions() {
    assert_eq!(CircuitError::DecodeError.describe(), "decode error");
    assert_eq!(
        CircuitError::UnsatisfiedConstraint.describe(),
        "unsatisfied constraint"
    );
}
