use zkmatmul::field::{decode, encode, fe_from_u64, fe_zero, FieldElement};

// Limbs of modulus - 1, modulus - 5 and modulus - 8 for the BLS12-381
// scalar field, little-endian.
const MINUS_ONE: FieldElement = FieldElement {
    l0: 0xffff_ffff_0000_0000,
    l1: 0x53bd_a402_fffe_5bfe,
    l2: 0x3339_d808_09a1_d805,
    l3: 0x73ed_a753_299d_7d48,
};
const MINUS_FIVE: FieldElement = FieldElement {
    l0: 0xffff_fffe_ffff_fffc,
    l1: 0x53bd_a402_fffe_5bfe,
    l2: 0x3339_d808_09a1_d805,
    l3: 0x73ed_a753_299d_7d48,
};
const MINUS_EIGHT: FieldElement = FieldElement {
    l0: 0xffff_fffe_ffff_fff9,
    l1: 0x53bd_a402_fffe_5bfe,
    l2: 0x3339_d808_09a1_d805,
    l3: 0x73ed_a753_299d_7d48,
};

#[test]
fn encode_zero_is_zero() {
    assert_eq!(encode(0), fe_zero());
}

#[test]
fn encode_positive_is_plain() {
    assert_eq!(encode(42), fe_from_u64(42));
    assert_eq!(encode(i64::MAX), fe_from_u64(i64::MAX as u64));
}

#[test]
fn encode_negative_wraps_to_modular_complement() {
    assert_eq!(encode(-1), MINUS_ONE);
    assert_eq!(encode(-5), MINUS_FIVE);
    assert_eq!(encode(-8), MINUS_EIGHT);
}

#[test]
fn decode_round_trips() {
    for v in [
        0i64,
        1,
        -1,
        2,
        -8,
        123_456_789,
        -987_654_321,
        i64::MAX,
        i64::MIN,
        i64::MIN + 1,
    ] {
        assert_eq!(decode(&encode(v)), Some(v));
    }
}

#[test]
fn decode_rejects_values_outside_the_signed_64_bit_range() {
    // 2^64: a small positive representative, but too large for i64.
    let big = FieldElement { l0: 0, l1: 1, l2: 0, l3: 0 };
    assert_eq!(decode(&big), None);
    // i64::MAX + 1 as a positive representative.
    let just_over = FieldElement { l0: 0x8000_0000_0000_0000, l1: 0, l2: 0, l3: 0 };
    assert_eq!(decode(&just_over), None);
}
