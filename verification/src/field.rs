use vstd::prelude::*;
use vstd::arithmetic::div_mod::{
    lemma_small_mod, lemma_mod_add_multiples_vanish, lemma_mod_bound, lemma_mod_multiples_vanish,
    lemma_sub_mod_noop,
};
use vstd::arithmetic::mul::lemma_mul_equality_converse;

verus! {

/// An element of the scalar field of the BLS12-381 curve, held as four
/// 64-bit limbs in little-endian order. The canonical value of a
/// well-formed element lies in `[0, modulus)`.
#[derive(Clone, Copy, Debug, PartialEq, Eq, Structural)]
pub struct FieldElement {
    pub l0: u64,
    pub l1: u64,
    pub l2: u64,
    pub l3: u64,
}

/// The prime modulus of the scalar field of the BLS12-381 curve.
pub open spec fn modulus() -> nat {
    0x73eda753299d7d483339d80809a1d80553bda402fffe5bfeffffffff00000001nat
}

/// The largest value whose signed representative is non-negative:
/// `(modulus - 1) / 2`.
pub open spec fn half() -> nat {
    ((modulus() - 1) / 2) as nat
}

impl FieldElement {
    /// The integer this element stands for.
    pub open spec fn value(self) -> nat {
        self.l0 as nat
            + self.l1 as nat * 0x1_0000_0000_0000_0000nat
            + self.l2 as nat * 0x1_0000_0000_0000_0000_0000_0000_0000_0000nat
            + self.l3 as nat * 0x1_0000_0000_0000_0000_0000_0000_0000_0000_0000_0000_0000_0000nat
    }

    /// Canonical form: the value lies below the modulus.
    pub open spec fn wf(self) -> bool {
        self.value() < modulus()
    }
}

/// Field addition on canonical values.
pub open spec fn f_add(a: nat, b: nat) -> nat {
    (a + b) % modulus()
}

/// Field multiplication on canonical values.
pub open spec fn f_mul(a: nat, b: nat) -> nat {
    (a * b) % modulus()
}

/// Field negation on a canonical value.
pub open spec fn f_neg(a: nat) -> nat
    recommends
        a < modulus(),
{
    if a == 0 {
        0nat
    } else {
        (modulus() - a) as nat
    }
}

/// The canonical field element standing for the integer `x`.
pub open spec fn encode_spec(x: int) -> nat {
    (x % (modulus() as int)) as nat
}

/// The signed representative in `(-modulus/2, modulus/2)` of a canonical value.
pub open spec fn decode_spec(v: nat) -> int
    recommends
        v < modulus(),
{
    if v <= half() {
        v as int
    } else {
        v as int - modulus()
    }
}

/// The zero element of the field.
pub fn fe_zero() -> (r: FieldElement)
    ensures
        r.value() == 0,
        r.wf(),
{
    FieldElement { l0: 0, l1: 0, l2: 0, l3: 0 }
}

/// The field element standing for an unsigned 64-bit integer.
pub fn fe_from_u64(x: u64) -> (r: FieldElement)
    ensures
        r.value() == x,
        r.wf(),
{
    FieldElement { l0: x, l1: 0, l2: 0, l3: 0 }
}

/// Relies on ark_ff's field multiplication for the BLS12-381 scalar field:
/// the canonical value of the product is `a * b mod modulus`, and
/// `from_bigint` / `into_bigint` translate between canonical values below the
/// modulus and field elements.
#[verifier::external_body]
pub(crate) fn fe_mul(a: &FieldElement, b: &FieldElement) -> (r: FieldElement)
    requires
        a.wf(),
        b.wf(),
    ensures
        r.value() == f_mul(a.value(), b.value()),
        r.wf(),
{
    let fa = <ark_bls12_381::Fr as ark_ff::PrimeField>::from_bigint(ark_ff::BigInt([
        a.l0, a.l1, a.l2, a.l3,
    ]))
    .unwrap();
    let fb = <ark_bls12_381::Fr as ark_ff::PrimeField>::from_bigint(ark_ff::BigInt([
        b.l0, b.l1, b.l2, b.l3,
    ]))
    .unwrap();
    let limbs = <ark_bls12_381::Fr as ark_ff::PrimeField>::into_bigint(fa * fb).0;
    FieldElement { l0: limbs[0], l1: limbs[1], l2: limbs[2], l3: limbs[3] }
}

/// Relies on ark_ff's field addition for the BLS12-381 scalar field:
/// the canonical value of the sum is `a + b mod modulus`, and
/// `from_bigint` / `into_bigint` translate between canonical values below the
/// modulus and field elements.
#[verifier::external_body]
pub(crate) fn fe_add(a: &FieldElement, b: &FieldElement) -> (r: FieldElement)
    requires
        a.wf(),
        b.wf(),
    ensures
        r.value() == f_add(a.value(), b.value()),
        r.wf(),
{
    let fa = <ark_bls12_381::Fr as ark_ff::PrimeField>::from_bigint(ark_ff::BigInt([
        a.l0, a.l1, a.l2, a.l3,
    ]))
    .unwrap();
    let fb = <ark_bls12_381::Fr as ark_ff::PrimeField>::from_bigint(ark_ff::BigInt([
        b.l0, b.l1, b.l2, b.l3,
    ]))
    .unwrap();
    let limbs = <ark_bls12_381::Fr as ark_ff::PrimeField>::into_bigint(fa + fb).0;
    FieldElement { l0: limbs[0], l1: limbs[1], l2: limbs[2], l3: limbs[3] }
}

/// Relies on ark_ff's field negation for the BLS12-381 scalar field:
/// the canonical value of `-a` is `modulus - a` for nonzero `a`, zero for
/// zero, and `from_bigint` / `into_bigint` translate between canonical
/// values below the modulus and field elements.
#[verifier::external_body]
pub(crate) fn fe_neg(a: &FieldElement) -> (r: FieldElement)
    requires
        a.wf(),
    ensures
        r.value() == f_neg(a.value()),
        r.wf(),
{
    let fa = <ark_bls12_381::Fr as ark_ff::PrimeField>::from_bigint(ark_ff::BigInt([
        a.l0, a.l1, a.l2, a.l3,
    ]))
    .unwrap();
    let limbs = <ark_bls12_381::Fr as ark_ff::PrimeField>::into_bigint(-fa).0;
    FieldElement { l0: limbs[0], l1: limbs[1], l2: limbs[2], l3: limbs[3] }
}

/// Encode a signed 64-bit integer as a canonical field element: the
/// magnitude is mapped into the field, and a negative input is then negated
/// within the field.
pub fn encode(x: i64) -> (r: FieldElement)
    ensures
        r.value() == encode_spec(x as int),
        r.wf(),
{
    proof {
        lemma_mod_bound(x as int, modulus() as int);
    }
    let mag: u64 = if x >= 0 {
        x as u64
    } else {
        (-(x as i128)) as u64
    };
    let f = fe_from_u64(mag);
    if x < 0 {
        let r = fe_neg(&f);
        proof {
            lemma_mod_add_multiples_vanish(x as int, modulus() as int);
            lemma_small_mod((modulus() + x) as nat, modulus());
        }
        r
    } else {
        proof {
            lemma_small_mod(x as nat, modulus());
        }
        f
    }
}

/// Decode a canonical field element back to its signed representative in
/// `(-modulus/2, modulus/2)`, if that representative fits a 64-bit signed
/// integer.
pub fn decode(a: &FieldElement) -> (r: Option<i64>)
    requires
        a.wf(),
    ensures
        ({
            let d = decode_spec(a.value());
            &&& (i64::MIN <= d <= i64::MAX) ==> r == Some(d as i64)
            &&& !(i64::MIN <= d <= i64::MAX) ==> r == None::<i64>
        }),
{
    if a.l1 == 0 && a.l2 == 0 && a.l3 == 0 && a.l0 <= 0x7fff_ffff_ffff_ffff {
        Some(a.l0 as i64)
    } else {
        let n = fe_neg(a);
        if n.l1 == 0 && n.l2 == 0 && n.l3 == 0 {
            if n.l0 <= 0x7fff_ffff_ffff_ffff {
                Some(-(n.l0 as i64))
            } else if n.l0 == 0x8000_0000_0000_0000 {
                Some(i64::MIN)
            } else {
                None
            }
        } else {
            None
        }
    }
}

/// Two limb vectors standing for the same value are the same limbs:
/// the base-2^64 representation is unique.
pub proof fn lemma_value_injective(a: FieldElement, b: FieldElement)
    requires
        a.value() == b.value(),
    ensures
        a == b,
{
    let ra = a.l1 as int + a.l2 as int * 0x1_0000_0000_0000_0000
        + a.l3 as int * 0x1_0000_0000_0000_0000_0000_0000_0000_0000;
    let rb = b.l1 as int + b.l2 as int * 0x1_0000_0000_0000_0000
        + b.l3 as int * 0x1_0000_0000_0000_0000_0000_0000_0000_0000;
    assert(a.value() == a.l0 + 0x1_0000_0000_0000_0000 * ra);
    assert(b.value() == b.l0 + 0x1_0000_0000_0000_0000 * rb);
    lemma_mod_multiples_vanish(ra, a.l0 as int, 0x1_0000_0000_0000_0000);
    lemma_mod_multiples_vanish(rb, b.l0 as int, 0x1_0000_0000_0000_0000);
    lemma_small_mod(a.l0 as nat, 0x1_0000_0000_0000_0000nat);
    lemma_small_mod(b.l0 as nat, 0x1_0000_0000_0000_0000nat);
    assert(a.l0 == b.l0);
    lemma_mul_equality_converse(0x1_0000_0000_0000_0000, ra, rb);
    let sa = a.l2 as int + a.l3 as int * 0x1_0000_0000_0000_0000;
    let sb = b.l2 as int + b.l3 as int * 0x1_0000_0000_0000_0000;
    assert(ra == a.l1 + 0x1_0000_0000_0000_0000 * sa);
    assert(rb == b.l1 + 0x1_0000_0000_0000_0000 * sb);
    lemma_mod_multiples_vanish(sa, a.l1 as int, 0x1_0000_0000_0000_0000);
    lemma_mod_multiples_vanish(sb, b.l1 as int, 0x1_0000_0000_0000_0000);
    lemma_small_mod(a.l1 as nat, 0x1_0000_0000_0000_0000nat);
    lemma_small_mod(b.l1 as nat, 0x1_0000_0000_0000_0000nat);
    assert(a.l1 == b.l1);
    lemma_mul_equality_converse(0x1_0000_0000_0000_0000, sa, sb);
    lemma_mod_multiples_vanish(a.l3 as int, a.l2 as int, 0x1_0000_0000_0000_0000);
    lemma_mod_multiples_vanish(b.l3 as int, b.l2 as int, 0x1_0000_0000_0000_0000);
    lemma_small_mod(a.l2 as nat, 0x1_0000_0000_0000_0000nat);
    lemma_small_mod(b.l2 as nat, 0x1_0000_0000_0000_0000nat);
    assert(a.l2 == b.l2);
    lemma_mul_equality_converse(0x1_0000_0000_0000_0000, a.l3 as int, b.l3 as int);
}

/// Round trip: every integer whose magnitude stays below half the modulus
/// is recovered by decoding its encoding.
pub proof fn lemma_encode_decode(x: int)
    requires
        -(half() as int) <= x <= half() as int,
    ensures
        decode_spec(encode_spec(x)) == x,
{
    if x >= 0 {
        lemma_small_mod(x as nat, modulus());
    } else {
        lemma_mod_add_multiples_vanish(x, modulus() as int);
        lemma_small_mod((modulus() + x) as nat, modulus());
    }
}

/// Encoding is injective on integers whose magnitude stays below half the
/// modulus.
pub proof fn lemma_encode_injective(x: int, y: int)
    requires
        -(half() as int) <= x <= half() as int,
        -(half() as int) <= y <= half() as int,
        encode_spec(x) == encode_spec(y),
    ensures
        x == y,
{
    lemma_encode_decode(x);
    lemma_encode_decode(y);
}

/// Negation law: encoding the negation of an integer is the field negation
/// of its encoding.
pub proof fn lemma_encode_negate(x: int)
    ensures
        f_neg(encode_spec(x)) == encode_spec(-x),
{
    let m = modulus() as int;
    lemma_mod_bound(x as int, m);
    lemma_sub_mod_noop(0, x, m);
    assert(0int % m == 0) by {
        lemma_small_mod(0, modulus());
    }
    let e = x % m;
    assert((-x) % m == (-e) % m);
    if e == 0 {
        lemma_small_mod(0, modulus());
    } else {
        lemma_mod_add_multiples_vanish(-e, m);
        lemma_small_mod((m - e) as nat, modulus());
    }
}

} // verus!
