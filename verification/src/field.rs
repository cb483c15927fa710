//! Elements of the BLS12-381 scalar field.
//!
//! A [`Scalar`] stores the canonical residue of a field element as four
//! 64-bit limbs, least significant first. The arithmetic itself is done by
//! the `pairing` crate; this module states what each operation returns.

use pairing::bls12_381::{Fr, FrRepr};
use pairing::{Field, PrimeField};
use vstd::prelude::*;

verus! {

/// The order `r` of the scalar field. Proofs that need the number itself
/// reveal it; most need only that it is positive.
#[verifier::opaque]
pub open spec fn modulus() -> nat {
    0x73eda753299d7d483339d80809a1d80553bda402fffe5bfeffffffff00000001nat
}

/// The modulus is no small number.
pub proof fn lemma_modulus_positive()
    ensures
        modulus() > 0xffff_ffff_ffff_ffff,
{
    reveal(modulus);
}

/// The number that four little-endian 64-bit limbs stand for.
pub open spec fn limbs_value(l0: u64, l1: u64, l2: u64, l3: u64) -> nat {
    (l0 as nat) + (l1 as nat) * 0x1_0000_0000_0000_0000nat + (l2 as nat)
        * 0x1_0000_0000_0000_0000_0000_0000_0000_0000nat + (l3 as nat)
        * 0x1_0000_0000_0000_0000_0000_0000_0000_0000_0000_0000_0000_0000nat
}

/// Whether `c` is one of the ten ASCII digits.
pub open spec fn is_digit(c: char) -> bool {
    '0' <= c <= '9'
}

/// The number an ASCII digit stands for.
pub open spec fn digit_value(c: char) -> nat {
    (c as nat - '0' as nat) as nat
}

/// Whether `s` is a decimal numeral: at least one digit, nothing but digits,
/// and no leading zero except in the numeral `0` itself.
pub open spec fn is_decimal(s: Seq<char>) -> bool {
    &&& s.len() > 0
    &&& forall|i: int| 0 <= i < s.len() ==> is_digit(#[trigger] s[i])
    &&& s[0] == '0' ==> s.len() == 1
}

/// The number that a string of digits denotes, most significant digit first.
pub open spec fn decimal_value(s: Seq<char>) -> nat
    decreases s.len(),
{
    if s.len() == 0 {
        0
    } else {
        10 * decimal_value(s.drop_last()) + digit_value(s.last())
    }
}

/// Different limbs stand for different numbers.
proof fn lemma_limbs_injective(a0: u64, a1: u64, a2: u64, a3: u64, b0: u64, b1: u64, b2: u64, b3: u64)
    requires
        limbs_value(a0, a1, a2, a3) == limbs_value(b0, b1, b2, b3),
    ensures
        a0 == b0,
        a1 == b1,
        a2 == b2,
        a3 == b3,
{
    let r1 = 0x1_0000_0000_0000_0000int;
    let r2 = 0x1_0000_0000_0000_0000_0000_0000_0000_0000int;
    let r3 = 0x1_0000_0000_0000_0000_0000_0000_0000_0000_0000_0000_0000_0000int;
    let low_a1 = a0 as int;
    let low_b1 = b0 as int;
    let low_a2 = low_a1 + a1 * r1;
    let low_b2 = low_b1 + b1 * r1;
    let low_a3 = low_a2 + a2 * r2;
    let low_b3 = low_b2 + b2 * r2;
    assert(0 <= low_a2 < r2 && 0 <= low_b2 < r2);
    assert(0 <= low_a3 < r3 && 0 <= low_b3 < r3);
    assert(low_a3 + a3 * r3 == low_b3 + b3 * r3);
    assert(a3 == b3) by {
        if a3 < b3 {
            assert(b3 * r3 >= a3 * r3 + r3);
        } else if b3 < a3 {
            assert(a3 * r3 >= b3 * r3 + r3);
        }
    }
    assert(low_a3 == low_b3);
    assert(a2 == b2) by {
        if a2 < b2 {
            assert(b2 * r2 >= a2 * r2 + r2);
        } else if b2 < a2 {
            assert(a2 * r2 >= b2 * r2 + r2);
        }
    }
    assert(low_a2 == low_b2);
    assert(a1 == b1) by {
        if a1 < b1 {
            assert(b1 * r1 >= a1 * r1 + r1);
        } else if b1 < a1 {
            assert(a1 * r1 >= b1 * r1 + r1);
        }
    }
}

/// An element of the scalar field, held as its canonical residue.
#[derive(Clone, Copy, Debug, PartialEq, Eq, Structural)]
pub struct Scalar {
    l0: u64,
    l1: u64,
    l2: u64,
    l3: u64,
}

impl View for Scalar {
    type V = nat;

    /// The residue that the limbs hold.
    closed spec fn view(&self) -> nat {
        limbs_value(self.l0, self.l1, self.l2, self.l3)
    }
}

/// Calls `Field::add_assign` of `pairing` on the two elements. `Fr` keeps
/// every element reduced, so the sum comes back as the canonical residue of
/// the integer sum.
#[verifier::external_body]
fn field_add(a: Scalar, b: Scalar) -> (r: Scalar)
    requires
        a.wf(),
        b.wf(),
    ensures
        r.wf(),
        r@ == (a@ + b@) % modulus(),
{
    let mut x = Fr::from_repr(FrRepr([a.l0, a.l1, a.l2, a.l3])).unwrap();
    let y = Fr::from_repr(FrRepr([b.l0, b.l1, b.l2, b.l3])).unwrap();
    x.add_assign(&y);
    let FrRepr(l) = x.into_repr();
    Scalar { l0: l[0], l1: l[1], l2: l[2], l3: l[3] }
}

/// Calls `Field::mul_assign` of `pairing` on the two elements: a Montgomery
/// multiplication, whose result read back through `into_repr` is the
/// canonical residue of the integer product.
#[verifier::external_body]
fn field_mul(a: Scalar, b: Scalar) -> (r: Scalar)
    requires
        a.wf(),
        b.wf(),
    ensures
        r.wf(),
        r@ == (a@ * b@) % modulus(),
{
    let mut x = Fr::from_repr(FrRepr([a.l0, a.l1, a.l2, a.l3])).unwrap();
    let y = Fr::from_repr(FrRepr([b.l0, b.l1, b.l2, b.l3])).unwrap();
    x.mul_assign(&y);
    let FrRepr(l) = x.into_repr();
    Scalar { l0: l[0], l1: l[1], l2: l[2], l3: l[3] }
}

/// Calls `Field::square` of `pairing`, which multiplies the element by
/// itself in the field.
#[verifier::external_body]
fn field_square(a: Scalar) -> (r: Scalar)
    requires
        a.wf(),
    ensures
        r.wf(),
        r@ == (a@ * a@) % modulus(),
{
    let mut x = Fr::from_repr(FrRepr([a.l0, a.l1, a.l2, a.l3])).unwrap();
    x.square();
    let FrRepr(l) = x.into_repr();
    Scalar { l0: l[0], l1: l[1], l2: l[2], l3: l[3] }
}

/// Calls `PrimeField::from_str` of `pairing`. It rejects the empty string,
/// any character that is not an ASCII digit, and a leading zero on anything
/// but `"0"`; otherwise it folds the digits into the field, ten times the
/// running value plus the digit, which is the numeral's value modulo `r`.
#[verifier::external_body]
fn field_from_str(s: &str) -> (r: Option<Scalar>)
    ensures
        r is Some <==> is_decimal(s@),
        r matches Some(v) ==> v.wf() && v@ == decimal_value(s@) % modulus(),
{
    match Fr::from_str(s) {
        Some(x) => {
            let FrRepr(l) = x.into_repr();
            Some(Scalar { l0: l[0], l1: l[1], l2: l[2], l3: l[3] })
        },
        None => None,
    }
}

impl Scalar {
    /// A scalar is well formed when its limbs hold a residue below the modulus.
    pub open spec fn wf(&self) -> bool {
        self@ < modulus()
    }

    /// Two scalars with the same residue are the same scalar.
    pub proof fn lemma_view_injective(a: Scalar, b: Scalar)
        requires
            a@ == b@,
        ensures
            a == b,
    {
        lemma_limbs_injective(a.l0, a.l1, a.l2, a.l3, b.l0, b.l1, b.l2, b.l3);
    }

    /// The additive identity.
    pub fn zero() -> (r: Scalar)
        ensures
            r.wf(),
            r@ == 0,
    {
        proof {
            lemma_modulus_positive();
        }
        Scalar { l0: 0, l1: 0, l2: 0, l3: 0 }
    }

    /// The multiplicative identity.
    pub fn one() -> (r: Scalar)
        ensures
            r.wf(),
            r@ == 1,
    {
        proof {
            lemma_modulus_positive();
        }
        Scalar { l0: 1, l1: 0, l2: 0, l3: 0 }
    }

    /// The scalar whose canonical residue the four little-endian limbs spell
    /// out, or `None` when they spell a number that is not below the modulus.
    pub fn from_limbs(limbs: [u64; 4]) -> (r: Option<Scalar>)
        ensures
            r is Some <==> limbs_value(limbs[0], limbs[1], limbs[2], limbs[3]) < modulus(),
            r matches Some(v) ==> v.wf() && v@ == limbs_value(
                limbs[0],
                limbs[1],
                limbs[2],
                limbs[3],
            ),
    {
        proof {
            reveal(modulus);
        }
        let l0: u64 = limbs[0];
        let l1: u64 = limbs[1];
        let l2: u64 = limbs[2];
        let l3: u64 = limbs[3];
        let below = l3 < 0x73eda753299d7d48 || (l3 == 0x73eda753299d7d48 && (l2
            < 0x3339d80809a1d805 || (l2 == 0x3339d80809a1d805 && (l1 < 0x53bda402fffe5bfe || (l1
            == 0x53bda402fffe5bfe && l0 < 0xffffffff00000001)))));
        if below {
            Some(Scalar { l0, l1, l2, l3 })
        } else {
            None
        }
    }

    /// The canonical residue as four little-endian 64-bit limbs.
    pub fn limbs(&self) -> (r: [u64; 4])
        ensures
            limbs_value(r[0], r[1], r[2], r[3]) == self@,
    {
        [self.l0, self.l1, self.l2, self.l3]
    }

    /// Parses a decimal numeral and reduces it into the field.
    pub fn from_str(s: &str) -> (r: Option<Scalar>)
        ensures
            r is Some <==> is_decimal(s@),
            r matches Some(v) ==> v.wf() && v@ == decimal_value(s@) % modulus(),
    {
        field_from_str(s)
    }

    /// The sum of two field elements.
    pub fn add(self, other: Scalar) -> (r: Scalar)
        requires
            self.wf(),
            other.wf(),
        ensures
            r.wf(),
            r@ == (self@ + other@) % modulus(),
    {
        field_add(self, other)
    }

    /// The product of two field elements.
    pub fn mul(self, other: Scalar) -> (r: Scalar)
        requires
            self.wf(),
            other.wf(),
        ensures
            r.wf(),
            r@ == (self@ * other@) % modulus(),
    {
        field_mul(self, other)
    }

    /// The square of a field element.
    pub fn square(self) -> (r: Scalar)
        requires
            self.wf(),
        ensures
            r.wf(),
            r@ == (self@ * self@) % modulus(),
    {
        field_square(self)
    }
}

} // verus!
