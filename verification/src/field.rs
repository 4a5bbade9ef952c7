//! The prime field that every protocol value lives in.
//!
//! Elements are residues modulo the 64-bit prime `2^64 - 2^32 + 1`, stored
//! reduced in a single machine word. The protocol only needs ring operations,
//! exponentiation (which also yields inverses, since the modulus is prime) and
//! equality; all of them are specified exactly over the mathematical residues.

use vstd::arithmetic::div_mod::{
    lemma_add_mod_noop, lemma_add_mod_noop_right, lemma_mod_add_multiples_vanish, lemma_mod_bound,
    lemma_mul_mod_noop_left, lemma_mul_mod_noop_right, lemma_small_mod, lemma_sub_mod_noop,
};
use vstd::arithmetic::mul::{lemma_mul_is_associative, lemma_mul_is_distributive_add};
use vstd::arithmetic::power::{lemma_pow_mod_noop, lemma_pow_multiplies, pow};
use vstd::prelude::*;

verus! {

/// The order of the field: the prime `2^64 - 2^32 + 1`.
pub const FIELD_MODULUS: u64 = 0xFFFF_FFFF_0000_0001;

/// Marker type describing the prime field used throughout the protocol.
pub struct FieldConfig;

impl FieldConfig {
    /// The order of the field.
    pub fn modulus() -> (r: u64)
        ensures
            r == FIELD_MODULUS,
    {
        FIELD_MODULUS
    }
}

/// The field order as a spec-level integer.
pub open spec fn field_order() -> int {
    FIELD_MODULUS as int
}

/// Field addition on residues.
pub open spec fn f_add(a: int, b: int) -> int {
    (a + b) % field_order()
}

/// Field subtraction on residues.
pub open spec fn f_sub(a: int, b: int) -> int {
    (a - b) % field_order()
}

/// Field multiplication on residues.
pub open spec fn f_mul(a: int, b: int) -> int {
    (a * b) % field_order()
}

/// Field exponentiation on residues.
pub open spec fn f_pow(b: int, e: nat) -> int {
    pow(b, e) % field_order()
}

/// The multiplicative inverse of a nonzero residue, by Fermat's little
/// theorem: `a^(p - 2)`.
pub open spec fn f_inv(a: int) -> int {
    f_pow(a, (FIELD_MODULUS - 2) as nat)
}

/// Field division: multiplication by the inverse of the divisor.
pub open spec fn f_div(a: int, b: int) -> int {
    f_mul(a, f_inv(b))
}

/// Whether an integer is a fully reduced residue.
pub open spec fn in_field(a: int) -> bool {
    0 <= a < field_order()
}

/// A member of the prime field of order `FIELD_MODULUS`, kept reduced.
#[derive(Clone, Copy, PartialEq, Eq, Structural, Debug)]
pub struct FieldElement {
    v: u64,
}

impl View for FieldElement {
    type V = int;

    closed spec fn view(&self) -> int {
        self.v as int
    }
}

/// Equality of field elements coincides with equality of their residues.
pub proof fn lemma_field_eq_is_view_eq(a: FieldElement, b: FieldElement)
    ensures
        (a == b) <==> (a@ == b@),
{
}

impl FieldElement {
    /// The residue of an arbitrary machine integer.
    pub fn from_u64(x: u64) -> (r: FieldElement)
        ensures
            r@ == x as int % field_order(),
            in_field(r@),
    {
        proof {
            lemma_mod_bound(x as int, field_order());
        }
        FieldElement { v: x % FIELD_MODULUS }
    }

    /// The additive identity.
    pub fn zero() -> (r: FieldElement)
        ensures
            r@ == 0,
    {
        FieldElement { v: 0 }
    }

    /// The multiplicative identity.
    pub fn one() -> (r: FieldElement)
        ensures
            r@ == 1,
    {
        FieldElement { v: 1 }
    }

    /// Field addition.
    pub fn add(self, other: FieldElement) -> (r: FieldElement)
        ensures
            r@ == f_add(self@, other@),
            in_field(r@),
    {
        let s: u128 = self.v as u128 + other.v as u128;
        let m: u128 = s % (FIELD_MODULUS as u128);
        proof {
            lemma_mod_bound(s as int, field_order());
        }
        FieldElement { v: m as u64 }
    }

    /// Field subtraction.
    pub fn sub(self, other: FieldElement) -> (r: FieldElement)
        ensures
            r@ == f_sub(self@, other@),
            in_field(r@),
    {
        let a: u128 = (self.v as u128) % (FIELD_MODULUS as u128);
        let b: u128 = (other.v as u128) % (FIELD_MODULUS as u128);
        let d: u128 = (a + FIELD_MODULUS as u128 - b) % (FIELD_MODULUS as u128);
        proof {
            lemma_mod_bound(self.v as int, field_order());
            lemma_mod_bound(other.v as int, field_order());
            lemma_mod_bound(a + field_order() - b, field_order());
            lemma_mod_add_multiples_vanish(a as int - b as int, field_order());
            lemma_sub_mod_noop(self.v as int, other.v as int, field_order());
        }
        FieldElement { v: d as u64 }
    }

    /// Field multiplication.
    pub fn mul(self, other: FieldElement) -> (r: FieldElement)
        ensures
            r@ == f_mul(self@, other@),
            in_field(r@),
    {
        proof {
            assert(self.v as u128 * other.v as u128 <= u64::MAX as u128 * u64::MAX as u128)
                by (nonlinear_arith)
                requires
                    self.v as u128 <= u64::MAX as u128,
                    other.v as u128 <= u64::MAX as u128,
            ;
        }
        let prod: u128 = self.v as u128 * other.v as u128;
        let m: u128 = prod % (FIELD_MODULUS as u128);
        proof {
            lemma_mod_bound(prod as int, field_order());
        }
        FieldElement { v: m as u64 }
    }

    /// Field exponentiation by square and multiply.
    pub fn pow(self, e: u64) -> (r: FieldElement)
        ensures
            r@ == f_pow(self@, e as nat),
            in_field(r@),
    {
        let mut result = FieldElement { v: 1 };
        let mut base = FieldElement::from_u64(self.v);
        let mut exp: u64 = e;
        proof {
            lemma_pow_mod_noop(self.v as int, e as nat, field_order());
            lemma_mod_bound(pow(base@, exp as nat), field_order());
            lemma_small_mod(f_pow(base@, exp as nat) as nat, field_order() as nat);
            assert(f_mul(1, f_pow(base@, exp as nat)) == f_pow(self@, e as nat));
        }
        while exp > 0
            invariant
                in_field(result@),
                in_field(base@),
                f_mul(result@, f_pow(base@, exp as nat)) == f_pow(self@, e as nat),
            decreases exp,
        {
            if exp % 2 == 1 {
                proof {
                    lemma_f_mul_pow_step(result@, base@, (exp - 1) as nat);
                }
                result = result.mul(base);
            }
            proof {
                lemma_f_pow_square(result@, base@, (exp / 2) as nat);
            }
            base = base.mul(base);
            exp = exp / 2;
        }
        proof {
            lemma_small_mod(result@ as nat, field_order() as nat);
            vstd::arithmetic::power::lemma_pow0(base@);
            assert(f_mul(result@, f_pow(base@, 0)) == (result@ * 1) % field_order());
        }
        result
    }

    /// The multiplicative inverse, `self^(FIELD_MODULUS - 2)`; maps zero to
    /// zero.
    pub fn inv(self) -> (r: FieldElement)
        ensures
            r@ == f_inv(self@),
            in_field(r@),
    {
        self.pow(FIELD_MODULUS - 2)
    }

    /// Field division: multiplication by the inverse of the divisor.
    pub fn div(self, other: FieldElement) -> (r: FieldElement)
        ensures
            r@ == f_div(self@, other@),
            in_field(r@),
    {
        self.mul(other.inv())
    }
}

/// Field addition is associative.
pub proof fn lemma_f_add_assoc(a: int, b: int, c: int)
    ensures
        f_add(f_add(a, b), c) == f_add(a, f_add(b, c)),
{
    lemma_add_mod_noop_right(c, a + b, field_order());
    lemma_add_mod_noop_right(a, b + c, field_order());
}

/// Field multiplication distributes over field addition.
pub proof fn lemma_f_mul_distributes(c: int, x: int, y: int)
    ensures
        f_mul(c, f_add(x, y)) == f_add(f_mul(c, x), f_mul(c, y)),
{
    lemma_mul_mod_noop_right(c, x + y, field_order());
    lemma_mul_is_distributive_add(c, x, y);
    lemma_add_mod_noop(c * x, c * y, field_order());
}

/// Absorbing a factor into the accumulator commutes with lowering the
/// exponent: `r * b^(k+1) == (r * b) * b^k` in the field.
proof fn lemma_f_mul_pow_step(r: int, b: int, k: nat)
    ensures
        f_mul(r, f_pow(b, k + 1)) == f_mul(f_mul(r, b), f_pow(b, k)),
{
    assert(pow(b, k + 1) == b * pow(b, k)) by {
        reveal(pow);
    }
    lemma_mul_mod_noop_right(r, b * pow(b, k), field_order());
    lemma_mul_is_associative(r, b, pow(b, k));
    lemma_mul_mod_noop_left(r * b, pow(b, k), field_order());
    lemma_mul_mod_noop_right((r * b) % field_order(), pow(b, k), field_order());
}

/// Squaring the base halves the exponent: `r * (b*b)^k == r * b^(2k)` in the
/// field.
proof fn lemma_f_pow_square(r: int, b: int, k: nat)
    ensures
        f_mul(r, f_pow(f_mul(b, b), k)) == f_mul(r, f_pow(b, 2 * k)),
{
    vstd::arithmetic::power::lemma_pow1(b);
    vstd::arithmetic::power::lemma_pow_adds(b, 1, 1);
    assert(pow(b, 2) == b * b);
    lemma_pow_mod_noop(b * b, k, field_order());
    lemma_pow_multiplies(b, 2, k);
    assert(pow(f_mul(b, b), k) % field_order() == pow(b * b, k) % field_order());
    assert(pow(b * b, k) == pow(b, 2 * k));
}

} // verus!
