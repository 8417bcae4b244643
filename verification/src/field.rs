//! The scalar field of the argument: integers modulo a 61-bit prime
//! `P` chosen so that `2 * P + 1` is also prime, which gives the
//! commitment scheme a multiplicative group of order exactly `P`.
//! Every operation is verified against plain modular arithmetic over
//! `int`.

use vstd::arithmetic::div_mod::{
    lemma_mod_add_multiples_vanish, lemma_mul_mod_noop_general, lemma_small_mod,
    lemma_sub_mod_noop,
};
use vstd::prelude::*;

verus! {

/// The field modulus: a 61-bit prime for which `2 * P + 1` is prime.
pub const P: u64 = 0x1FFF_FFFF_FFFF_EB5D;

/// Field addition of reduced representatives.
pub open spec fn fadd(a: int, b: int) -> int {
    (a + b) % (P as int)
}

/// Field multiplication of reduced representatives.
pub open spec fn fmul(a: int, b: int) -> int {
    (a * b) % (P as int)
}

/// Field subtraction of reduced representatives.
pub open spec fn fsub(a: int, b: int) -> int {
    (a - b) % (P as int)
}

/// An element of the scalar field.  The representative is always kept
/// below the modulus; every constructor and operation returns a reduced
/// value.
#[derive(Clone, Copy, Debug, PartialEq, Eq, Structural)]
pub struct Fr {
    pub v: u64,
}

/// Iterated product `b * b * ... * b` (`e` factors), reduced after each
/// step: the value of `b^e` in the field when `b` is reduced.
pub open spec fn fpow(b: int, e: nat) -> int
    decreases e,
{
    if e == 0 {
        1
    } else {
        (b * fpow(b, (e - 1) as nat)) % (P as int)
    }
}

/// Squaring halves the exponent: `fpow(b, 2e) == fpow(b*b mod P, e)`.
proof fn lemma_fpow_square(b: int, e: nat)
    ensures
        fpow((b * b) % (P as int), e) == fpow(b, 2 * e),
    decreases e,
{
    let p = P as int;
    if e != 0 {
        lemma_fpow_square(b, (e - 1) as nat);
        let inner = fpow(b, (2 * e - 2) as nat);
        assert(fpow(b, (2 * e - 1) as nat) == (b * inner) % p);
        assert(fpow(b, 2 * e) == (b * ((b * inner) % p)) % p);
        lemma_mul_mod_noop_general(b, b * inner, p);
        assert((b * ((b * inner) % p)) % p == (b * (b * inner)) % p);
        assert(b * (b * inner) == (b * b) * inner) by (nonlinear_arith);
        lemma_mul_mod_noop_general(b * b, inner, p);
        assert(fpow((b * b) % p, e) == (((b * b) % p) * inner) % p);
    }
}

impl Fr {
    /// The integer this element stands for.
    pub open spec fn val(self) -> int {
        self.v as int
    }

    /// The representative is below the modulus.
    pub open spec fn reduced(self) -> bool {
        self.v < P
    }

    /// The additive identity.
    pub fn zero() -> (r: Fr)
        ensures
            r.val() == 0,
            r.reduced(),
    {
        Fr { v: 0 }
    }

    /// The multiplicative identity.
    pub fn one() -> (r: Fr)
        ensures
            r.val() == 1,
            r.reduced(),
    {
        Fr { v: 1 }
    }

    /// The element standing for `x` modulo `P`.
    pub fn from_u64(x: u64) -> (r: Fr)
        ensures
            r.val() == (x as int) % (P as int),
            r.reduced(),
    {
        Fr { v: x % P }
    }

    /// Field addition.
    pub fn add(self, o: Fr) -> (r: Fr)
        ensures
            r.val() == (self.val() + o.val()) % (P as int),
            r.reduced(),
    {
        let s: u128 = self.v as u128 + o.v as u128;
        let m: u128 = s % (P as u128);
        Fr { v: m as u64 }
    }

    /// Field multiplication.
    pub fn mul(self, o: Fr) -> (r: Fr)
        ensures
            r.val() == (self.val() * o.val()) % (P as int),
            r.reduced(),
    {
        proof {
            assert((self.v as int) * (o.v as int) < 0x10000000000000000 * 0x10000000000000000)
                by (nonlinear_arith)
                requires
                    self.v < 0x10000000000000000,
                    o.v < 0x10000000000000000,
            ;
        }
        let s: u128 = self.v as u128 * o.v as u128;
        let m: u128 = s % (P as u128);
        Fr { v: m as u64 }
    }

    /// Field subtraction.
    pub fn sub(self, o: Fr) -> (r: Fr)
        ensures
            r.val() == (self.val() - o.val()) % (P as int),
            r.reduced(),
    {
        let a: u64 = self.v % P;
        let b: u64 = o.v % P;
        proof {
            lemma_sub_mod_noop(self.v as int, o.v as int, P as int);
            if a >= b {
                lemma_small_mod((a - b) as nat, P as nat);
            } else {
                lemma_mod_add_multiples_vanish(a - b, P as int);
                lemma_small_mod((a + P - b) as nat, P as nat);
            }
        }
        if a >= b {
            Fr { v: a - b }
        } else {
            Fr { v: a + P - b }
        }
    }

    /// Field exponentiation by square and multiply.
    pub fn pow(self, e: u64) -> (r: Fr)
        ensures
            r.val() == fpow(self.val() % (P as int), e as nat),
            r.reduced(),
    {
        let p = Ghost(P as int);
        let mut acc = Fr::one();
        let mut base = Fr::from_u64(self.v);
        let mut exp: u64 = e;
        proof {
            lemma_small_mod(1nat, P as nat);
        }
        while exp > 0
            invariant
                acc.reduced(),
                base.reduced(),
                (acc.val() * fpow(base.val(), exp as nat)) % (P as int) == fpow(
                    self.val() % (P as int),
                    e as nat,
                ),
            decreases exp,
        {
            let ghost pre_acc = acc.val();
            let ghost pre_base = base.val();
            let ghost pre_exp = exp as nat;
            if exp % 2 == 1 {
                acc = acc.mul(base);
                proof {
                    // fpow(b, e) == (b * fpow(b*b mod P, (e-1)/2)) mod P for odd e
                    lemma_fpow_square(pre_base, ((pre_exp - 1) / 2) as nat);
                    let h = fpow((pre_base * pre_base) % (P as int), ((pre_exp - 1) / 2) as nat);
                    assert(fpow(pre_base, pre_exp) == (pre_base * h) % (P as int));
                    lemma_mul_mod_noop_general(pre_acc, pre_base * h, P as int);
                    lemma_mul_mod_noop_general(pre_acc * pre_base, h, P as int);
                    assert(pre_acc * (pre_base * h) == (pre_acc * pre_base) * h)
                        by (nonlinear_arith);
                }
            } else {
                proof {
                    lemma_fpow_square(pre_base, (pre_exp / 2) as nat);
                    lemma_mul_mod_noop_general(pre_acc, fpow(pre_base, pre_exp), P as int);
                }
            }
            base = base.mul(base);
            exp = exp / 2;
            proof {
                lemma_mul_mod_noop_general(acc.val(), fpow(base.val(), exp as nat), P as int);
            }
        }
        proof {
            lemma_small_mod(acc.v as nat, P as nat);
        }
        acc
    }
}

} // verus!
