//! The Pedersen-style vector commitment.  Group elements live in the
//! order-`P` multiplicative subgroup of the integers modulo the prime
//! `Q = 2 * P + 1`, so that exponents are scalar-field elements and the
//! commitment is homomorphic in them.  A commitment to a vector `v`
//! with blinding `b` is `h^b * gens[0]^{v[0]} * gens[1]^{v[1]} * ...`;
//! opening verification recomputes it exactly.

use crate::field::Fr;
use vstd::arithmetic::div_mod::{lemma_mul_mod_noop_general, lemma_small_mod};
use vstd::prelude::*;

verus! {

/// The group modulus: the prime `2 * P + 1`.
pub const Q: u64 = 0x3FFF_FFFF_FFFF_D6BB;

/// A generator of the order-`P` subgroup: the square of 2 modulo `Q`.
pub const G0: u64 = 4;

/// Iterated product in the group: the value of `b^e` modulo `Q` when
/// `b` is reduced.
pub open spec fn gpow_spec(b: int, e: nat) -> int
    decreases e,
{
    if e == 0 {
        1
    } else {
        (b * gpow_spec(b, (e - 1) as nat)) % (Q as int)
    }
}

/// Squaring halves the exponent, in the group.
proof fn lemma_gpow_square(b: int, e: nat)
    ensures
        gpow_spec((b * b) % (Q as int), e) == gpow_spec(b, 2 * e),
    decreases e,
{
    let q = Q as int;
    if e != 0 {
        lemma_gpow_square(b, (e - 1) as nat);
        let inner = gpow_spec(b, (2 * e - 2) as nat);
        assert(gpow_spec(b, (2 * e - 1) as nat) == (b * inner) % q);
        assert(gpow_spec(b, 2 * e) == (b * ((b * inner) % q)) % q);
        lemma_mul_mod_noop_general(b, b * inner, q);
        assert((b * ((b * inner) % q)) % q == (b * (b * inner)) % q);
        assert(b * (b * inner) == (b * b) * inner) by (nonlinear_arith);
        lemma_mul_mod_noop_general(b * b, inner, q);
        assert(gpow_spec((b * b) % q, e) == (((b * b) % q) * inner) % q);
    }
}

/// Group multiplication.
pub fn gmul(a: u64, b: u64) -> (r: u64)
    ensures
        r as int == ((a as int) * (b as int)) % (Q as int),
        r < Q,
{
    proof {
        assert((a as int) * (b as int) < 0x10000000000000000 * 0x10000000000000000)
            by (nonlinear_arith)
            requires
                a < 0x10000000000000000,
                b < 0x10000000000000000,
        ;
    }
    let s: u128 = a as u128 * b as u128;
    let m: u128 = s % (Q as u128);
    m as u64
}

/// Group exponentiation by square and multiply.
pub fn gpow(b: u64, e: u64) -> (r: u64)
    ensures
        r as int == gpow_spec((b as int) % (Q as int), e as nat),
        r < Q,
{
    let mut acc: u64 = 1;
    let mut base: u64 = b % Q;
    let mut exp: u64 = e;
    proof {
        lemma_small_mod(1nat, Q as nat);
    }
    while exp > 0
        invariant
            acc < Q,
            base < Q,
            ((acc as int) * gpow_spec(base as int, exp as nat)) % (Q as int) == gpow_spec(
                (b as int) % (Q as int),
                e as nat,
            ),
        decreases exp,
    {
        let ghost pre_acc = acc as int;
        let ghost pre_base = base as int;
        let ghost pre_exp = exp as nat;
        if exp % 2 == 1 {
            acc = gmul(acc, base);
            proof {
                lemma_gpow_square(pre_base, ((pre_exp - 1) / 2) as nat);
                let h = gpow_spec((pre_base * pre_base) % (Q as int), ((pre_exp - 1) / 2) as nat);
                assert(gpow_spec(pre_base, pre_exp) == (pre_base * h) % (Q as int));
                lemma_mul_mod_noop_general(pre_acc, pre_base * h, Q as int);
                lemma_mul_mod_noop_general(pre_acc * pre_base, h, Q as int);
                assert(pre_acc * (pre_base * h) == (pre_acc * pre_base) * h) by (nonlinear_arith);
            }
        } else {
            proof {
                lemma_gpow_square(pre_base, (pre_exp / 2) as nat);
                lemma_mul_mod_noop_general(pre_acc, gpow_spec(pre_base, pre_exp), Q as int);
            }
        }
        base = gmul(base, base);
        exp = exp / 2;
        proof {
            lemma_mul_mod_noop_general(acc as int, gpow_spec(base as int, exp as nat), Q as int);
        }
    }
    proof {
        lemma_small_mod(acc as nat, Q as nat);
    }
    acc
}

/// The product `gens[0]^{values[0]} * gens[1]^{values[1]} * ...` over
/// the first `values.len()` generators.
pub open spec fn prod_pows(gens: Seq<u64>, values: Seq<Fr>) -> int
    decreases values.len(),
{
    if values.len() == 0 {
        1
    } else {
        (gpow_spec((gens[0] as int) % (Q as int), values[0].v as nat) * prod_pows(
            gens.drop_first(),
            values.drop_first(),
        )) % (Q as int)
    }
}

/// The commitment to `values` with blinding `blind`:
/// `h^blind * gens[0]^{values[0]} * ...`.
pub open spec fn commit_spec(gens: Seq<u64>, h: u64, values: Seq<Fr>, blind: Fr) -> int {
    (gpow_spec((h as int) % (Q as int), blind.v as nat) * prod_pows(gens, values)) % (Q as int)
}

/// Commit to a vector of field elements under the given generators and
/// blinding.
pub fn commit(gens: &Vec<u64>, h: u64, values: &Vec<Fr>, blind: Fr) -> (r: u64)
    requires
        values@.len() <= gens@.len(),
    ensures
        r as int == commit_spec(gens@, h, values@, blind),
        r < Q,
{
    let mut acc: u64 = 1;
    let mut i: usize = values.len();
    proof {
        lemma_small_mod(1nat, Q as nat);
        assert(values@.skip(values@.len() as int) =~= Seq::<Fr>::empty());
    }
    while i > 0
        invariant
            i <= values@.len(),
            values@.len() <= gens@.len(),
            acc < Q,
            acc as int == prod_pows(gens@.skip(i as int), values@.skip(i as int)),
        decreases i,
    {
        i = i - 1;
        let ghost pre = acc as int;
        let term = gpow(gens[i], values[i].v);
        acc = gmul(term, acc);
        proof {
            assert(gens@.skip(i as int).drop_first() =~= gens@.skip(i + 1));
            assert(values@.skip(i as int).drop_first() =~= values@.skip(i + 1));
            assert(gens@.skip(i as int)[0] == gens@[i as int]);
            assert(values@.skip(i as int)[0] == values@[i as int]);
        }
    }
    proof {
        assert(gens@.skip(0) =~= gens@);
        assert(values@.skip(0) =~= values@);
    }
    let hb = gpow(h, blind.v);
    gmul(hb, acc)
}

/// Check an opening: true exactly when the commitment to `values` with
/// blinding `blind` equals `com`, so one commitment value accepts one
/// recomputed opening value.
pub fn verify_open(gens: &Vec<u64>, h: u64, com: u64, values: &Vec<Fr>, blind: Fr) -> (r: bool)
    requires
        values@.len() <= gens@.len(),
    ensures
        r == (commit_spec(gens@, h, values@, blind) == com as int),
{
    let c = commit(gens, h, values, blind);
    c == com
}

} // verus!
