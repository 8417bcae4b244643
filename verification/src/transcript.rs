//! The Fiat-Shamir transcript: a sponge over the scalar field.  Every
//! prover message is absorbed before the challenge that answers it is
//! squeezed, so a challenge is a deterministic function of the whole
//! transcript prefix.  The same structure, seeded instead of empty,
//! serves the zero-knowledge prover as its source of blinding values.

use crate::field::{Fr, P};
use vstd::arithmetic::div_mod::{lemma_add_mod_noop, lemma_small_mod};
use vstd::prelude::*;

verus! {

/// One absorption step: the state and the message are combined through
/// a cubing permutation with a round constant.
pub open spec fn mix(s: int, x: int) -> int {
    let t = (s + x) % (P as int);
    let u = (t * t) % (P as int);
    let w = (u * t) % (P as int);
    (w + t + 7) % (P as int)
}

/// The state after absorbing the whole of `xs` into state `s`.
pub open spec fn mix_all(s: int, xs: Seq<int>) -> int
    decreases xs.len(),
{
    if xs.len() == 0 {
        s
    } else {
        mix_all(mix(s, xs[0]), xs.drop_first())
    }
}

/// Absorbing a sequence and then one more value is one more step.
pub proof fn lemma_mix_all_snoc(s: int, xs: Seq<int>, x: int)
    ensures
        mix_all(s, xs.push(x)) == mix(mix_all(s, xs), x),
    decreases xs.len(),
{
    if xs.len() == 0 {
        assert(xs.push(x)[0] == x);
        assert(xs.push(x).drop_first() =~= Seq::<int>::empty());
        assert(mix_all(s, xs.push(x)) == mix_all(mix(s, x), xs.push(x).drop_first()));
    } else {
        assert(xs.push(x)[0] == xs[0]);
        assert(xs.push(x).drop_first() =~= xs.drop_first().push(x));
        lemma_mix_all_snoc(mix(s, xs[0]), xs.drop_first(), x);
        assert(mix_all(s, xs.push(x)) == mix_all(mix(s, xs[0]), xs.drop_first().push(x)));
    }
}

/// The Fiat-Shamir sponge state.
pub struct Transcript {
    pub s: Fr,
}

impl Transcript {
    /// A fresh transcript with the empty state.
    pub fn new() -> (r: Transcript)
        ensures
            r.s.val() == 0,
            r.s.reduced(),
    {
        Transcript { s: Fr::zero() }
    }

    /// A transcript whose state is seeded, used as a deterministic
    /// source of blinding values by the zero-knowledge prover.
    pub fn from_seed(seed: u64) -> (r: Transcript)
        ensures
            r.s.val() == (seed as int) % (P as int),
            r.s.reduced(),
    {
        Transcript { s: Fr::from_u64(seed) }
    }

    /// Absorb one field element into the state.
    pub fn absorb(&mut self, x: Fr)
        ensures
            final(self).s.val() == mix(old(self).s.val(), x.val()),
            final(self).s.reduced(),
    {
        let t = self.s.add(x);
        let u = t.mul(t);
        let w = u.mul(t);
        let out = w.add(t).add(Fr::from_u64(7));
        proof {
            let pi = P as int;
            lemma_small_mod(7nat, P as nat);
            lemma_add_mod_noop(w.val() + t.val(), 7, pi);
        }
        self.s = out;
    }

    /// Absorb every element of `xs`, in order.
    pub fn absorb_all(&mut self, xs: &Vec<Fr>)
        ensures
            final(self).s.val() == mix_all(old(self).s.val(), crate::evaluate::vals(xs@)),
    {
        let ghost start = self.s.val();
        let mut i: usize = 0;
        proof {
            assert(crate::evaluate::vals(xs@).take(0) =~= Seq::<int>::empty());
        }
        while i < xs.len()
            invariant
                i <= xs@.len(),
                self.s.val() == mix_all(start, crate::evaluate::vals(xs@).take(i as int)),
            decreases xs@.len() - i,
        {
            let ghost pre = crate::evaluate::vals(xs@).take(i as int);
            self.absorb(xs[i]);
            proof {
                lemma_mix_all_snoc(start, pre, crate::evaluate::vals(xs@)[i as int]);
                assert(crate::evaluate::vals(xs@).take(i + 1) =~= pre.push(
                    crate::evaluate::vals(xs@)[i as int],
                ));
            }
            i = i + 1;
        }
        proof {
            assert(crate::evaluate::vals(xs@).take(xs@.len() as int) =~= crate::evaluate::vals(
                xs@,
            ));
        }
    }

    /// Hand out the current state as a challenge and stir the state so
    /// that successive challenges differ.
    pub fn squeeze(&mut self) -> (r: Fr)
        ensures
            r == old(self).s,
            final(self).s.val() == mix(old(self).s.val(), 11),
            final(self).s.reduced(),
    {
        let c = self.s;
        proof {
            lemma_small_mod(11nat, P as nat);
    }
        self.absorb(Fr::from_u64(11));
        c
    }
}

} // verus!
