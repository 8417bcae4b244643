//! The public commitment parameters: a list of independent group
//! generators and one blinding generator, derived deterministically
//! from a setup seed and shared by the zero-knowledge prover and
//! verifier.  All generators lie in the order-`P` subgroup.

use crate::commitment::{gpow, gpow_spec, G0, Q};
use crate::field::P;
use crate::transcript::{mix, Transcript};
use vstd::prelude::*;

verus! {

/// The sponge state before the `j`-th setup draw: the seed reduced,
/// stirred `j` times.
pub open spec fn setup_state(seed: u64, j: nat) -> int
    decreases j,
{
    if j == 0 {
        (seed as int) % (P as int)
    } else {
        mix(setup_state(seed, (j - 1) as nat), 11)
    }
}

/// The `j`-th generator drawn from the seed: the subgroup generator
/// raised to the `j`-th sponge draw (with a zero draw replaced by one,
/// so no generator degenerates to the group identity's exponent zero).
pub open spec fn setup_gen(seed: u64, j: nat) -> int {
    let s = setup_state(seed, j);
    let e: nat = if s == 0 {
        1
    } else {
        s as nat
    };
    gpow_spec((G0 as int) % (Q as int), e)
}

/// The commitment key: `gens` for the committed vector's positions and
/// `h` for the blinding term.
pub struct Parameters {
    pub gens: Vec<u64>,
    pub h: u64,
}

impl Parameters {
    /// Generate parameters wide enough for vectors of `max_width`
    /// field elements (and never fewer than four positions, so that
    /// round masks can always be committed).  Every generator is
    /// pinned: position `j` holds the `j`-th seed-derived power of the
    /// subgroup generator, and the blinding generator the next one.
    pub fn new(seed: u64, max_width: usize) -> (r: Parameters)
        requires
            max_width <= 4096,
        ensures
            r.gens@.len() == if max_width < 4 {
                4int
            } else {
                max_width as int
            },
            forall|j: int| 0 <= j < r.gens@.len() ==> (#[trigger] r.gens@[j]) as int == setup_gen(
                seed,
                j as nat,
            ),
            r.h as int == setup_gen(seed, r.gens@.len() as nat),
            r.gens@.len() >= max_width,
            r.gens@.len() >= 4,
    {
        let mut tr = Transcript::from_seed(seed);
        let n: usize = if max_width < 4 {
            4
        } else {
            max_width
        };
        let mut gens: Vec<u64> = Vec::new();
        let mut i: usize = 0;
        while i < n
            invariant
                i <= n,
                gens@.len() == i,
                tr.s.val() == setup_state(seed, i as nat),
                forall|j: int| 0 <= j < i ==> (#[trigger] gens@[j]) as int == setup_gen(
                    seed,
                    j as nat,
                ),
            decreases n - i,
        {
            let s = tr.squeeze();
            let e: u64 = if s.v == 0 {
                1
            } else {
                s.v
            };
            let g = gpow(G0, e);
            let ghost pre = gens@;
            gens.push(g);
            proof {
                assert forall|j: int| 0 <= j < i + 1 implies (#[trigger] gens@[j]) as int
                    == setup_gen(seed, j as nat) by {
                    if j < i {
                        assert(gens@[j] == pre[j]);
                    }
                }
            }
            i = i + 1;
        }
        let sh = tr.squeeze();
        let eh: u64 = if sh.v == 0 {
            1
        } else {
            sh.v
        };
        let h = gpow(G0, eh);
        Parameters { gens, h }
    }
}

} // verus!
