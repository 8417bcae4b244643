//! The zero-knowledge variant of the linear GKR argument.  The witness
//! vector is never sent: it is bound by a Pedersen commitment absorbed
//! into the transcript before anything else.  Every round polynomial is
//! blinded by a random degree-two mask whose coefficients are committed
//! before the round challenge is derived and opened in the proof, so
//! the verifier's round check is against the opened commitment.  The
//! terminal check is a sigma-protocol opening of the committed witness
//! against the linear form that the final claim points induce, so the
//! witness values stay hidden behind one-time randomness.

use crate::circuit::{copy_vec, vals_at, Circuit};
use crate::commitment::{commit, gmul, gpow, verify_open};
use crate::evaluate::{chi_eval, eval_mle, pad_vec, poly_eval, pow2_usize, vals};
use crate::field::Fr;
use crate::params::Parameters;
use crate::sumcheck::{build_tables, fold_vec, interpolate3, log2_ceil, predicate_evals,
    round_evals_x, round_evals_y};
use crate::transcript::Transcript;
use vstd::arithmetic::power2::{lemma2_to64, lemma_pow2_adds, lemma_pow2_pos,
    lemma_pow2_strictly_increases, lemma_pow2_unfold, pow2};
use vstd::prelude::*;

verus! {

/// One blinded sumcheck round: the blinded polynomial, the mask's
/// commitment (made before the challenge), and the mask's opening.
#[derive(Clone, Debug, PartialEq, Eq)]
pub struct ZKRound {
    pub poly: Vec<Fr>,
    pub mask: Vec<Fr>,
    pub mask_comm: u64,
    pub mask_blind: Fr,
}

/// One layer reduction of the zero-knowledge argument.
#[derive(Clone, Debug, PartialEq, Eq)]
pub struct ZKLayerProof {
    pub rounds: Vec<ZKRound>,
    pub vx: Fr,
    pub vy: Fr,
}

/// A complete zero-knowledge proof: the witness commitment, one layer
/// reduction per circuit layer, and the terminal opening responses.
#[derive(Clone, Debug, PartialEq, Eq)]
pub struct ZKLinearGKRProof {
    pub comm_witness: u64,
    pub layers: Vec<ZKLayerProof>,
    pub open_t: u64,
    pub open_a: Fr,
    pub open_z: Vec<Fr>,
    pub open_zr: Fr,
}

impl ZKLinearGKRProof {
    /// Every blinded round polynomial respects the degree bound.
    pub open spec fn degrees_ok(self) -> bool {
        forall|li: int, ri: int|
            0 <= li < self.layers@.len() && 0 <= ri < self.layers@[li].rounds@.len() ==> (
            #[trigger] self.layers@[li].rounds@[ri]).poly@.len() <= 3
    }
}

/// The inner product of two equally long vectors of field elements.
fn inner_product(a: &Vec<Fr>, b: &Vec<Fr>) -> (r: Fr)
    requires
        a@.len() == b@.len(),
{
    let mut acc = Fr::zero();
    let mut i: usize = 0;
    while i < a.len()
        invariant
            i <= a@.len(),
            a@.len() == b@.len(),
        decreases a@.len() - i,
    {
        acc = acc.add(a[i].mul(b[i]));
        i = i + 1;
    }
    acc
}

/// The blinded sumcheck rounds of one layer: like the plain layer
/// prover, but each round polynomial is masked and the mask committed
/// before the challenge is squeezed.
fn zk_prove_layer(
    gens: &Vec<u64>,
    h: u64,
    ta0: Vec<Fr>,
    tm0: Vec<Fr>,
    vx0: Vec<Fr>,
    vy0: Vec<Fr>,
    kx: usize,
    ky: usize,
    tr: &mut Transcript,
    rng: &mut Transcript,
) -> (r: (Vec<ZKRound>, Fr, Fr, Vec<Fr>, Vec<Fr>))
    requires
        kx <= 10,
        ky <= 10,
        gens@.len() >= 3,
        vx0@.len() == pow2(kx as nat),
        vy0@.len() == pow2(ky as nat),
        ta0@.len() == pow2((kx + ky) as nat),
        tm0@.len() == ta0@.len(),
    ensures
        r.0@.len() == kx + ky,
        forall|i: int| 0 <= i < r.0@.len() ==> (#[trigger] r.0@[i]).poly@.len() == 3,
        r.3@.len() == kx,
        r.4@.len() == ky,
{
    let mut ta = ta0;
    let mut tm = tm0;
    let mut vx = vx0;
    let mut vy = vy0;
    let mut rounds: Vec<ZKRound> = Vec::new();
    let mut rx: Vec<Fr> = Vec::new();
    let mut ry: Vec<Fr> = Vec::new();
    let mut i: usize = 0;
    while i < kx
        invariant
            i <= kx,
            kx <= 10,
            ky <= 10,
            gens@.len() >= 3,
            vx@.len() == pow2((kx - i) as nat),
            vy@.len() == pow2(ky as nat),
            ta@.len() == pow2(((kx - i) + ky) as nat),
            tm@.len() == ta@.len(),
            rounds@.len() == i,
            rx@.len() == i,
            forall|j: int| 0 <= j < rounds@.len() ==> (#[trigger] rounds@[j]).poly@.len() == 3,
        decreases kx - i,
    {
        proof {
            lemma2_to64();
            lemma_pow2_unfold((kx - i) as nat);
            lemma_pow2_unfold(((kx - i) + ky) as nat);
            lemma_pow2_adds((kx - i) as nat, ky as nat);
            lemma_pow2_pos(((kx - i) - 1) as nat);
            if ((kx - i) as nat) < 20 {
                lemma_pow2_strictly_increases((kx - i) as nat, 20);
            }
            if (((kx - i) + ky) as nat) < 20 {
                lemma_pow2_strictly_increases(((kx - i) + ky) as nat, 20);
            }
            if (ky as nat) < 20 {
                lemma_pow2_strictly_increases(ky as nat, 20);
            }
        }
        let (g0, g1, g2) = round_evals_x(&ta, &tm, &vx, &vy);
        let poly = interpolate3(g0, g1, g2);
        let m0 = rng.squeeze();
        let m1 = rng.squeeze();
        let m2 = rng.squeeze();
        let rho = rng.squeeze();
        let mut mask: Vec<Fr> = Vec::new();
        mask.push(m0);
        mask.push(m1);
        mask.push(m2);
        let dm = commit(gens, h, &mask, rho);
        let mut bp: Vec<Fr> = Vec::new();
        bp.push(poly[0].add(m0));
        bp.push(poly[1].add(m1));
        bp.push(poly[2].add(m2));
        tr.absorb_all(&bp);
        tr.absorb(Fr::from_u64(dm));
        let rc = tr.squeeze();
        let ghost pre_rounds = rounds@;
        rounds.push(ZKRound { poly: bp, mask, mask_comm: dm, mask_blind: rho });
        rx.push(rc);
        ta = fold_vec(&ta, rc);
        tm = fold_vec(&tm, rc);
        vx = fold_vec(&vx, rc);
        proof {
            assert forall|j: int|
                0 <= j < rounds@.len() implies (#[trigger] rounds@[j]).poly@.len() == 3 by {
                if j < pre_rounds.len() {
                    assert(rounds@[j] == pre_rounds[j]);
                }
            }
        }
        i = i + 1;
    }
    proof {
        lemma2_to64();
    }
    let vxe = vx[0];
    let mut i: usize = 0;
    while i < ky
        invariant
            i <= ky,
            ky <= 10,
            kx <= 10,
            gens@.len() >= 3,
            vy@.len() == pow2((ky - i) as nat),
            ta@.len() == pow2((ky - i) as nat),
            tm@.len() == ta@.len(),
            rounds@.len() == kx + i,
            rx@.len() == kx,
            ry@.len() == i,
            forall|j: int| 0 <= j < rounds@.len() ==> (#[trigger] rounds@[j]).poly@.len() == 3,
        decreases ky - i,
    {
        proof {
            lemma2_to64();
            lemma_pow2_unfold((ky - i) as nat);
            lemma_pow2_pos(((ky - i) - 1) as nat);
            if ((ky - i) as nat) < 20 {
                lemma_pow2_strictly_increases((ky - i) as nat, 20);
            }
        }
        let (g0, g1, g2) = round_evals_y(&ta, &tm, &vy, vxe);
        let poly = interpolate3(g0, g1, g2);
        let m0 = rng.squeeze();
        let m1 = rng.squeeze();
        let m2 = rng.squeeze();
        let rho = rng.squeeze();
        let mut mask: Vec<Fr> = Vec::new();
        mask.push(m0);
        mask.push(m1);
        mask.push(m2);
        let dm = commit(gens, h, &mask, rho);
        let mut bp: Vec<Fr> = Vec::new();
        bp.push(poly[0].add(m0));
        bp.push(poly[1].add(m1));
        bp.push(poly[2].add(m2));
        tr.absorb_all(&bp);
        tr.absorb(Fr::from_u64(dm));
        let rc = tr.squeeze();
        let ghost pre_rounds = rounds@;
        rounds.push(ZKRound { poly: bp, mask, mask_comm: dm, mask_blind: rho });
        ry.push(rc);
        ta = fold_vec(&ta, rc);
        tm = fold_vec(&tm, rc);
        vy = fold_vec(&vy, rc);
        proof {
            assert forall|j: int|
                0 <= j < rounds@.len() implies (#[trigger] rounds@[j]).poly@.len() == 3 by {
                if j < pre_rounds.len() {
                    assert(rounds@[j] == pre_rounds[j]);
                }
            }
        }
        i = i + 1;
    }
    proof {
        lemma2_to64();
    }
    let vye = vy[0];
    (rounds, vxe, vye, rx, ry)
}

impl ZKLinearGKRProof {
    /// Produce a zero-knowledge proof and the circuit output.  The
    /// blinding values are drawn from a sponge seeded with `seed`, so
    /// different seeds give different proofs of the same statement.
    pub fn prover(
        params: &Parameters,
        circuit: &Circuit,
        inputs: &Vec<Fr>,
        witnesses: &Vec<Fr>,
        seed: u64,
    ) -> (r: (ZKLinearGKRProof, Vec<Fr>))
        requires
            circuit.wf(),
            inputs@.len() == circuit.num_inputs,
            witnesses@.len() == circuit.num_witnesses,
            params.gens@.len() >= circuit.num_witnesses,
            params.gens@.len() >= 4,
        ensures
            r.0.layers@.len() == circuit.layers@.len(),
            r.0.degrees_ok(),
            vals(r.1@) == vals_at(
                *circuit,
                vals(witnesses@) + vals(inputs@),
                circuit.layers@.len(),
            ),
    {
        let ghost base = vals(witnesses@) + vals(inputs@);
        let n = circuit.layers.len();
        let biglen = params.gens.len();
        let mut rng = Transcript::from_seed(seed);
        let wvec = pad_vec(witnesses, biglen);
        let rw = rng.squeeze();
        let cw = commit(&params.gens, params.h, &wvec, rw);
        let allv = match circuit.evaluate(inputs, witnesses) {
            Ok(v) => v,
            Err(_) => {
                proof {
                    assert(false);
                }
                return (
                    ZKLinearGKRProof {
                        comm_witness: 0,
                        layers: Vec::new(),
                        open_t: 0,
                        open_a: Fr::zero(),
                        open_z: Vec::new(),
                        open_zr: Fr::zero(),
                    },
                    Vec::new(),
                );
            },
        };
        let output = copy_vec(&allv[n]);
        proof {
            assert(vals(output@) == vals_at(*circuit, base, n as nat));
            assert(vals_at(*circuit, base, n as nat).len() == circuit.layers@[n - 1]@.len());
        }
        let mut tr = Transcript::new();
        tr.absorb(Fr::from_u64(cw));
        tr.absorb_all(&output);
        let kz = log2_ceil(output.len());
        let mut u: Vec<Fr> = Vec::new();
        let mut i: usize = 0;
        while i < kz
            invariant
                i <= kz,
            decreases kz - i,
        {
            let c = tr.squeeze();
            u.push(c);
            i = i + 1;
        }
        let mut v = copy_vec(&u);
        let mut alpha = Fr::one();
        let mut beta = Fr::zero();
        let mut proof_layers: Vec<ZKLayerProof> = Vec::new();
        let mut step: usize = 0;
        while step < n
            invariant
                step <= n,
                n == circuit.layers@.len(),
                circuit.wf(),
                base == vals(witnesses@) + vals(inputs@),
                inputs@.len() == circuit.num_inputs,
                witnesses@.len() == circuit.num_witnesses,
                params.gens@.len() >= 4,
                allv@.len() == n + 1,
                forall|ii: int|
                    0 <= ii <= n ==> vals((#[trigger] allv@[ii])@) == vals_at(
                        *circuit,
                        base,
                        ii as nat,
                    ),
                proof_layers@.len() == step,
                forall|li: int, ri: int|
                    0 <= li < proof_layers@.len() && 0 <= ri
                        < proof_layers@[li].rounds@.len() ==> (
                    #[trigger] proof_layers@[li].rounds@[ri]).poly@.len() <= 3,
            decreases n - step,
        {
            let lidx = n - 1 - step;
            let prev_w: usize = if lidx == 0 {
                circuit.num_inputs + circuit.num_witnesses
            } else {
                circuit.layers[lidx - 1].len()
            };
            proof {
                assert(vals(allv@[lidx as int]@) == vals_at(*circuit, base, lidx as nat));
                if lidx == 0 {
                    assert(vals_at(*circuit, base, 0).len() == witnesses@.len() + inputs@.len());
                } else {
                    assert(vals_at(*circuit, base, lidx as nat).len() == circuit.layers@[lidx
                        - 1]@.len());
                }
                assert(allv@[lidx as int]@.len() == prev_w);
            }
            let k = log2_ceil(prev_w);
            let xlen = pow2_usize(k);
            let prev_vals = &allv[lidx];
            let vx = pad_vec(prev_vals, xlen);
            let vy = copy_vec(&vx);
            proof {
                assert(forall|j: int|
                    0 <= j < circuit.layers@[lidx as int]@.len() ==> (
                    #[trigger] circuit.layers@[lidx as int]@[j]).left < prev_w
                        && circuit.layers@[lidx as int]@[j].right < prev_w);
                lemma2_to64();
                if (k as nat) < 10 {
                    lemma_pow2_strictly_increases(k as nat, 10);
                }
            }
            let (ta, tm) = build_tables(&circuit.layers[lidx], &u, &v, alpha, beta, xlen);
            proof {
                lemma_pow2_adds(k as nat, k as nat);
            }
            let (rounds, vxe, vye, rx, ry) = zk_prove_layer(
                &params.gens,
                params.h,
                ta,
                tm,
                vx,
                vy,
                k,
                k,
                &mut tr,
                &mut rng,
            );
            tr.absorb(vxe);
            tr.absorb(vye);
            alpha = tr.squeeze();
            beta = tr.squeeze();
            u = rx;
            v = ry;
            let ghost pre_layers = proof_layers@;
            proof_layers.push(ZKLayerProof { rounds, vx: vxe, vy: vye });
            proof {
                assert forall|li: int, ri: int|
                    0 <= li < proof_layers@.len() && 0 <= ri
                        < proof_layers@[li].rounds@.len() implies (
                #[trigger] proof_layers@[li].rounds@[ri]).poly@.len() <= 3 by {
                    if li < pre_layers.len() {
                        assert(proof_layers@[li] == pre_layers[li]);
                    }
                }
            }
            step = step + 1;
        }
        // terminal opening: prove that the committed witness explains the
        // final two claims, without revealing it
        let nw = circuit.num_witnesses;
        let mut lam: Vec<Fr> = Vec::new();
        let mut j: usize = 0;
        while j < biglen
            invariant
                j <= biglen,
                lam@.len() == j,
            decreases biglen - j,
        {
            if j < nw {
                lam.push(alpha.mul(chi_eval(&u, j)).add(beta.mul(chi_eval(&v, j))));
            } else {
                lam.push(Fr::zero());
            }
            j = j + 1;
        }
        let mut t: Vec<Fr> = Vec::new();
        let mut j: usize = 0;
        while j < biglen
            invariant
                j <= biglen,
                t@.len() == j,
            decreases biglen - j,
        {
            t.push(rng.squeeze());
            j = j + 1;
        }
        let rt = rng.squeeze();
        let tcom = commit(&params.gens, params.h, &t, rt);
        let aval = inner_product(&t, &lam);
        tr.absorb(Fr::from_u64(tcom));
        tr.absorb(aval);
        let e = tr.squeeze();
        let mut z: Vec<Fr> = Vec::new();
        let mut j: usize = 0;
        while j < biglen
            invariant
                j <= biglen,
                z@.len() == j,
                t@.len() == biglen,
                wvec@.len() == biglen,
            decreases biglen - j,
        {
            z.push(t[j].add(e.mul(wvec[j])));
            j = j + 1;
        }
        let zr = rt.add(e.mul(rw));
        (
            ZKLinearGKRProof {
                comm_witness: cw,
                layers: proof_layers,
                open_t: tcom,
                open_a: aval,
                open_z: z,
                open_zr: zr,
            },
            output,
        )
    }

    /// Check a zero-knowledge proof against the circuit, the claimed
    /// output, and the public inputs alone: the witness enters only
    /// through its commitment.  Every failed round equation, degree
    /// bound, mask opening, wiring identity, or terminal opening check
    /// rejects the proof.
    pub fn verify(
        &self,
        params: &Parameters,
        circuit: &Circuit,
        output: &Vec<Fr>,
        inputs: &Vec<Fr>,
    ) -> (r: bool)
        requires
            circuit.wf(),
        ensures
            !self.degrees_ok() ==> r == false,
            self.layers@.len() != circuit.layers@.len() ==> r == false,
            inputs@.len() != circuit.num_inputs ==> r == false,
    {
        let n = circuit.layers.len();
        if self.layers.len() != n {
            return false;
        }
        let out_w = circuit.layers[n - 1].len();
        if output.len() != out_w {
            return false;
        }
        if inputs.len() != circuit.num_inputs {
            return false;
        }
        if params.gens.len() < circuit.num_witnesses || params.gens.len() < 4 {
            return false;
        }
        let biglen = params.gens.len();
        let mut tr = Transcript::new();
        tr.absorb(Fr::from_u64(self.comm_witness));
        tr.absorb_all(output);
        let kz = log2_ceil(out_w);
        let mut u: Vec<Fr> = Vec::new();
        let mut i: usize = 0;
        while i < kz
            invariant
                i <= kz,
                kz <= 10,
                u@.len() == i,
            decreases kz - i,
        {
            let c = tr.squeeze();
            u.push(c);
            i = i + 1;
        }
        let mut v = copy_vec(&u);
        let mut alpha = Fr::one();
        let mut beta = Fr::zero();
        let mut claim = eval_mle(output, &u);
        let mut last_vx = Fr::zero();
        let mut last_vy = Fr::zero();
        let mut lrx: Vec<Fr> = Vec::new();
        let mut lry: Vec<Fr> = Vec::new();
        let mut step: usize = 0;
        while step < n
            invariant
                step <= n,
                n == circuit.layers@.len(),
                circuit.wf(),
                self.layers@.len() == n,
                inputs@.len() == circuit.num_inputs,
                params.gens@.len() == biglen,
                biglen >= 4,
                biglen >= circuit.num_witnesses,
                forall|li: int, ri: int|
                    0 <= li < step && 0 <= ri < self.layers@[li].rounds@.len() ==> (
                    #[trigger] self.layers@[li].rounds@[ri]).poly@.len() <= 3,
            decreases n - step,
        {
            let lidx = n - 1 - step;
            let prev_w: usize = if lidx == 0 {
                circuit.num_inputs + circuit.num_witnesses
            } else {
                circuit.layers[lidx - 1].len()
            };
            let k = log2_ceil(prev_w);
            if self.layers[step].rounds.len() != 2 * k {
                return false;
            }
            let mut rx: Vec<Fr> = Vec::new();
            let mut ry: Vec<Fr> = Vec::new();
            let mut round: usize = 0;
            while round < 2 * k
                invariant
                    round <= 2 * k,
                    k <= 10,
                    step < n,
                    self.layers@.len() == n,
                    params.gens@.len() == biglen,
                    biglen >= 4,
                    self.layers@[step as int].rounds@.len() == 2 * k,
                    rx@.len() == if round <= k {
                        round as int
                    } else {
                        k as int
                    },
                    ry@.len() == if round <= k {
                        0int
                    } else {
                        round - k
                    },
                    forall|ri: int|
                        0 <= ri < round ==> (#[trigger] self.layers@[step as int].rounds@[ri]).poly@.len()
                            <= 3,
                decreases 2 * k - round,
            {
                let layer = &self.layers[step];
                let rd = &layer.rounds[round];
                if rd.poly.len() > 3 {
                    return false;
                }
                if rd.mask.len() != 3 {
                    return false;
                }
                if !verify_open(&params.gens, params.h, rd.mask_comm, &rd.mask, rd.mask_blind) {
                    return false;
                }
                let s = poly_eval(&rd.poly, Fr::zero()).add(poly_eval(&rd.poly, Fr::one()));
                let ms = poly_eval(&rd.mask, Fr::zero()).add(poly_eval(&rd.mask, Fr::one()));
                if !(s.v == claim.add(ms).v) {
                    return false;
                }
                tr.absorb_all(&rd.poly);
                tr.absorb(Fr::from_u64(rd.mask_comm));
                let rc = tr.squeeze();
                claim = poly_eval(&rd.poly, rc).sub(poly_eval(&rd.mask, rc));
                if round < k {
                    rx.push(rc);
                } else {
                    ry.push(rc);
                }
                round = round + 1;
            }
            let layer = &self.layers[step];
            let (aw, mw) = predicate_evals(&circuit.layers[lidx], &u, &v, alpha, beta, &rx, &ry);
            let expect = aw.mul(layer.vx.add(layer.vy)).add(mw.mul(layer.vx).mul(layer.vy));
            if !(claim.v == expect.v) {
                return false;
            }
            tr.absorb(layer.vx);
            tr.absorb(layer.vy);
            alpha = tr.squeeze();
            beta = tr.squeeze();
            last_vx = layer.vx;
            last_vy = layer.vy;
            if lidx > 0 {
                claim = alpha.mul(layer.vx).add(beta.mul(layer.vy));
            }
            u = rx;
            v = ry;
            step = step + 1;
        }
        // terminal opening check against the committed witness
        let nw = circuit.num_witnesses;
        let ni = circuit.num_inputs;
        let mut pubx = Fr::zero();
        let mut puby = Fr::zero();
        let mut j: usize = 0;
        while j < ni
            invariant
                j <= ni,
                ni == inputs@.len(),
                nw <= 1024,
                ni <= 1024,
            decreases ni - j,
        {
            pubx = pubx.add(inputs[j].mul(chi_eval(&u, nw + j)));
            puby = puby.add(inputs[j].mul(chi_eval(&v, nw + j)));
            j = j + 1;
        }
        let cx = last_vx.sub(pubx);
        let cy = last_vy.sub(puby);
        let cc = alpha.mul(cx).add(beta.mul(cy));
        let mut lam: Vec<Fr> = Vec::new();
        let mut j: usize = 0;
        while j < biglen
            invariant
                j <= biglen,
                lam@.len() == j,
                nw <= biglen,
            decreases biglen - j,
        {
            if j < nw {
                lam.push(alpha.mul(chi_eval(&u, j)).add(beta.mul(chi_eval(&v, j))));
            } else {
                lam.push(Fr::zero());
            }
            j = j + 1;
        }
        tr.absorb(Fr::from_u64(self.open_t));
        tr.absorb(self.open_a);
        let e = tr.squeeze();
        if self.open_z.len() != biglen {
            return false;
        }
        let lhs = commit(&params.gens, params.h, &self.open_z, self.open_zr);
        let rhs = gmul(self.open_t, gpow(self.comm_witness, e.v));
        if lhs != rhs {
            return false;
        }
        let zl = inner_product(&self.open_z, &lam);
        if !(zl.v == self.open_a.add(e.mul(cc)).v) {
            return false;
        }
        true
    }
}

} // verus!
