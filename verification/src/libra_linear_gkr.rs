//! The linear GKR argument.  The prover evaluates the circuit, binds
//! the output into the transcript, and reduces a claim about the
//! output layer's multilinear extension down to the witness/input
//! layer, one sumcheck per layer.  The verifier replays the transcript,
//! checks every round equation and degree bound, evaluates the wiring
//! predicates itself, and finally evaluates the public witness/input
//! vector's extension at the last claim point.

use crate::circuit::{copy_vec, vals_at, Circuit};
use crate::evaluate::{eval_mle, mle, pad_vec, padded, poly_eval_spec, pow2_usize, vals};
use crate::field::{fadd, fmul, Fr, P};
use crate::sumcheck::{build_tables, log2c, log2_ceil, predicate_evals, predicate_sum, prove_layer};
use crate::transcript::{mix, mix_all, Transcript};
use vstd::arithmetic::power2::{lemma_pow2_adds, pow2};
use vstd::prelude::*;

verus! {

/// The transcript state stirred `j` times, as `j` challenge draws do.
pub open spec fn stir(t: int, j: nat) -> int
    decreases j,
{
    if j == 0 {
        t
    } else {
        mix(stir(t, (j - 1) as nat), 11)
    }
}

/// One sumcheck replay over a layer's round polynomials: whether every
/// degree bound and round equation `g(0) + g(1) = claim` holds, and the
/// final claim, transcript state and challenge sequence the replay
/// leaves behind.
pub open spec fn rounds_replay(polys: Seq<Seq<int>>, claim: int, t: int) -> (bool, int, int, Seq<
    int,
>)
    decreases polys.len(),
{
    if polys.len() == 0 {
        (true, claim, t, Seq::<int>::empty())
    } else {
        let p0 = polys[0];
        let pi = P as int;
        let ok0 = p0.len() <= 3 && fadd(poly_eval_spec(p0, 0) % pi, poly_eval_spec(p0, 1) % pi)
            == claim;
        let t1 = mix_all(t, p0);
        let rc = t1;
        let rest = rounds_replay(polys.drop_first(), poly_eval_spec(p0, rc) % pi, mix(t1, 11));
        (ok0 && rest.0, rest.1, rest.2, seq![rc] + rest.3)
    }
}

/// The round polynomials of one layer message, as integer sequences.
pub open spec fn layer_polys(l: LayerProof) -> Seq<Seq<int>> {
    l.polys@.map_values(|p: Vec<Fr>| vals(p@))
}

/// The replay of the layer reductions from `step` on: each layer's
/// sumcheck rounds, the wiring-predicate identity at the challenge
/// point, the transcript bookkeeping, and at the bottom the terminal
/// check of the public vector's extension at the final claim points.
pub open spec fn layers_replay(
    c: Circuit,
    layers: Seq<LayerProof>,
    step: int,
    u: Seq<int>,
    v: Seq<int>,
    alpha: int,
    beta: int,
    claim: int,
    t: int,
    io: Seq<int>,
) -> bool
    decreases layers.len() - step,
{
    if step < 0 || step >= layers.len() {
        true
    } else {
        let n = layers.len();
        let lidx = n - 1 - step;
        let k = log2c(c.prev_width(lidx));
        let layer = layers[step];
        let polys = layer_polys(layer);
        if polys.len() != 2 * k {
            false
        } else {
            let rr = rounds_replay(polys, claim, t);
            let rx = rr.3.take(k as int);
            let ry = rr.3.skip(k as int);
            let vx = layer.vx.val();
            let vy = layer.vy.val();
            let gates = c.layers@[lidx]@;
            let aw = predicate_sum(
                gates,
                gates.len() as int,
                crate::circuit::GateKind::Add,
                u,
                v,
                alpha,
                beta,
                rx,
                ry,
            );
            let mw = predicate_sum(
                gates,
                gates.len() as int,
                crate::circuit::GateKind::Mul,
                u,
                v,
                alpha,
                beta,
                rx,
                ry,
            );
            let expect = fadd(fmul(aw, fadd(vx, vy)), fmul(fmul(mw, vx), vy));
            if !rr.0 || rr.1 != expect {
                false
            } else {
                let t2 = mix(mix(rr.2, vx), vy);
                let alpha2 = t2;
                let beta2 = mix(t2, 11);
                let t4 = mix(mix(t2, 11), 11);
                if lidx == 0 {
                    vx == mle(padded(io, pow2(k)), rx) % (P as int) && vy == mle(
                        padded(io, pow2(k)),
                        ry,
                    ) % (P as int)
                } else {
                    layers_replay(
                        c,
                        layers,
                        step + 1,
                        rx,
                        ry,
                        alpha2,
                        beta2,
                        fadd(fmul(alpha2, vx), fmul(beta2, vy)),
                        t4,
                        io,
                    )
                }
            }
        }
    }
}

/// What acceptance means: the verifier accepts exactly when the claimed
/// shapes fit the circuit and the whole transcript replay goes through,
/// from the output-seeded challenges down to the terminal extension of
/// the public vector.
pub open spec fn verify_spec(proof: LinearGKRProof, c: Circuit, output: Seq<int>, io: Seq<
    int,
>) -> bool {
    let n = c.layers@.len() as int;
    if proof.layers@.len() != n {
        false
    } else if output.len() != c.layers@[n - 1]@.len() {
        false
    } else if io.len() != c.num_inputs + c.num_witnesses {
        false
    } else {
        let t0 = mix_all(0, output);
        let kz = log2c(c.layers@[n - 1]@.len());
        let u = Seq::new(kz, |i: int| stir(t0, i as nat));
        let claim0 = mle(padded(output, pow2(kz)), u) % (P as int);
        layers_replay(c, proof.layers@, 0, u, u, 1, 0, claim0, stir(t0, kz), io)
    }
}

/// The messages of one layer reduction: the round polynomials (each as
/// at most three coefficients, constant term first) and the two claimed
/// evaluations of the layer below at the challenge points.
#[derive(Clone, Debug, PartialEq, Eq)]
pub struct LayerProof {
    pub polys: Vec<Vec<Fr>>,
    pub vx: Fr,
    pub vy: Fr,
}

/// A complete proof: one layer reduction per circuit layer, ordered
/// from the output layer down.
#[derive(Clone, Debug, PartialEq, Eq)]
pub struct LinearGKRProof {
    pub layers: Vec<LayerProof>,
}

impl LinearGKRProof {
    /// Every round polynomial of the proof respects the degree bound:
    /// at most three coefficients, degree at most two.
    pub open spec fn degrees_ok(self) -> bool {
        forall|li: int, ri: int|
            0 <= li < self.layers@.len() && 0 <= ri < self.layers@[li].polys@.len() ==> (
            #[trigger] self.layers@[li].polys@[ri])@.len() <= 3
    }

    /// Produce a proof and the circuit output for the given inputs and
    /// witnesses.  The output vector is exactly the evaluated circuit's
    /// last layer.
    pub fn prover(circuit: &Circuit, inputs: &Vec<Fr>, witnesses: &Vec<Fr>) -> (r: (
        LinearGKRProof,
        Vec<Fr>,
    ))
        requires
            circuit.wf(),
            inputs@.len() == circuit.num_inputs,
            witnesses@.len() == circuit.num_witnesses,
        ensures
            r.0.layers@.len() == circuit.layers@.len(),
            r.0.degrees_ok(),
            vals(r.1@) == vals_at(
                *circuit,
                vals(witnesses@) + vals(inputs@),
                circuit.layers@.len(),
            ),
    {
        let ghost base = vals(witnesses@) + vals(inputs@);
        let n = circuit.layers.len();
        let allv = match circuit.evaluate(inputs, witnesses) {
            Ok(v) => v,
            Err(_) => {
                proof {
                    assert(false);
                }
                return (LinearGKRProof { layers: Vec::new() }, Vec::new());
            },
        };
        let output = copy_vec(&allv[n]);
        proof {
            assert(vals(output@) == vals_at(*circuit, base, n as nat));
            assert(vals_at(*circuit, base, n as nat).len() == circuit.layers@[n - 1]@.len());
            assert(output@.len() == vals(output@).len());
        }
        let mut tr = Transcript::new();
        tr.absorb_all(&output);
        let kz = log2_ceil(output.len());
        let mut u: Vec<Fr> = Vec::new();
        let mut i: usize = 0;
        while i < kz
            invariant
                i <= kz,
            decreases kz - i,
        {
            let c = tr.squeeze();
            u.push(c);
            i = i + 1;
        }
        let mut v = copy_vec(&u);
        let mut alpha = Fr::one();
        let mut beta = Fr::zero();
        let mut proof_layers: Vec<LayerProof> = Vec::new();
        let mut step: usize = 0;
        while step < n
            invariant
                step <= n,
                n == circuit.layers@.len(),
                circuit.wf(),
                base == vals(witnesses@) + vals(inputs@),
                inputs@.len() == circuit.num_inputs,
                witnesses@.len() == circuit.num_witnesses,
                allv@.len() == n + 1,
                forall|ii: int|
                    0 <= ii <= n ==> vals((#[trigger] allv@[ii])@) == vals_at(
                        *circuit,
                        base,
                        ii as nat,
                    ),
                proof_layers@.len() == step,
                forall|li: int, ri: int|
                    0 <= li < proof_layers@.len() && 0 <= ri
                        < proof_layers@[li].polys@.len() ==> (
                    #[trigger] proof_layers@[li].polys@[ri])@.len() <= 3,
            decreases n - step,
        {
            let lidx = n - 1 - step;
            let prev_w: usize = if lidx == 0 {
                circuit.num_inputs + circuit.num_witnesses
            } else {
                circuit.layers[lidx - 1].len()
            };
            proof {
                assert(vals(allv@[lidx as int]@) == vals_at(*circuit, base, lidx as nat));
                if lidx == 0 {
                    assert(vals_at(*circuit, base, 0).len() == witnesses@.len() + inputs@.len());
                } else {
                    assert(vals_at(*circuit, base, lidx as nat).len() == circuit.layers@[lidx
                        - 1]@.len());
                }
                assert(allv@[lidx as int]@.len() == prev_w);
            }
            let k = log2_ceil(prev_w);
            let xlen = pow2_usize(k);
            let prev_vals = &allv[lidx];
            let vx = pad_vec(prev_vals, xlen);
            let vy = copy_vec(&vx);
            proof {
                assert(forall|j: int|
                    0 <= j < circuit.layers@[lidx as int]@.len() ==> (
                    #[trigger] circuit.layers@[lidx as int]@[j]).left < prev_w
                        && circuit.layers@[lidx as int]@[j].right < prev_w);
            }
            proof {
                vstd::arithmetic::power2::lemma2_to64();
                if (k as nat) < 10 {
                    vstd::arithmetic::power2::lemma_pow2_strictly_increases(k as nat, 10);
                }
            }
            let (ta, tm) = build_tables(&circuit.layers[lidx], &u, &v, alpha, beta, xlen);
            proof {
                lemma_pow2_adds(k as nat, k as nat);
            }
            let (polys, vxe, vye, rx, ry) = prove_layer(ta, tm, vx, vy, k, k, &mut tr);
            tr.absorb(vxe);
            tr.absorb(vye);
            alpha = tr.squeeze();
            beta = tr.squeeze();
            u = rx;
            v = ry;
            let ghost pre_layers = proof_layers@;
            proof_layers.push(LayerProof { polys, vx: vxe, vy: vye });
            proof {
                assert forall|li: int, ri: int|
                    0 <= li < proof_layers@.len() && 0 <= ri
                        < proof_layers@[li].polys@.len() implies (
                #[trigger] proof_layers@[li].polys@[ri])@.len() <= 3 by {
                    if li < pre_layers.len() {
                        assert(proof_layers@[li] == pre_layers[li]);
                    }
                }
            }
            step = step + 1;
        }
        (LinearGKRProof { layers: proof_layers }, output)
    }

    /// Check the proof against the circuit, the claimed output, and the
    /// public vector: the witnesses followed by the inputs, concatenated
    /// in that exact order.  The result is exactly the transcript
    /// replay `verify_spec`: any failed round equation, degree bound,
    /// length, wiring-predicate identity, or terminal extension check
    /// rejects the whole proof, and a proof that replays cleanly is
    /// accepted.
    #[verifier::rlimit(100)]
    pub fn verify(&self, circuit: &Circuit, output: &Vec<Fr>, io: &Vec<Fr>) -> (r: bool)
        requires
            circuit.wf(),
        ensures
            r == verify_spec(*self, *circuit, vals(output@), vals(io@)),
            !self.degrees_ok() ==> r == false,
    {
        let ghost outv = vals(output@);
        let ghost iov = vals(io@);
        let n = circuit.layers.len();
        if self.layers.len() != n {
            return false;
        }
        let out_w = circuit.layers[n - 1].len();
        if output.len() != out_w {
            return false;
        }
        if io.len() != circuit.num_inputs + circuit.num_witnesses {
            return false;
        }
        let mut tr = Transcript::new();
        tr.absorb_all(output);
        let ghost t0 = mix_all(0, outv);
        let kz = log2_ceil(out_w);
        let mut u: Vec<Fr> = Vec::new();
        let mut i: usize = 0;
        while i < kz
            invariant
                i <= kz,
                kz <= 10,
                u@.len() == i,
                tr.s.val() == stir(t0, i as nat),
                forall|j: int| 0 <= j < i ==> #[trigger] vals(u@)[j] == stir(t0, j as nat),
            decreases kz - i,
        {
            let ghost pre = u@;
            let c = tr.squeeze();
            u.push(c);
            proof {
                assert forall|j: int| 0 <= j < i + 1 implies #[trigger] vals(u@)[j] == stir(
                    t0,
                    j as nat,
                ) by {
                    if j < i {
                        assert(u@[j] == pre[j]);
                        assert(vals(pre)[j] == stir(t0, j as nat));
                    }
                }
            }
            i = i + 1;
        }
        let v = copy_vec(&u);
        let mut uu = u;
        let mut vv = v;
        let mut alpha = Fr::one();
        let mut beta = Fr::zero();
        let mut claim = eval_mle(output, &uu);
        proof {
            assert(vals(uu@) =~= Seq::new(kz as nat, |j: int| stir(t0, j as nat)));
            assert(vals(vv@) =~= vals(uu@));
            vstd::arithmetic::div_mod::lemma_small_mod(0nat, P as nat);
            vstd::arithmetic::div_mod::lemma_small_mod(1nat, P as nat);
        }
        let mut step: usize = 0;
        while step < n
            invariant
                step <= n,
                n == circuit.layers@.len(),
                circuit.wf(),
                self.layers@.len() == n,
                outv == vals(output@),
                iov == vals(io@),
                io@.len() == circuit.num_inputs + circuit.num_witnesses,
                verify_spec(*self, *circuit, outv, iov) == layers_replay(
                    *circuit,
                    self.layers@,
                    step as int,
                    vals(uu@),
                    vals(vv@),
                    alpha.val(),
                    beta.val(),
                    claim.val(),
                    tr.s.val(),
                    iov,
                ),
                forall|li: int, ri: int|
                    0 <= li < step && 0 <= ri < self.layers@[li].polys@.len() ==> (
                    #[trigger] self.layers@[li].polys@[ri])@.len() <= 3,
            decreases n - step,
        {
            let lidx = n - 1 - step;
            let prev_w: usize = if lidx == 0 {
                circuit.num_inputs + circuit.num_witnesses
            } else {
                circuit.layers[lidx - 1].len()
            };
            proof {
                assert(prev_w == circuit.prev_width(lidx as int));
            }
            let k = log2_ceil(prev_w);
            let layer = &self.layers[step];
            let ghost polys_s = layer_polys(self.layers@[step as int]);
            let ghost claim_in = claim.val();
            let ghost t_in = tr.s.val();
            proof {
                assert(polys_s.len() == self.layers@[step as int].polys@.len());
            }
            if layer.polys.len() != 2 * k {
                proof {
                    assert(layers_replay(
                        *circuit,
                        self.layers@,
                        step as int,
                        vals(uu@),
                        vals(vv@),
                        alpha.val(),
                        beta.val(),
                        claim_in,
                        t_in,
                        iov,
                    ) == false);
                }
                return false;
            }
            let mut rx: Vec<Fr> = Vec::new();
            let mut ry: Vec<Fr> = Vec::new();
            let mut round: usize = 0;
            proof {
                assert(polys_s.skip(0) =~= polys_s);
            }
            while round < 2 * k
                invariant
                    round <= 2 * k,
                    k <= 10,
                    step < n,
                    n == circuit.layers@.len(),
                    circuit.wf(),
                    self.layers@.len() == n,
                    outv == vals(output@),
                    iov == vals(io@),
                    polys_s == layer_polys(self.layers@[step as int]),
                    polys_s.len() == 2 * k,
                    verify_spec(*self, *circuit, outv, iov) == layers_replay(
                        *circuit,
                        self.layers@,
                        step as int,
                        vals(uu@),
                        vals(vv@),
                        alpha.val(),
                        beta.val(),
                        claim_in,
                        t_in,
                        iov,
                    ),
                    rounds_replay(polys_s, claim_in, t_in).0 == rounds_replay(
                        polys_s.skip(round as int),
                        claim.val(),
                        tr.s.val(),
                    ).0,
                    rounds_replay(polys_s, claim_in, t_in).1 == rounds_replay(
                        polys_s.skip(round as int),
                        claim.val(),
                        tr.s.val(),
                    ).1,
                    rounds_replay(polys_s, claim_in, t_in).2 == rounds_replay(
                        polys_s.skip(round as int),
                        claim.val(),
                        tr.s.val(),
                    ).2,
                    rounds_replay(polys_s, claim_in, t_in).3 == vals(rx@) + vals(ry@)
                        + rounds_replay(polys_s.skip(round as int), claim.val(), tr.s.val()).3,
                    rx@.len() == if round <= k {
                        round as int
                    } else {
                        k as int
                    },
                    ry@.len() == if round <= k {
                        0int
                    } else {
                        round - k
                    },
                    forall|ri: int|
                        0 <= ri < round ==> (#[trigger] self.layers@[step as int].polys@[ri])@.len()
                            <= 3,
                decreases 2 * k - round,
            {
                let layer = &self.layers[step];
                let poly = &layer.polys[round];
                let ghost rem = polys_s.skip(round as int);
                let ghost claim_r = claim.val();
                let ghost t_r = tr.s.val();
                proof {
                    assert(rem[0] == polys_s[round as int]);
                    assert(polys_s[round as int] == vals(layer.polys@[round as int]@));
                    assert(rem.drop_first() =~= polys_s.skip(round + 1));
                }
                if poly.len() > 3 {
                    proof {
                        assert(rounds_replay(rem, claim_r, t_r).0 == false);
                        assert(layers_replay(
                            *circuit,
                            self.layers@,
                            step as int,
                            vals(uu@),
                            vals(vv@),
                            alpha.val(),
                            beta.val(),
                            claim_in,
                            t_in,
                            iov,
                        ) == false);
                    }
                    return false;
                }
                let s = crate::evaluate::poly_eval(poly, Fr::zero()).add(
                    crate::evaluate::poly_eval(poly, Fr::one()),
                );
                if !(s.v == claim.v) {
                    proof {
                        assert(rounds_replay(rem, claim_r, t_r).0 == false);
                        assert(layers_replay(
                            *circuit,
                            self.layers@,
                            step as int,
                            vals(uu@),
                            vals(vv@),
                            alpha.val(),
                            beta.val(),
                            claim_in,
                            t_in,
                            iov,
                        ) == false);
                    }
                    return false;
                }
                tr.absorb_all(poly);
                let rc = tr.squeeze();
                claim = crate::evaluate::poly_eval(poly, rc);
                let ghost pre_rx = rx@;
                let ghost pre_ry = ry@;
                if round < k {
                    rx.push(rc);
                } else {
                    ry.push(rc);
                }
                proof {
                    assert(rounds_replay(rem, claim_r, t_r).0 == rounds_replay(
                        polys_s.skip(round + 1),
                        claim.val(),
                        tr.s.val(),
                    ).0);
                    if round < k {
                        assert(pre_ry.len() == 0);
                        assert(vals(ry@) =~= Seq::<int>::empty());
                        assert(vals(rx@) =~= vals(pre_rx).push(rc.val()));
                        assert(vals(pre_rx) + vals(pre_ry) + (seq![rc.val()] + rounds_replay(
                            polys_s.skip(round + 1),
                            claim.val(),
                            tr.s.val(),
                        ).3) =~= vals(rx@) + vals(ry@) + rounds_replay(
                            polys_s.skip(round + 1),
                            claim.val(),
                            tr.s.val(),
                        ).3);
                    } else {
                        assert(vals(rx@) == vals(pre_rx));
                        assert(vals(ry@) =~= vals(pre_ry).push(rc.val()));
                        assert(vals(pre_rx) + vals(pre_ry) + (seq![rc.val()] + rounds_replay(
                            polys_s.skip(round + 1),
                            claim.val(),
                            tr.s.val(),
                        ).3) =~= vals(rx@) + vals(ry@) + rounds_replay(
                            polys_s.skip(round + 1),
                            claim.val(),
                            tr.s.val(),
                        ).3);
                    }
                }
                round = round + 1;
            }
            proof {
                assert(polys_s.skip(2 * k) =~= Seq::<Seq<int>>::empty());
                assert(rounds_replay(polys_s, claim_in, t_in).3 =~= vals(rx@) + vals(ry@));
                assert((vals(rx@) + vals(ry@)).take(k as int) =~= vals(rx@));
                assert((vals(rx@) + vals(ry@)).skip(k as int) =~= vals(ry@));
            }
            let layer = &self.layers[step];
            let ghost rrf = rounds_replay(polys_s, claim_in, t_in);
            let ghost u_in = vals(uu@);
            let ghost v_in = vals(vv@);
            let ghost a_in = alpha.val();
            let ghost b_in = beta.val();
            proof {
                assert(rrf.0 == true);
                assert(rrf.1 == claim.val());
                assert(rrf.2 == tr.s.val());
                assert(rrf.3.take(k as int) =~= vals(rx@));
                assert(rrf.3.skip(k as int) =~= vals(ry@));
                assert((k as nat) == log2c(circuit.prev_width(lidx as int)));
            }
            let (aw, mw) = predicate_evals(&circuit.layers[lidx], &uu, &vv, alpha, beta, &rx, &ry);
            let expect = aw.mul(layer.vx.add(layer.vy)).add(mw.mul(layer.vx).mul(layer.vy));
            if !(claim.v == expect.v) {
                proof {
                    assert(layers_replay(
                        *circuit,
                        self.layers@,
                        step as int,
                        u_in,
                        v_in,
                        a_in,
                        b_in,
                        claim_in,
                        t_in,
                        iov,
                    ) == false);
                }
                return false;
            }
            let ghost t_mid = tr.s.val();
            tr.absorb(layer.vx);
            tr.absorb(layer.vy);
            alpha = tr.squeeze();
            beta = tr.squeeze();
            proof {
                assert(alpha.val() == mix(mix(t_mid, layer.vx.val()), layer.vy.val()));
                assert(beta.val() == mix(alpha.val(), 11));
                assert(tr.s.val() == mix(mix(alpha.val(), 11), 11));
            }
            let ghost rx_s = vals(rx@);
            let ghost ry_s = vals(ry@);
            if lidx == 0 {
                let wx = eval_mle(io, &rx);
                let wy = eval_mle(io, &ry);
                proof {
                    assert(rx@.len() == k);
                    assert(ry@.len() == k);
                    assert(wx.val() == mle(padded(iov, pow2(k as nat)), rx_s) % (P as int));
                    assert(wy.val() == mle(padded(iov, pow2(k as nat)), ry_s) % (P as int));
                }
                if !(layer.vx.v == wx.v && layer.vy.v == wy.v) {
                    proof {
                        assert(layers_replay(
                            *circuit,
                            self.layers@,
                            step as int,
                            u_in,
                            v_in,
                            a_in,
                            b_in,
                            claim_in,
                            t_in,
                            iov,
                        ) == false);
                    }
                    return false;
                }
                proof {
                    assert(layers_replay(
                        *circuit,
                        self.layers@,
                        step as int,
                        u_in,
                        v_in,
                        a_in,
                        b_in,
                        claim_in,
                        t_in,
                        iov,
                    ) == true);
                }
            } else {
                claim = alpha.mul(layer.vx).add(beta.mul(layer.vy));
                proof {
                    assert(layers_replay(
                        *circuit,
                        self.layers@,
                        step as int,
                        u_in,
                        v_in,
                        a_in,
                        b_in,
                        claim_in,
                        t_in,
                        iov,
                    ) == layers_replay(
                        *circuit,
                        self.layers@,
                        step + 1,
                        rx_s,
                        ry_s,
                        alpha.val(),
                        beta.val(),
                        claim.val(),
                        tr.s.val(),
                        iov,
                    ));
                }
            }
            uu = rx;
            vv = ry;
            step = step + 1;
        }
        true
    }
}

} // verus!
