//! The sumcheck engine for one layer reduction.  The summed polynomial
//! is `A(x,y) * (Vx(x) + Vy(y)) + M(x,y) * Vx(x) * Vy(y)`, where `A`
//! and `M` are the combined add and mul wiring predicates and `Vx`,
//! `Vy` are the multilinear extension tables of the layer below.  Each
//! round sends a univariate polynomial of degree at most two, absorbs
//! it into the transcript, and folds every table at the challenge.

use crate::circuit::{Gate, GateKind};
use crate::evaluate::{chi, chi_eval, fold_step, vals};
use crate::field::{fadd, fmul, Fr, P};
use crate::transcript::Transcript;
use vstd::arithmetic::div_mod::{lemma_add_mod_noop, lemma_mul_mod_noop_general, lemma_small_mod};
use vstd::arithmetic::power2::{lemma2_to64, lemma_pow2_adds, lemma_pow2_pos,
    lemma_pow2_strictly_increases, lemma_pow2_unfold, pow2};
use vstd::prelude::*;

verus! {

/// The inverse of two in the field: `(P + 1) / 2`.
pub const INV2: u64 = 0x0FFF_FFFF_FFFF_F5AF;

/// The number of variables needed to index `w` wire positions: the
/// smallest `k` with `2^k >= w`.
pub open spec fn log2c(w: nat) -> nat
    decreases w,
{
    if w <= 1 {
        0
    } else {
        (1 + log2c(((w + 1) / 2) as nat)) as nat
    }
}

/// `log2c` computes what its name says: `2^log2c(w)` reaches `w` and
/// no smaller power of two does.
pub proof fn lemma_log2c_bounds(w: nat)
    requires
        w >= 1,
    ensures
        pow2(log2c(w)) >= w,
        log2c(w) == 0 || pow2((log2c(w) - 1) as nat) < w,
    decreases w,
{
    lemma2_to64();
    if w > 1 {
        let h = ((w + 1) / 2) as nat;
        assert(2 * h >= w && 2 * h <= w + 1 && 1 <= h < w) by (nonlinear_arith)
            requires
                w >= 2,
                h == (w + 1) / 2,
        ;
        lemma_log2c_bounds(h);
        let kh = log2c(h);
        lemma_pow2_unfold((kh + 1) as nat);
        assert(pow2((kh + 1) as nat) == 2 * pow2(kh));
        assert(2 * pow2(kh) >= 2 * h >= w);
        if kh == 0 {
            assert(pow2(0nat) == 1 && 1 < w);
        } else {
            lemma_pow2_unfold(kh);
            assert(pow2(kh) == 2 * pow2((kh - 1) as nat));
            assert(pow2((kh - 1) as nat) < h);
            assert(2 * pow2((kh - 1) as nat) <= 2 * h - 2 < w);
        }
    }
}

/// The two bounds pin the count: anything that reaches `w` minimally is
/// `log2c(w)`.
pub proof fn lemma_log2c_unique(w: nat, k: nat)
    requires
        w >= 1,
        pow2(k) >= w,
        k == 0 || pow2((k - 1) as nat) < w,
    ensures
        k == log2c(w),
{
    lemma_log2c_bounds(w);
    let l = log2c(w);
    if k < l {
        if k < l - 1 {
            lemma_pow2_strictly_increases(k, (l - 1) as nat);
        }
        assert(pow2(k) <= pow2((l - 1) as nat));
        assert(false);
    }
    if l < k {
        if l < k - 1 {
            lemma_pow2_strictly_increases(l, (k - 1) as nat);
        }
        assert(pow2(l) <= pow2((k - 1) as nat));
        assert(false);
    }
}

/// The smallest `k` with `2^k >= w`, as a machine integer.
pub fn log2_ceil(w: usize) -> (r: usize)
    requires
        1 <= w <= 1024,
    ensures
        r == log2c(w as nat),
        pow2(r as nat) >= w,
        r == 0 || pow2((r - 1) as nat) < w,
        r <= 10,
{
    let mut k: usize = 0;
    let mut c: usize = 1;
    proof {
        lemma2_to64();
    }
    while c < w
        invariant
            1 <= w <= 1024,
            c == pow2(k as nat),
            k == 0 || pow2((k - 1) as nat) < w,
            k <= 10,
        decreases 10 - k,
    {
        proof {
            lemma2_to64();
            if k == 10 {
                assert(c == 1024);
            }
            lemma_pow2_unfold((k + 1) as nat);
            if (k as nat) + 1 < 20 {
                lemma_pow2_strictly_increases((k + 1) as nat, 20);
            }
        }
        c = c * 2;
        k = k + 1;
    }
    proof {
        lemma_log2c_unique(w as nat, k as nat);
    }
    k
}

/// Fold a table at challenge `r`: each adjacent pair is combined with
/// weights `1 - r` and `r`, halving the table.
pub fn fold_vec(t: &Vec<Fr>, r: Fr) -> (out: Vec<Fr>)
    requires
        t@.len() % 2 == 0,
        t@.len() <= 0x200000,
    ensures
        out@.len() == t@.len() / 2,
        forall|j: int|
            0 <= j < out@.len() ==> #[trigger] vals(out@)[j] == fold_step(vals(t@), r.val())[j] % (
            P as int),
{
    let half = t.len() / 2;
    let mut out: Vec<Fr> = Vec::new();
    let mut j: usize = 0;
    while j < half
        invariant
            j <= half,
            half == t@.len() / 2,
            half <= 0x100000,
            t@.len() == 2 * half,
            out@.len() == j,
            forall|jj: int|
                0 <= jj < j ==> #[trigger] vals(out@)[jj] == fold_step(vals(t@), r.val())[jj] % (
                P as int),
        decreases half - j,
    {
        let lo = t[2 * j];
        let hi = t[2 * j + 1];
        let v = Fr::one().sub(r).mul(lo).add(r.mul(hi));
        let ghost pre = out@;
        out.push(v);
        proof {
            let pi = P as int;
            lemma_mul_mod_noop_general(1 - r.val(), lo.val(), pi);
            lemma_mul_mod_noop_general(r.val(), hi.val(), pi);
            lemma_add_mod_noop((1 - r.val()) * lo.val(), r.val() * hi.val(), pi);
            assert forall|jj: int|
                0 <= jj < j + 1 implies #[trigger] vals(out@)[jj] == fold_step(
                vals(t@),
                r.val(),
            )[jj] % pi by {
                if jj < j {
                    assert(out@[jj] == pre[jj]);
                    assert(vals(pre)[jj] == fold_step(vals(t@), r.val())[jj] % pi);
                } else {
                    assert(out@[jj] == v);
                }
            }
        }
        j = j + 1;
    }
    out
}

/// The wiring tables of one layer: entry `x + y * xlen` of the add
/// (respectively mul) table holds the combined weight
/// `alpha * chi(u, z) + beta * chi(v, z)` summed over the add
/// (respectively mul) gates `z` with inputs `(x, y)`.
pub fn build_tables(
    gates: &Vec<Gate>,
    u: &Vec<Fr>,
    v: &Vec<Fr>,
    alpha: Fr,
    beta: Fr,
    xlen: usize,
) -> (r: (Vec<Fr>, Vec<Fr>))
    requires
        1 <= xlen <= 1024,
        forall|j: int|
            0 <= j < gates@.len() ==> (#[trigger] gates@[j]).left < xlen && gates@[j].right < xlen,
    ensures
        r.0@.len() == xlen * xlen,
        r.1@.len() == xlen * xlen,
{
    proof {
        assert(xlen * xlen <= 1024 * 1024) by (nonlinear_arith)
            requires
                1 <= xlen <= 1024,
        ;
    }
    let n2: usize = xlen * xlen;
    let mut ta: Vec<Fr> = Vec::new();
    let mut tm: Vec<Fr> = Vec::new();
    let mut i: usize = 0;
    while i < n2
        invariant
            i <= n2,
            ta@.len() == i,
            tm@.len() == i,
        decreases n2 - i,
    {
        ta.push(Fr::zero());
        tm.push(Fr::zero());
        i = i + 1;
    }
    let mut gi: usize = 0;
    while gi < gates.len()
        invariant
            gi <= gates@.len(),
            ta@.len() == n2,
            tm@.len() == n2,
            n2 == xlen * xlen,
            1 <= xlen <= 1024,
            forall|j: int|
                0 <= j < gates@.len() ==> (#[trigger] gates@[j]).left < xlen && gates@[j].right
                    < xlen,
        decreases gates@.len() - gi,
    {
        let g = gates[gi];
        let w = alpha.mul(chi_eval(u, gi)).add(beta.mul(chi_eval(v, gi)));
        proof {
            assert(g.right * xlen + g.left < xlen * xlen) by (nonlinear_arith)
                requires
                    g.left < xlen,
                    g.right < xlen,
                    1 <= xlen,
            ;
        }
        let idx: usize = g.left + g.right * xlen;
        if matches!(g.kind, GateKind::Add) {
            let cur = ta[idx];
            ta[idx] = cur.add(w);
        } else {
            let cur = tm[idx];
            tm[idx] = cur.add(w);
        }
        gi = gi + 1;
    }
    (ta, tm)
}

/// The round polynomial of an `x` round, as its values at 0, 1 and 2:
/// the current variable is the lowest bit of the `x` part of every
/// table.
pub(crate) fn round_evals_x(ta: &Vec<Fr>, tm: &Vec<Fr>, vx: &Vec<Fr>, vy: &Vec<Fr>) -> (r: (Fr, Fr, Fr))
    requires
        vx@.len() >= 2,
        vx@.len() % 2 == 0,
        vx@.len() <= 0x100000,
        vy@.len() >= 1,
        vy@.len() <= 0x100000,
        ta@.len() == vx@.len() * vy@.len(),
        tm@.len() == ta@.len(),
        ta@.len() <= 0x100000,
{
    let xlen = vx.len();
    let xhalf = xlen / 2;
    let mut g0 = Fr::zero();
    let mut g1 = Fr::zero();
    let mut g2 = Fr::zero();
    let mut y: usize = 0;
    while y < vy.len()
        invariant
            y <= vy@.len(),
            vx@.len() == xlen,
            xhalf == xlen / 2,
            xlen == 2 * xhalf,
            2 <= xlen <= 0x100000,
            1 <= vy@.len() <= 0x100000,
            ta@.len() == xlen * vy@.len(),
            tm@.len() == ta@.len(),
            ta@.len() <= 0x100000,
        decreases vy@.len() - y,
    {
        let vyv = vy[y];
        let mut xr: usize = 0;
        proof {
            assert(y * xlen + xlen <= ta@.len()) by (nonlinear_arith)
                requires
                    y < vy@.len(),
                    ta@.len() == xlen * vy@.len(),
                    xlen >= 1,
            ;
        }
        let base: usize = y * xlen;
        while xr < xhalf
            invariant
                xr <= xhalf,
                xlen == 2 * xhalf,
                xlen <= 0x100000,
                vx@.len() == xlen,
                base + xlen <= ta@.len(),
                ta@.len() <= 0x100000,
                tm@.len() == ta@.len(),
            decreases xhalf - xr,
        {
            let lo = base + 2 * xr;
            let a0 = ta[lo];
            let a1 = ta[lo + 1];
            let m0 = tm[lo];
            let m1 = tm[lo + 1];
            let vx0 = vx[2 * xr];
            let vx1 = vx[2 * xr + 1];
            let a2 = a1.add(a1).sub(a0);
            let m2 = m1.add(m1).sub(m0);
            let vx2 = vx1.add(vx1).sub(vx0);
            g0 = g0.add(a0.mul(vx0.add(vyv))).add(m0.mul(vx0).mul(vyv));
            g1 = g1.add(a1.mul(vx1.add(vyv))).add(m1.mul(vx1).mul(vyv));
            g2 = g2.add(a2.mul(vx2.add(vyv))).add(m2.mul(vx2).mul(vyv));
            xr = xr + 1;
        }
        y = y + 1;
    }
    (g0, g1, g2)
}

/// The round polynomial of a `y` round, once the `x` variables are
/// fully folded to the single value `vxe`.
pub(crate) fn round_evals_y(ta: &Vec<Fr>, tm: &Vec<Fr>, vy: &Vec<Fr>, vxe: Fr) -> (r: (Fr, Fr, Fr))
    requires
        vy@.len() >= 2,
        vy@.len() % 2 == 0,
        vy@.len() <= 0x100000,
        ta@.len() == vy@.len(),
        tm@.len() == ta@.len(),
{
    let half = vy.len() / 2;
    let mut g0 = Fr::zero();
    let mut g1 = Fr::zero();
    let mut g2 = Fr::zero();
    let mut j: usize = 0;
    while j < half
        invariant
            j <= half,
            half <= 0x80000,
            vy@.len() == 2 * half,
            ta@.len() == vy@.len(),
            tm@.len() == ta@.len(),
        decreases half - j,
    {
        let a0 = ta[2 * j];
        let a1 = ta[2 * j + 1];
        let m0 = tm[2 * j];
        let m1 = tm[2 * j + 1];
        let v0 = vy[2 * j];
        let v1 = vy[2 * j + 1];
        let a2 = a1.add(a1).sub(a0);
        let m2 = m1.add(m1).sub(m0);
        let v2 = v1.add(v1).sub(v0);
        g0 = g0.add(a0.mul(vxe.add(v0))).add(m0.mul(vxe).mul(v0));
        g1 = g1.add(a1.mul(vxe.add(v1))).add(m1.mul(vxe).mul(v1));
        g2 = g2.add(a2.mul(vxe.add(v2))).add(m2.mul(vxe).mul(v2));
        j = j + 1;
    }
    (g0, g1, g2)
}

/// The coefficients of the degree-two polynomial with values `g0`,
/// `g1`, `g2` at 0, 1, 2.
pub(crate) fn interpolate3(g0: Fr, g1: Fr, g2: Fr) -> (r: Vec<Fr>)
    ensures
        r@.len() == 3,
{
    let inv2 = Fr::from_u64(INV2);
    let c0 = g0;
    let c2 = g2.sub(g1).sub(g1).add(g0).mul(inv2);
    let c1 = g1.sub(g0).sub(c2);
    let mut out: Vec<Fr> = Vec::new();
    out.push(c0);
    out.push(c1);
    out.push(c2);
    out
}

/// Run the rounds of one layer's sumcheck: emit each round polynomial,
/// absorb it, fold every table at the squeezed challenge, and return
/// the round polynomials, the two folded evaluations `vx`, `vy`, and
/// the two challenge points.
pub fn prove_layer(
    ta0: Vec<Fr>,
    tm0: Vec<Fr>,
    vx0: Vec<Fr>,
    vy0: Vec<Fr>,
    kx: usize,
    ky: usize,
    tr: &mut Transcript,
) -> (r: (Vec<Vec<Fr>>, Fr, Fr, Vec<Fr>, Vec<Fr>))
    requires
        kx <= 10,
        ky <= 10,
        vx0@.len() == pow2(kx as nat),
        vy0@.len() == pow2(ky as nat),
        ta0@.len() == pow2((kx + ky) as nat),
        tm0@.len() == ta0@.len(),
    ensures
        r.0@.len() == kx + ky,
        forall|i: int| 0 <= i < r.0@.len() ==> (#[trigger] r.0@[i])@.len() == 3,
        r.3@.len() == kx,
        r.4@.len() == ky,
{
    let mut ta = ta0;
    let mut tm = tm0;
    let mut vx = vx0;
    let mut vy = vy0;
    let mut polys: Vec<Vec<Fr>> = Vec::new();
    let mut rx: Vec<Fr> = Vec::new();
    let mut ry: Vec<Fr> = Vec::new();
    let mut i: usize = 0;
    while i < kx
        invariant
            i <= kx,
            kx <= 10,
            ky <= 10,
            vx@.len() == pow2((kx - i) as nat),
            vy@.len() == pow2(ky as nat),
            ta@.len() == pow2(((kx - i) + ky) as nat),
            tm@.len() == ta@.len(),
            polys@.len() == i,
            rx@.len() == i,
            forall|j: int| 0 <= j < polys@.len() ==> (#[trigger] polys@[j])@.len() == 3,
        decreases kx - i,
    {
        proof {
            lemma2_to64();
            lemma_pow2_unfold((kx - i) as nat);
            lemma_pow2_unfold(((kx - i) + ky) as nat);
            lemma_pow2_adds((kx - i) as nat, ky as nat);
            lemma_pow2_pos(((kx - i) - 1) as nat);
            if ((kx - i) as nat) < 20 {
                lemma_pow2_strictly_increases((kx - i) as nat, 20);
            }
            if (((kx - i) + ky) as nat) < 20 {
                lemma_pow2_strictly_increases(((kx - i) + ky) as nat, 20);
            }
            if (ky as nat) < 20 {
                lemma_pow2_strictly_increases(ky as nat, 20);
            }
        }
        let (g0, g1, g2) = round_evals_x(&ta, &tm, &vx, &vy);
        let poly = interpolate3(g0, g1, g2);
        tr.absorb_all(&poly);
        let r = tr.squeeze();
        let ghost pre_polys = polys@;
        polys.push(poly);
        rx.push(r);
        ta = fold_vec(&ta, r);
        tm = fold_vec(&tm, r);
        vx = fold_vec(&vx, r);
        proof {
            assert forall|j: int|
                0 <= j < polys@.len() implies (#[trigger] polys@[j])@.len() == 3 by {
                if j < pre_polys.len() {
                    assert(polys@[j] == pre_polys[j]);
                }
            }
        }
        i = i + 1;
    }
    proof {
        lemma2_to64();
    }
    let vxe = vx[0];
    let mut i: usize = 0;
    while i < ky
        invariant
            i <= ky,
            ky <= 10,
            vy@.len() == pow2((ky - i) as nat),
            ta@.len() == pow2((ky - i) as nat),
            tm@.len() == ta@.len(),
            polys@.len() == kx + i,
            rx@.len() == kx,
            ry@.len() == i,
            forall|j: int| 0 <= j < polys@.len() ==> (#[trigger] polys@[j])@.len() == 3,
        decreases ky - i,
    {
        proof {
            lemma2_to64();
            lemma_pow2_unfold((ky - i) as nat);
            lemma_pow2_pos(((ky - i) - 1) as nat);
        }
        let (g0, g1, g2) = round_evals_y(&ta, &tm, &vy, vxe);
        let poly = interpolate3(g0, g1, g2);
        tr.absorb_all(&poly);
        let r = tr.squeeze();
        let ghost pre_polys = polys@;
        polys.push(poly);
        ry.push(r);
        ta = fold_vec(&ta, r);
        tm = fold_vec(&tm, r);
        vy = fold_vec(&vy, r);
        proof {
            assert forall|j: int|
                0 <= j < polys@.len() implies (#[trigger] polys@[j])@.len() == 3 by {
                if j < pre_polys.len() {
                    assert(polys@[j] == pre_polys[j]);
                }
            }
        }
        i = i + 1;
    }
    proof {
        lemma2_to64();
    }
    let vye = vy[0];
    (polys, vxe, vye, rx, ry)
}

/// The contribution of gate `i`: its output index's combined weight
/// `alpha * chi(u, i) + beta * chi(v, i)` times the basis values of its
/// two input wires at the challenge points.
pub open spec fn gate_term(
    gates: Seq<Gate>,
    i: int,
    u: Seq<int>,
    v: Seq<int>,
    alpha: int,
    beta: int,
    rx: Seq<int>,
    ry: Seq<int>,
) -> int {
    let p = P as int;
    let wz = fadd(fmul(alpha, chi(u, i as nat) % p), fmul(beta, chi(v, i as nat) % p));
    fmul(fmul(wz, chi(rx, gates[i].left as nat) % p), chi(ry, gates[i].right as nat) % p)
}

/// The sum of `gate_term` over the first `n` gates of the given kind.
pub open spec fn predicate_sum(
    gates: Seq<Gate>,
    n: int,
    kind: GateKind,
    u: Seq<int>,
    v: Seq<int>,
    alpha: int,
    beta: int,
    rx: Seq<int>,
    ry: Seq<int>,
) -> int
    decreases n,
{
    if n <= 0 {
        0
    } else {
        let pre = predicate_sum(gates, n - 1, kind, u, v, alpha, beta, rx, ry);
        if gates[n - 1].kind == kind {
            fadd(pre, gate_term(gates, n - 1, u, v, alpha, beta, rx, ry))
        } else {
            pre
        }
    }
}

/// The combined wiring-predicate values at the challenge point: the
/// verifier's own evaluation of
/// `alpha * add(u, rx, ry) + beta * add(v, rx, ry)` and the same for
/// the mul predicate, summed gate by gate.
pub fn predicate_evals(
    gates: &Vec<Gate>,
    u: &Vec<Fr>,
    v: &Vec<Fr>,
    alpha: Fr,
    beta: Fr,
    rx: &Vec<Fr>,
    ry: &Vec<Fr>,
) -> (r: (Fr, Fr))
    ensures
        r.0.val() == predicate_sum(
            gates@,
            gates@.len() as int,
            GateKind::Add,
            vals(u@),
            vals(v@),
            alpha.val(),
            beta.val(),
            vals(rx@),
            vals(ry@),
        ),
        r.1.val() == predicate_sum(
            gates@,
            gates@.len() as int,
            GateKind::Mul,
            vals(u@),
            vals(v@),
            alpha.val(),
            beta.val(),
            vals(rx@),
            vals(ry@),
        ),
        r.0.reduced(),
        r.1.reduced(),
{
    let mut aw = Fr::zero();
    let mut mw = Fr::zero();
    let mut gi: usize = 0;
    proof {
        vstd::arithmetic::div_mod::lemma_small_mod(0nat, P as nat);
    }
    while gi < gates.len()
        invariant
            gi <= gates@.len(),
            aw.reduced(),
            mw.reduced(),
            aw.val() == predicate_sum(
                gates@,
                gi as int,
                GateKind::Add,
                vals(u@),
                vals(v@),
                alpha.val(),
                beta.val(),
                vals(rx@),
                vals(ry@),
            ),
            mw.val() == predicate_sum(
                gates@,
                gi as int,
                GateKind::Mul,
                vals(u@),
                vals(v@),
                alpha.val(),
                beta.val(),
                vals(rx@),
                vals(ry@),
            ),
        decreases gates@.len() - gi,
    {
        let g = gates[gi];
        let wz = alpha.mul(chi_eval(u, gi)).add(beta.mul(chi_eval(v, gi)));
        let term = wz.mul(chi_eval(rx, g.left)).mul(chi_eval(ry, g.right));
        proof {
            assert(term.val() == gate_term(
                gates@,
                gi as int,
                vals(u@),
                vals(v@),
                alpha.val(),
                beta.val(),
                vals(rx@),
                vals(ry@),
            ));
            vstd::arithmetic::div_mod::lemma_small_mod(aw.v as nat, P as nat);
            vstd::arithmetic::div_mod::lemma_small_mod(mw.v as nat, P as nat);
        }
        if matches!(g.kind, GateKind::Add) {
            aw = aw.add(term);
        } else {
            mw = mw.add(term);
        }
        gi = gi + 1;
    }
    (aw, mw)
}

} // verus!
