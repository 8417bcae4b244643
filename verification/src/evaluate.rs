//! Evaluation of the polynomials the argument is built from: univariate
//! round polynomials, the multilinear extension of a value vector, and
//! the Lagrange basis over the boolean hypercube.  Every executable
//! evaluator is verified against a plain integer specification; the
//! field reduction appears only as a final `% P`.

use crate::field::{Fr, P};
use vstd::arithmetic::div_mod::{
    lemma_add_mod_noop, lemma_mul_mod_noop_general, lemma_mul_mod_noop_right, lemma_small_mod,
};
use vstd::arithmetic::power2::{lemma2_to64, lemma_pow2_strictly_increases, pow2};
use vstd::prelude::*;

verus! {

/// The integers a sequence of field elements stands for.
pub open spec fn vals(s: Seq<Fr>) -> Seq<int> {
    s.map_values(|x: Fr| x.val())
}

/// `v` padded with zeroes up to length `n`.
pub open spec fn padded(v: Seq<int>, n: nat) -> Seq<int> {
    Seq::new(n, |i: int| if i < v.len() { v[i] } else { 0 })
}

/// The entries of `v` at even positions.
pub open spec fn evens(v: Seq<int>) -> Seq<int> {
    Seq::new(((v.len() + 1) / 2) as nat, |i: int| v[2 * i])
}

/// The entries of `v` at odd positions.
pub open spec fn odds(v: Seq<int>) -> Seq<int> {
    Seq::new((v.len() / 2) as nat, |i: int| v[2 * i + 1])
}

/// The multilinear extension of the vector `v` (of length `2^n`)
/// evaluated at the point `r` (of `n` coordinates, first variable
/// first): the unique polynomial of degree at most one in each variable
/// that agrees with `v` on the boolean hypercube, written as the
/// standard variable-by-variable interpolation.
pub open spec fn mle(v: Seq<int>, r: Seq<int>) -> int
    decreases r.len(),
{
    if r.len() == 0 {
        if v.len() > 0 {
            v[0]
        } else {
            0
        }
    } else {
        (1 - r[0]) * mle(evens(v), r.drop_first()) + r[0] * mle(odds(v), r.drop_first())
    }
}

/// One interpolation step: each adjacent pair of `v` combined with
/// weights `1 - r0` and `r0`.
pub open spec fn fold_step(v: Seq<int>, r0: int) -> Seq<int> {
    Seq::new((v.len() / 2) as nat, |j: int| (1 - r0) * v[2 * j] + r0 * v[2 * j + 1])
}

/// The value of the univariate polynomial with coefficient sequence `c`
/// (constant term first) at `x`.
pub open spec fn poly_eval_spec(c: Seq<int>, x: int) -> int
    decreases c.len(),
{
    if c.len() == 0 {
        0
    } else {
        c[0] + x * poly_eval_spec(c.drop_first(), x)
    }
}

/// The Lagrange basis polynomial of the hypercube vertex with index
/// `idx` (bit `i` of `idx` selecting variable `i`), evaluated at `r`.
pub open spec fn chi(r: Seq<int>, idx: nat) -> int
    decreases r.len(),
{
    if r.len() == 0 {
        1
    } else {
        (if idx % 2 == 1 {
            r[0]
        } else {
            1 - r[0]
        }) * chi(r.drop_first(), idx / 2)
    }
}

/// The multilinear extension is linear in the value vector: combining
/// two vectors pointwise combines their extensions.
#[verifier::rlimit(50)]
proof fn lemma_mle_combine(u: Seq<int>, w: Seq<int>, a: int, b: int, r: Seq<int>)
    requires
        u.len() == w.len(),
        u.len() == pow2(r.len()),
    ensures
        mle(Seq::new(u.len(), |i: int| a * u[i] + b * w[i]), r) == a * mle(u, r) + b * mle(w, r),
    decreases r.len(),
{
    let comb = Seq::new(u.len(), |i: int| a * u[i] + b * w[i]);
    if r.len() == 0 {
        assert(pow2(0) == 1) by {
            lemma2_to64();
        }
    } else {
        assert(pow2(r.len()) == 2 * pow2((r.len() - 1) as nat)) by {
            vstd::arithmetic::power2::lemma_pow2_unfold(r.len());
        }
        assert(evens(comb) =~= Seq::new(evens(u).len(), |i: int| a * evens(u)[i] + b * evens(w)[i]));
        assert(odds(comb) =~= Seq::new(odds(u).len(), |i: int| a * odds(u)[i] + b * odds(w)[i]));
        lemma_mle_combine(evens(u), evens(w), a, b, r.drop_first());
        lemma_mle_combine(odds(u), odds(w), a, b, r.drop_first());
        let r0 = r[0];
        let eu = mle(evens(u), r.drop_first());
        let ew = mle(evens(w), r.drop_first());
        let ou = mle(odds(u), r.drop_first());
        let ow = mle(odds(w), r.drop_first());
        assert((1 - r0) * (a * eu + b * ew) + r0 * (a * ou + b * ow) == a * ((1 - r0) * eu + r0
            * ou) + b * ((1 - r0) * ew + r0 * ow)) by (nonlinear_arith);
    }
}

/// Interpolating the first variable agrees with the recursive
/// definition: folding the vector and dropping the first coordinate
/// leaves the extension unchanged.
pub proof fn lemma_mle_fold(v: Seq<int>, r: Seq<int>)
    requires
        v.len() == pow2(r.len()),
        r.len() >= 1,
    ensures
        mle(fold_step(v, r[0]), r.drop_first()) == mle(v, r),
{
    assert(pow2(r.len()) == 2 * pow2((r.len() - 1) as nat)) by {
        vstd::arithmetic::power2::lemma_pow2_unfold(r.len());
    }
    let r0 = r[0];
    assert(fold_step(v, r0) =~= Seq::new(evens(v).len(), |i: int| (1 - r0) * evens(v)[i] + r0
        * odds(v)[i]));
    lemma_mle_combine(evens(v), odds(v), 1 - r0, r0, r.drop_first());
}

/// The extension respects congruence of the value vector: vectors equal
/// modulo `P` have extensions equal modulo `P`.
pub proof fn lemma_mle_congruent(u: Seq<int>, w: Seq<int>, r: Seq<int>)
    requires
        u.len() == w.len(),
        u.len() == pow2(r.len()),
        forall|i: int| 0 <= i < u.len() ==> #[trigger] u[i] % (P as int) == w[i] % (P as int),
    ensures
        mle(u, r) % (P as int) == mle(w, r) % (P as int),
    decreases r.len(),
{
    let p = P as int;
    if r.len() == 0 {
        assert(pow2(0) == 1) by {
            lemma2_to64();
        }
    } else {
        assert(pow2(r.len()) == 2 * pow2((r.len() - 1) as nat)) by {
            vstd::arithmetic::power2::lemma_pow2_unfold(r.len());
        }
        assert(forall|i: int|
            0 <= i < evens(u).len() ==> #[trigger] evens(u)[i] % p == evens(w)[i] % p);
        assert(forall|i: int|
            0 <= i < odds(u).len() ==> #[trigger] odds(u)[i] % p == odds(w)[i] % p);
        lemma_mle_congruent(evens(u), evens(w), r.drop_first());
        lemma_mle_congruent(odds(u), odds(w), r.drop_first());
        let r0 = r[0];
        let eu = mle(evens(u), r.drop_first());
        let ew = mle(evens(w), r.drop_first());
        let ou = mle(odds(u), r.drop_first());
        let ow = mle(odds(w), r.drop_first());
        lemma_mul_mod_noop_right(1 - r0, eu, p);
        lemma_mul_mod_noop_right(1 - r0, ew, p);
        lemma_mul_mod_noop_right(r0, ou, p);
        lemma_mul_mod_noop_right(r0, ow, p);
        lemma_add_mod_noop((1 - r0) * eu, r0 * ou, p);
        lemma_add_mod_noop((1 - r0) * ew, r0 * ow, p);
    }
}

/// Every coordinate of `r` is 0 or 1: a vertex of the hypercube.
pub open spec fn bool_point(r: Seq<int>) -> bool {
    forall|i: int| 0 <= i < r.len() ==> r[i] == 0 || r[i] == 1
}

/// The index of the vertex `r`, bit `i` of the index being `r[i]`.
pub open spec fn point_index(r: Seq<int>) -> nat
    decreases r.len(),
{
    if r.len() == 0 {
        0
    } else {
        ((if r[0] == 1 {
            1int
        } else {
            0int
        }) + 2 * point_index(r.drop_first())) as nat
    }
}

/// A vertex index is below the hypercube's size.
proof fn lemma_point_index_bound(r: Seq<int>)
    ensures
        point_index(r) < pow2(r.len()),
    decreases r.len(),
{
    if r.len() == 0 {
        lemma2_to64();
    } else {
        lemma_point_index_bound(r.drop_first());
        vstd::arithmetic::power2::lemma_pow2_unfold(r.len());
    }
}

/// The extension deserves its name: at every vertex of the hypercube it
/// takes the vector's value at that vertex's index.
pub proof fn lemma_mle_on_vertices(v: Seq<int>, r: Seq<int>)
    requires
        v.len() == pow2(r.len()),
        bool_point(r),
    ensures
        mle(v, r) == v[point_index(r) as int],
    decreases r.len(),
{
    lemma_point_index_bound(r);
    if r.len() == 0 {
        lemma2_to64();
    } else {
        assert(pow2(r.len()) == 2 * pow2((r.len() - 1) as nat)) by {
            vstd::arithmetic::power2::lemma_pow2_unfold(r.len());
        }
        let rest = r.drop_first();
        assert(bool_point(rest)) by {
            assert(forall|i: int| 0 <= i < rest.len() ==> rest[i] == r[i + 1]);
        }
        lemma_point_index_bound(rest);
        let pi = point_index(rest) as int;
        assert(mle(v, r) == (1 - r[0]) * mle(evens(v), rest) + r[0] * mle(odds(v), rest));
        let eu = mle(evens(v), rest);
        let ou = mle(odds(v), rest);
        if r[0] == 1 {
            lemma_mle_on_vertices(odds(v), rest);
            assert(odds(v)[pi] == v[2 * pi + 1]);
            assert((1 - r[0]) * eu + r[0] * ou == ou) by (nonlinear_arith)
                requires
                    r[0] == 1,
            ;
            assert(point_index(r) == 2 * pi + 1);
        } else {
            assert(r[0] == 0);
            lemma_mle_on_vertices(evens(v), rest);
            assert(evens(v)[pi] == v[2 * pi]);
            assert((1 - r[0]) * eu + r[0] * ou == eu) by (nonlinear_arith)
                requires
                    r[0] == 0,
            ;
            assert(point_index(r) == 2 * pi);
        }
    }
}

/// `2^k` as a machine integer.
pub fn pow2_usize(k: usize) -> (r: usize)
    requires
        k <= 20,
    ensures
        r == pow2(k as nat),
        r <= 0x100000,
{
    proof {
        lemma2_to64();
    }
    let mut n: usize = 1;
    let mut i: usize = 0;
    while i < k
        invariant
            i <= k <= 20,
            n == pow2(i as nat),
        decreases k - i,
    {
        proof {
            lemma2_to64();
            vstd::arithmetic::power2::lemma_pow2_unfold((i + 1) as nat);
            if (i as nat) + 1 < 20 {
                lemma_pow2_strictly_increases((i + 1) as nat, 20);
            }
            assert(2 * n == pow2((i + 1) as nat));
            assert(pow2((i + 1) as nat) <= 0x100000);
        }
        n = n * 2;
        i = i + 1;
    }
    proof {
        lemma2_to64();
        if (k as nat) < 20 {
            lemma_pow2_strictly_increases(k as nat, 20);
        }
    }
    n
}

/// The value at `x` of the univariate polynomial with coefficients
/// `c` (constant term first), by Horner's rule.
pub fn poly_eval(c: &Vec<Fr>, x: Fr) -> (r: Fr)
    ensures
        r.val() == poly_eval_spec(vals(c@), x.val()) % (P as int),
        r.reduced(),
{
    let p = Ghost(P as int);
    let mut acc = Fr::zero();
    let mut i: usize = c.len();
    while i > 0
        invariant
            i <= c@.len(),
            acc.reduced(),
            acc.val() == poly_eval_spec(vals(c@).skip(i as int), x.val()) % (P as int),
        decreases i,
    {
        i = i - 1;
        let ghost pre = acc.val();
        let ghost tailv = poly_eval_spec(vals(c@).skip(i + 1), x.val());
        acc = acc.mul(x).add(c[i]);
        proof {
            let pi = P as int;
            let cv = vals(c@)[i as int];
            assert(vals(c@).skip(i as int).drop_first() =~= vals(c@).skip(i + 1));
            assert(poly_eval_spec(vals(c@).skip(i as int), x.val()) == cv + x.val() * tailv);
            lemma_mul_mod_noop_general(tailv, x.val(), pi);
            lemma_add_mod_noop(tailv * x.val(), cv, pi);
            assert(cv + tailv * x.val() == cv + x.val() * tailv) by (nonlinear_arith);
        }
    }
    proof {
        assert(vals(c@).skip(0) =~= vals(c@));
    }
    acc
}

/// The multilinear extension of `values` (padded with zeroes up to
/// `2^point.len()`) evaluated at `point`.
pub fn eval_mle(values: &Vec<Fr>, point: &Vec<Fr>) -> (r: Fr)
    requires
        point@.len() <= 20,
        values@.len() <= pow2(point@.len()),
    ensures
        r.val() == mle(padded(vals(values@), pow2(point@.len())), vals(point@)) % (P as int),
        r.reduced(),
{
    let k = point.len();
    let n = pow2_usize(k);
    let ghost target = padded(vals(values@), pow2(point@.len()));
    let mut cur: Vec<Fr> = Vec::new();
    let mut idx: usize = 0;
    while idx < n
        invariant
            idx <= n,
            n == pow2(k as nat),
            values@.len() <= n,
            cur@.len() == idx,
            forall|j: int| 0 <= j < idx ==> #[trigger] vals(cur@)[j] == target[j],
            target == padded(vals(values@), pow2(point@.len())),
            k == point@.len(),
        decreases n - idx,
    {
        let ghost pre = cur@;
        if idx < values.len() {
            let x = values[idx];
            cur.push(x);
        } else {
            cur.push(Fr::zero());
        }
        proof {
            assert forall|j: int| 0 <= j < idx + 1 implies #[trigger] vals(cur@)[j] == target[j] by {
                if j < idx {
                    assert(cur@[j] == pre[j]);
                    assert(vals(pre)[j] == target[j]);
                }
            }
        }
        idx = idx + 1;
    }
    proof {
        assert(vals(cur@) =~= target);
        assert(vals(point@).skip(0) =~= vals(point@));
    }
    let mut i: usize = 0;
    while i < k
        invariant
            i <= k,
            k == point@.len() <= 20,
            cur@.len() == pow2((k - i) as nat),
            cur@.len() <= 0x100000,
            mle(vals(cur@), vals(point@).skip(i as int)) % (P as int) == mle(
                target,
                vals(point@),
            ) % (P as int),
            target == padded(vals(values@), pow2(point@.len())),
        decreases k - i,
    {
        proof {
            vstd::arithmetic::power2::lemma_pow2_unfold((k - i) as nat);
        }
        let r0 = point[i];
        let half = cur.len() / 2;
        let ghost prev = vals(cur@);
        let ghost rest = vals(point@).skip(i as int);
        let mut next: Vec<Fr> = Vec::new();
        let mut j: usize = 0;
        while j < half
            invariant
                j <= half,
                half == prev.len() / 2,
                half <= 0x80000,
                cur@.len() == prev.len(),
                cur@.len() == 2 * half,
                prev == vals(cur@),
                next@.len() == j,
                forall|jj: int|
                    0 <= jj < j ==> #[trigger] vals(next@)[jj] == fold_step(prev, r0.val())[jj] % (
                    P as int),
            decreases half - j,
        {
            let lo = cur[2 * j];
            let hi = cur[2 * j + 1];
            let v = Fr::one().sub(r0).mul(lo).add(r0.mul(hi));
            let ghost pre_next = next@;
            next.push(v);
            proof {
                let pi = P as int;
                lemma_mul_mod_noop_general(1 - r0.val(), lo.val(), pi);
                lemma_mul_mod_noop_general(r0.val(), hi.val(), pi);
                lemma_add_mod_noop((1 - r0.val()) * lo.val(), r0.val() * hi.val(), pi);
                assert forall|jj: int|
                    0 <= jj < j + 1 implies #[trigger] vals(next@)[jj] == fold_step(
                    prev,
                    r0.val(),
                )[jj] % pi by {
                    if jj < j {
                        assert(next@[jj] == pre_next[jj]);
                        assert(vals(pre_next)[jj] == fold_step(prev, r0.val())[jj] % pi);
                    } else {
                        assert(next@[jj] == v);
                    }
                }
            }
            j = j + 1;
        }
        proof {
            let pi = P as int;
            lemma_mle_fold(prev, rest);
            assert(rest[0] == r0.val());
            assert(rest.drop_first() =~= vals(point@).skip(i + 1));
            lemma_mle_congruent(vals(next@), fold_step(prev, r0.val()), vals(point@).skip(i + 1));
        }
        cur = next;
        i = i + 1;
    }
    proof {
        assert(pow2(0) == 1) by {
            lemma2_to64();
        }
        assert(mle(vals(cur@), vals(point@).skip(k as int)) == vals(cur@)[0]);
    }
    let out = Fr::from_u64(cur[0].v);
    proof {
        vstd::arithmetic::div_mod::lemma_mod_twice(vals(cur@)[0], P as int);
    }
    out
}

/// `v` padded with zero elements up to length `n`.
pub fn pad_vec(v: &Vec<Fr>, n: usize) -> (r: Vec<Fr>)
    requires
        v@.len() <= n,
    ensures
        r@.len() == n,
        vals(r@) == padded(vals(v@), n as nat),
{
    let mut out: Vec<Fr> = Vec::new();
    let mut i: usize = 0;
    while i < n
        invariant
            i <= n,
            v@.len() <= n,
            out@.len() == i,
            forall|j: int|
                0 <= j < i ==> #[trigger] vals(out@)[j] == padded(vals(v@), n as nat)[j],
        decreases n - i,
    {
        let ghost pre = out@;
        if i < v.len() {
            out.push(v[i]);
        } else {
            out.push(Fr::zero());
        }
        proof {
            assert forall|j: int|
                0 <= j < i + 1 implies #[trigger] vals(out@)[j] == padded(vals(v@), n as nat)[j] by {
                if j < i {
                    assert(out@[j] == pre[j]);
                    assert(vals(pre)[j] == padded(vals(v@), n as nat)[j]);
                }
            }
        }
        i = i + 1;
    }
    proof {
        assert(vals(out@) =~= padded(vals(v@), n as nat));
    }
    out
}

/// The Lagrange basis value `chi(r, idx)`, as a field element.
pub fn chi_eval(point: &Vec<Fr>, idx: usize) -> (r: Fr)
    ensures
        r.val() == chi(vals(point@), idx as nat) % (P as int),
        r.reduced(),
{
    let k = point.len();
    let mut acc = Fr::one();
    let mut curidx: usize = idx;
    let mut i: usize = 0;
    proof {
        lemma_small_mod(1nat, P as nat);
        assert(vals(point@).skip(0) =~= vals(point@));
    }
    while i < k
        invariant
            i <= k,
            k == point@.len(),
            acc.reduced(),
            (acc.val() * chi(vals(point@).skip(i as int), curidx as nat)) % (P as int) == chi(
                vals(point@),
                idx as nat,
            ) % (P as int),
        decreases k - i,
    {
        let ghost pre = acc.val();
        let ghost rest = vals(point@).skip(i as int);
        let ghost tail = chi(vals(point@).skip(i + 1), (curidx / 2) as nat);
        let factor = if curidx % 2 == 1 {
            point[i]
        } else {
            Fr::one().sub(point[i])
        };
        let ghost fpure: int = if curidx % 2 == 1 {
            vals(point@)[i as int]
        } else {
            1 - vals(point@)[i as int]
        };
        acc = acc.mul(factor);
        proof {
            let pi = P as int;
            assert(rest.drop_first() =~= vals(point@).skip(i + 1));
            assert(chi(rest, curidx as nat) == fpure * tail);
            // acc' == (pre * (fpure % P)) % P == (pre * fpure) % P
            lemma_mul_mod_noop_general(pre, fpure, pi);
            // ((pre * fpure) % P * tail) % P == (pre * fpure * tail) % P
            lemma_mul_mod_noop_general(pre * fpure, tail, pi);
            assert((pre * fpure) * tail == pre * (fpure * tail)) by (nonlinear_arith);
        }
        curidx = curidx / 2;
        i = i + 1;
    }
    proof {
        assert(chi(vals(point@).skip(k as int), curidx as nat) == 1);
        lemma_small_mod(acc.v as nat, P as nat);
    }
    acc
}

} // verus!
