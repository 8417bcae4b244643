//! The layered arithmetic circuit: gates organised into layers, each
//! gate reading exactly two wires of the layer below it, with layer 0
//! fed by the witness values followed by the input values.  Building a
//! circuit validates every wire reference; evaluation is verified
//! against a layer-by-layer specification.

use crate::field::{Fr, P};
use crate::evaluate::vals;
use crate::Error;
use vstd::prelude::*;

verus! {

/// The two gate kinds of the circuit model.
#[derive(Clone, Copy, Debug, PartialEq, Eq, Structural)]
pub enum GateKind {
    Add,
    Mul,
}

/// One gate: a kind and the two wire positions it reads in the layer
/// below.
#[derive(Clone, Copy, Debug, PartialEq, Eq, Structural)]
pub struct Gate {
    pub kind: GateKind,
    pub left: usize,
    pub right: usize,
}

/// A layered arithmetic circuit, immutable once built.
#[derive(Clone, Debug, PartialEq, Eq)]
pub struct Circuit {
    pub num_inputs: usize,
    pub num_witnesses: usize,
    pub layers: Vec<Vec<Gate>>,
}

/// The layer lists of a circuit, viewed as sequences.
pub open spec fn dv(layers: Seq<Vec<(u8, usize, usize)>>) -> Seq<Seq<(u8, usize, usize)>> {
    layers.map_values(|v: Vec<(u8, usize, usize)>| v@)
}

/// The width of the wire vector that layer `i` of the description reads:
/// the witness/input vector for layer 0, the previous layer's gate count
/// otherwise.
pub open spec fn desc_prev_width(
    ni: nat,
    nw: nat,
    desc: Seq<Seq<(u8, usize, usize)>>,
    i: int,
) -> nat {
    if i == 0 {
        ni + nw
    } else {
        desc[i - 1].len()
    }
}

/// The description holds at least one layer, none of them empty, and a
/// non-empty input/witness vector.
pub open spec fn desc_shape_ok(ni: nat, nw: nat, desc: Seq<Seq<(u8, usize, usize)>>) -> bool {
    &&& desc.len() >= 1
    &&& ni + nw >= 1
    &&& forall|i: int| 0 <= i < desc.len() ==> #[trigger] desc[i].len() >= 1
}

/// Every gate tag of the description names one of the two gate kinds.
pub open spec fn desc_kinds_ok(desc: Seq<Seq<(u8, usize, usize)>>) -> bool {
    forall|i: int, j: int|
        0 <= i < desc.len() && 0 <= j < desc[i].len() ==> (#[trigger] desc[i][j]).0 <= 1
}

/// Every wire reference of the description indexes a valid position of
/// the layer it reads.
pub open spec fn desc_refs_ok(ni: nat, nw: nat, desc: Seq<Seq<(u8, usize, usize)>>) -> bool {
    forall|i: int, j: int|
        0 <= i < desc.len() && 0 <= j < desc[i].len() ==> (#[trigger] desc[i][j]).1
            < desc_prev_width(ni, nw, desc, i) && desc[i][j].2 < desc_prev_width(ni, nw, desc, i)
}

/// A well-formed circuit description.
pub open spec fn desc_wf(ni: nat, nw: nat, desc: Seq<Seq<(u8, usize, usize)>>) -> bool {
    desc_shape_ok(ni, nw, desc) && desc_kinds_ok(desc) && desc_refs_ok(ni, nw, desc)
}

pub open spec fn gate_of(d: (u8, usize, usize)) -> Gate {
    Gate {
        kind: if d.0 == 0 {
            GateKind::Add
        } else {
            GateKind::Mul
        },
        left: d.1,
        right: d.2,
    }
}

/// The built circuit translates the description gate for gate.
pub open spec fn circuit_matches_desc(
    c: Circuit,
    ni: nat,
    nw: nat,
    desc: Seq<Seq<(u8, usize, usize)>>,
) -> bool {
    &&& c.num_inputs == ni
    &&& c.num_witnesses == nw
    &&& c.layers@.len() == desc.len()
    &&& forall|i: int|
        0 <= i < desc.len() ==> (#[trigger] c.layers@[i])@.len() == desc[i].len()
    &&& forall|i: int, j: int|
        0 <= i < desc.len() && 0 <= j < desc[i].len() ==> (#[trigger] c.layers@[i]@[j]) == gate_of(
            desc[i][j],
        )
}

impl Circuit {
    /// The width of the wire vector read by layer `i` of the circuit.
    pub open spec fn prev_width(self, i: int) -> nat {
        if i == 0 {
            (self.num_inputs + self.num_witnesses) as nat
        } else {
            self.layers@[i - 1]@.len()
        }
    }

    /// Well-formedness: at least one non-empty layer, a non-empty
    /// input/witness vector, bounded widths, and every wire reference in
    /// range for the layer it reads.
    pub open spec fn wf(self) -> bool {
        &&& self.layers@.len() >= 1
        &&& 1 <= self.num_inputs + self.num_witnesses <= 1024
        &&& forall|i: int|
            0 <= i < self.layers@.len() ==> 1 <= (#[trigger] self.layers@[i])@.len() <= 1024
        &&& forall|i: int, j: int|
            0 <= i < self.layers@.len() && 0 <= j < self.layers@[i]@.len() ==> (
            #[trigger] self.layers@[i]@[j]).left < self.prev_width(i)
                && self.layers@[i]@[j].right < self.prev_width(i)
    }

    /// Build a circuit from a description, validating it: every failure
    /// of the description is reported as the construction error it is,
    /// and no circuit is produced from an invalid description.
    pub fn new(num_inputs: usize, num_witnesses: usize, layers: &Vec<Vec<(u8, usize, usize)>>) -> (r:
        Result<Circuit, Error>)
        requires
            num_inputs + num_witnesses <= 1024,
            forall|i: int| 0 <= i < layers@.len() ==> (#[trigger] layers@[i])@.len() <= 1024,
        ensures
            r.is_ok() <==> desc_wf(num_inputs as nat, num_witnesses as nat, dv(layers@)),
            r.is_ok() ==> circuit_matches_desc(
                r->Ok_0,
                num_inputs as nat,
                num_witnesses as nat,
                dv(layers@),
            ) && r->Ok_0.wf(),
            layers@.len() == 0 ==> r == Result::<Circuit, Error>::Err(Error::EmptyCircuit),
            layers@.len() >= 1 && !desc_shape_ok(num_inputs as nat, num_witnesses as nat, dv(layers@))
                ==> r == Result::<Circuit, Error>::Err(Error::EmptyLayer),
            desc_shape_ok(num_inputs as nat, num_witnesses as nat, dv(layers@)) && !desc_kinds_ok(
                dv(layers@),
            ) ==> r == Result::<Circuit, Error>::Err(Error::InvalidGate),
            desc_shape_ok(num_inputs as nat, num_witnesses as nat, dv(layers@)) && desc_kinds_ok(
                dv(layers@),
            ) && !desc_refs_ok(num_inputs as nat, num_witnesses as nat, dv(layers@)) ==> r
                == Result::<Circuit, Error>::Err(Error::WireOutOfRange),
    {
        let ghost desc = dv(layers@);
        if layers.len() == 0 {
            return Err(Error::EmptyCircuit);
        }
        if num_inputs + num_witnesses == 0 {
            return Err(Error::EmptyLayer);
        }
        let mut i: usize = 0;
        while i < layers.len()
            invariant
                i <= layers@.len(),
                desc == dv(layers@),
                forall|ii: int| 0 <= ii < i ==> #[trigger] desc[ii].len() >= 1,
            decreases layers@.len() - i,
        {
            if layers[i].len() == 0 {
                proof {
                    assert(desc[i as int] == layers@[i as int]@);
                }
                return Err(Error::EmptyLayer);
            }
            proof {
                assert(desc[i as int] == layers@[i as int]@);
            }
            i = i + 1;
        }
        proof {
            assert(desc_shape_ok(num_inputs as nat, num_witnesses as nat, desc));
        }
        let mut i: usize = 0;
        while i < layers.len()
            invariant
                i <= layers@.len(),
                desc == dv(layers@),
                desc_shape_ok(num_inputs as nat, num_witnesses as nat, desc),
                forall|ii: int, j: int|
                    0 <= ii < i && 0 <= j < desc[ii].len() ==> (#[trigger] desc[ii][j]).0 <= 1,
            decreases layers@.len() - i,
        {
            let mut j: usize = 0;
            while j < layers[i].len()
                invariant
                    i < layers@.len(),
                    j <= desc[i as int].len(),
                    desc == dv(layers@),
                    desc_shape_ok(num_inputs as nat, num_witnesses as nat, desc),
                    forall|jj: int| 0 <= jj < j ==> (#[trigger] desc[i as int][jj]).0 <= 1,
                decreases desc[i as int].len() - j,
            {
                if layers[i][j].0 > 1 {
                    proof {
                        assert(desc[i as int] == layers@[i as int]@);
                        assert(desc[i as int][j as int] == layers@[i as int]@[j as int]);
                        assert(!desc_kinds_ok(desc));
                    }
                    return Err(Error::InvalidGate);
                }
                proof {
                    assert(desc[i as int] == layers@[i as int]@);
                }
                j = j + 1;
            }
            i = i + 1;
        }
        let mut i: usize = 0;
        while i < layers.len()
            invariant
                i <= layers@.len(),
                desc == dv(layers@),
                num_inputs + num_witnesses <= 1024,
                desc_shape_ok(num_inputs as nat, num_witnesses as nat, desc),
                desc_kinds_ok(desc),
                forall|ii: int, j: int|
                    0 <= ii < i && 0 <= j < desc[ii].len() ==> (#[trigger] desc[ii][j]).1
                        < desc_prev_width(num_inputs as nat, num_witnesses as nat, desc, ii)
                        && desc[ii][j].2 < desc_prev_width(
                        num_inputs as nat,
                        num_witnesses as nat,
                        desc,
                        ii,
                    ),
            decreases layers@.len() - i,
        {
            proof {
                if i > 0 {
                    assert(desc[i - 1] == layers@[i - 1]@);
                }
            }
            let prev_w: usize = if i == 0 {
                num_inputs + num_witnesses
            } else {
                layers[i - 1].len()
            };
            let mut j: usize = 0;
            while j < layers[i].len()
                invariant
                    i < layers@.len(),
                    j <= desc[i as int].len(),
                    desc == dv(layers@),
                    desc_shape_ok(num_inputs as nat, num_witnesses as nat, desc),
                    desc_kinds_ok(desc),
                    prev_w == desc_prev_width(num_inputs as nat, num_witnesses as nat, desc, i as int),
                    forall|jj: int|
                        0 <= jj < j ==> (#[trigger] desc[i as int][jj]).1 < prev_w && desc[i as int][jj].2
                            < prev_w,
                decreases desc[i as int].len() - j,
            {
                let g = layers[i][j];
                if g.1 >= prev_w || g.2 >= prev_w {
                    proof {
                        assert(desc[i as int] == layers@[i as int]@);
                        assert(desc[i as int][j as int] == layers@[i as int]@[j as int]);
                        assert(!desc_refs_ok(num_inputs as nat, num_witnesses as nat, desc));
                    }
                    return Err(Error::WireOutOfRange);
                }
                proof {
                    assert(desc[i as int] == layers@[i as int]@);
                }
                j = j + 1;
            }
            i = i + 1;
        }
        let mut built: Vec<Vec<Gate>> = Vec::new();
        let mut i: usize = 0;
        while i < layers.len()
            invariant
                i <= layers@.len(),
                desc == dv(layers@),
                desc_wf(num_inputs as nat, num_witnesses as nat, desc),
                built@.len() == i,
                forall|ii: int|
                    0 <= ii < i ==> (#[trigger] built@[ii])@.len() == desc[ii].len(),
                forall|ii: int, j: int|
                    0 <= ii < i && 0 <= j < desc[ii].len() ==> (#[trigger] built@[ii]@[j])
                        == gate_of(desc[ii][j]),
            decreases layers@.len() - i,
        {
            let mut layer: Vec<Gate> = Vec::new();
            let mut j: usize = 0;
            while j < layers[i].len()
                invariant
                    i < layers@.len(),
                    j <= desc[i as int].len(),
                    desc == dv(layers@),
                    layer@.len() == j,
                    forall|jj: int|
                        0 <= jj < j ==> #[trigger] layer@[jj] == gate_of(desc[i as int][jj]),
                decreases desc[i as int].len() - j,
            {
                let d = layers[i][j];
                let kind = if d.0 == 0 {
                    GateKind::Add
                } else {
                    GateKind::Mul
                };
                layer.push(Gate { kind, left: d.1, right: d.2 });
                j = j + 1;
            }
            built.push(layer);
            i = i + 1;
        }
        let c = Circuit { num_inputs, num_witnesses, layers: built };
        proof {
            assert forall|ii: int| 0 <= ii < desc.len() implies #[trigger] desc[ii]
                == layers@[ii]@ by {}
            assert(circuit_matches_desc(c, num_inputs as nat, num_witnesses as nat, desc));
            assert forall|ii: int, j: int|
                0 <= ii < c.layers@.len() && 0 <= j < c.layers@[ii]@.len() implies (
            #[trigger] c.layers@[ii]@[j]).left < c.prev_width(ii) && c.layers@[ii]@[j].right
                < c.prev_width(ii) by {
                assert(c.layers@[ii]@[j] == gate_of(desc[ii][j]));
                assert(desc[ii][j].1 < desc_prev_width(
                    num_inputs as nat,
                    num_witnesses as nat,
                    desc,
                    ii,
                ));
            }
            assert(c.wf());
        }
        Ok(c)
    }
}

/// The value a gate produces from the wire vector below it.
pub open spec fn gate_out(g: Gate, prev: Seq<int>) -> int {
    match g.kind {
        GateKind::Add => (prev[g.left as int] + prev[g.right as int]) % (P as int),
        GateKind::Mul => (prev[g.left as int] * prev[g.right as int]) % (P as int),
    }
}

/// The wire vector a whole layer produces.
pub open spec fn layer_out(gates: Seq<Gate>, prev: Seq<int>) -> Seq<int> {
    Seq::new(gates.len(), |j: int| gate_out(gates[j], prev))
}

/// The wire vector of layer `i` of the evaluated circuit: the base
/// vector (witnesses then inputs) for `i == 0`, each later layer
/// computed gate by gate from the one before it.
pub open spec fn vals_at(c: Circuit, base: Seq<int>, i: nat) -> Seq<int>
    decreases i,
{
    if i == 0 {
        base
    } else {
        layer_out(c.layers@[i - 1]@, vals_at(c, base, (i - 1) as nat))
    }
}

/// A copy of a vector of field elements.
pub fn copy_vec(v: &Vec<Fr>) -> (r: Vec<Fr>)
    ensures
        r@ == v@,
{
    let mut out: Vec<Fr> = Vec::new();
    let mut i: usize = 0;
    while i < v.len()
        invariant
            i <= v@.len(),
            out@ == v@.take(i as int),
        decreases v@.len() - i,
    {
        out.push(v[i]);
        proof {
            assert(out@ =~= v@.take(i + 1));
        }
        i = i + 1;
    }
    proof {
        assert(v@.take(v@.len() as int) =~= v@);
    }
    out
}

impl Circuit {
    /// Evaluate the circuit on the given inputs and witnesses, returning
    /// every layer's wire vector: position 0 holds the witnesses
    /// followed by the inputs, the last position holds the circuit
    /// output.  Fails exactly when a vector does not have the declared
    /// length.
    pub fn evaluate(&self, inputs: &Vec<Fr>, witnesses: &Vec<Fr>) -> (r: Result<Vec<Vec<Fr>>, Error>)
        requires
            self.wf(),
        ensures
            r.is_ok() <==> inputs@.len() == self.num_inputs && witnesses@.len()
                == self.num_witnesses,
            !(inputs@.len() == self.num_inputs && witnesses@.len() == self.num_witnesses) ==> r
                == Result::<Vec<Vec<Fr>>, Error>::Err(Error::LengthMismatch),
            r.is_ok() ==> (r->Ok_0)@.len() == self.layers@.len() + 1,
            r.is_ok() ==> forall|i: int|
                0 <= i <= self.layers@.len() ==> vals((#[trigger] (r->Ok_0)@[i])@) == vals_at(
                    *self,
                    vals(witnesses@) + vals(inputs@),
                    i as nat,
                ),
    {
        if inputs.len() != self.num_inputs || witnesses.len() != self.num_witnesses {
            return Err(Error::LengthMismatch);
        }
        let ghost base = vals(witnesses@) + vals(inputs@);
        let mut cur: Vec<Fr> = copy_vec(witnesses);
        let mut i: usize = 0;
        while i < inputs.len()
            invariant
                i <= inputs@.len(),
                cur@ == witnesses@ + inputs@.take(i as int),
            decreases inputs@.len() - i,
        {
            cur.push(inputs[i]);
            proof {
                assert(cur@ =~= witnesses@ + inputs@.take(i + 1));
            }
            i = i + 1;
        }
        proof {
            assert(witnesses@ + inputs@.take(inputs@.len() as int) =~= witnesses@ + inputs@);
            assert(vals(cur@) =~= vals(witnesses@) + vals(inputs@));
        }
        let mut all: Vec<Vec<Fr>> = Vec::new();
        let first = copy_vec(&cur);
        all.push(first);
        let mut li: usize = 0;
        while li < self.layers.len()
            invariant
                li <= self.layers@.len(),
                self.wf(),
                all@.len() == li + 1,
                vals(cur@) == vals_at(*self, base, li as nat),
                cur@.len() == self.prev_width(li as int) || (li == self.layers@.len() && cur@.len()
                    == self.layers@[li - 1]@.len()),
                forall|ii: int|
                    0 <= ii <= li ==> vals((#[trigger] all@[ii])@) == vals_at(*self, base, ii as nat),
            decreases self.layers@.len() - li,
        {
            let gates = &self.layers[li];
            let ghost prev = vals(cur@);
            let mut next: Vec<Fr> = Vec::new();
            let mut j: usize = 0;
            while j < gates.len()
                invariant
                    li < self.layers@.len(),
                    self.wf(),
                    gates@ == self.layers@[li as int]@,
                    cur@.len() == self.prev_width(li as int),
                    prev == vals(cur@),
                    j <= gates@.len(),
                    next@.len() == j,
                    forall|jj: int|
                        0 <= jj < j ==> #[trigger] vals(next@)[jj] == layer_out(gates@, prev)[jj],
                decreases gates@.len() - j,
            {
                let g = gates[j];
                let val = match g.kind {
                    GateKind::Add => cur[g.left].add(cur[g.right]),
                    GateKind::Mul => cur[g.left].mul(cur[g.right]),
                };
                let ghost pre_next = next@;
                next.push(val);
                proof {
                    assert forall|jj: int|
                        0 <= jj < j + 1 implies #[trigger] vals(next@)[jj] == layer_out(
                        gates@,
                        prev,
                    )[jj] by {
                        if jj < j {
                            assert(next@[jj] == pre_next[jj]);
                            assert(vals(pre_next)[jj] == layer_out(gates@, prev)[jj]);
                        }
                    }
                }
                j = j + 1;
            }
            proof {
                assert(vals(next@) =~= layer_out(gates@, prev));
            }
            cur = next;
            let ghost pre_all = all@;
            let snapshot = copy_vec(&cur);
            all.push(snapshot);
            proof {
                assert(vals(cur@) == vals_at(*self, base, (li + 1) as nat));
                assert forall|ii: int|
                    0 <= ii <= li + 1 implies vals((#[trigger] all@[ii])@) == vals_at(
                    *self,
                    base,
                    ii as nat,
                ) by {
                    if ii <= li {
                        assert(all@[ii] == pre_all[ii]);
                    }
                }
            }
            li = li + 1;
        }
        Ok(all)
    }
}

} // verus!
