use vstd::prelude::*;
use vstd::arithmetic::div_mod::*;
use crate::error::CircuitError;
use crate::field::Fp;
use crate::cs::CS;
use crate::backend::{
    BackendCircuit, BackendRow, Cell, Col, spec_synth, to_backend_circuit, lemma_spec_synth_ok,
    SynthState, synth_after, init_state, conv_gates, conv_vals, sorted_of, state_inv,
};

verus! {

/// The value held in one operand cell of a row.
pub open spec fn slot_value<const M: u64>(row: BackendRow<M>, col: Col) -> Option<Fp<M>> {
    match col {
        Col::X => row.x,
        Col::Y => row.y,
        Col::Z => row.z,
    }
}

/// The value held by a backend cell.
pub open spec fn cell_value<const M: u64>(rows: Seq<BackendRow<M>>, c: Cell) -> Option<Fp<M>> {
    slot_value(rows[c.row as int], c.col)
}

/// Every operand cell of every enabled row holds a known value.
pub open spec fn circuit_complete<const M: u64>(rows: Seq<BackendRow<M>>) -> bool {
    forall|i: int|
        0 <= i < rows.len() ==> ((#[trigger] rows[i]).sel ==> rows[i].x is Some && rows[i].y is Some
            && rows[i].z is Some)
}

/// The left-hand side of an enabled row's equation, over its concrete
/// cell values, as an unreduced integer.
pub open spec fn row_poly<const M: u64>(row: BackendRow<M>) -> int {
    row.a.v * row.x->0.v + row.b.v * row.y->0.v + row.c.v * row.z->0.v + row.d.v * (row.x->0.v
        * row.y->0.v) + row.e.v
}

/// A disabled row holds vacuously; an enabled row holds when its
/// equation is satisfied in the field.
pub open spec fn row_holds<const M: u64>(row: BackendRow<M>) -> bool {
    row.sel ==> row_poly(row) % (M as int) == 0
}

/// What the verification oracle accepts: every enabled row's equation
/// holds, the two cells of every copy constraint agree, and the cell of
/// every instance wire holds the named public value.
pub open spec fn circuit_accepts<const M: u64>(
    rows: Seq<BackendRow<M>>,
    copies: Seq<crate::backend::CopyConstraint>,
    wires: Seq<crate::backend::InstanceWire>,
    pubs: Seq<Fp<M>>,
) -> bool {
    &&& forall|i: int| 0 <= i < rows.len() ==> row_holds(#[trigger] rows[i])
    &&& forall|i: int|
        0 <= i < copies.len() ==> cell_value(rows, (#[trigger] copies[i]).from) == cell_value(
            rows,
            copies[i].to,
        )
    &&& forall|i: int|
        0 <= i < wires.len() ==> cell_value(rows, (#[trigger] wires[i]).cell) == Some(
            pubs[wires[i].index as int],
        )
}

/// Evaluate one fully known row's equation in the field.
fn eval_row<const M: u64>(row: &BackendRow<M>) -> (r: u64)
    requires
        row.wf(),
        row.x is Some,
        row.y is Some,
        row.z is Some,
    ensures
        r as int == row_poly(*row) % (M as int),
{
    let xv = match &row.x {
        Some(v) => *v,
        None => Fp { v: 0 },
    };
    let yv = match &row.y {
        Some(v) => *v,
        None => Fp { v: 0 },
    };
    let zv = match &row.z {
        Some(v) => *v,
        None => Fp { v: 0 },
    };
    let s = row.a.mul(xv).add(row.b.mul(yv)).add(row.c.mul(zv)).add(row.d.mul(xv).mul(yv)).add(
        row.e,
    );
    proof {
        let m = M as int;
        let av = row.a.v as int;
        let bv = row.b.v as int;
        let cv = row.c.v as int;
        let dv = row.d.v as int;
        let xi = xv.v as int;
        let yi = yv.v as int;
        let zi = zv.v as int;
        lemma_mul_mod_noop_left(dv * xi, yi, m);
        vstd::arithmetic::mul::lemma_mul_is_associative(dv, xi, yi);
        lemma_add_mod_noop(av * xi, bv * yi, m);
        lemma_add_mod_noop(av * xi + bv * yi, cv * zi, m);
        lemma_add_mod_noop(av * xi + bv * yi + cv * zi, dv * (xi * yi), m);
        lemma_small_mod(row.e.v as nat, M as nat);
        lemma_add_mod_noop(av * xi + bv * yi + cv * zi + dv * (xi * yi), row.e.v as int, m);
    }
    s.v
}

/// Evaluate a fully concrete backend circuit against a public-input
/// vector and report whether the backend's row checks all pass: the
/// mock verification oracle. Fails with `IncompleteWitness` when some
/// enabled row still has an unknown operand value.
pub fn mock_verify<const M: u64>(c: &BackendCircuit<M>, pubs: &Vec<Fp<M>>) -> (r: Result<
    bool,
    CircuitError,
>)
    requires
        c.wf(),
        pubs@.len() == c.num_instance,
    ensures
        !circuit_complete(c.rows@) ==> r == Err::<bool, CircuitError>(
            CircuitError::IncompleteWitness,
        ),
        circuit_complete(c.rows@) ==> r == Ok::<bool, CircuitError>(
            circuit_accepts(c.rows@, c.copies@, c.wires@, pubs@),
        ),
{
    let n = c.rows.len();
    let mut i: usize = 0;
    while i < n
        invariant
            i <= n,
            n == c.rows@.len(),
            forall|k: int|
                0 <= k < i ==> ((#[trigger] c.rows@[k]).sel ==> c.rows@[k].x is Some
                    && c.rows@[k].y is Some && c.rows@[k].z is Some),
        decreases n - i,
    {
        let row = &c.rows[i];
        if row.sel && (row.x.is_none() || row.y.is_none() || row.z.is_none()) {
            return Err(CircuitError::IncompleteWitness);
        }
        i = i + 1;
    }
    let mut i: usize = 0;
    while i < n
        invariant
            i <= n,
            n == c.rows@.len(),
            c.wf(),
            circuit_complete(c.rows@),
            forall|k: int| 0 <= k < i ==> row_holds(#[trigger] c.rows@[k]),
        decreases n - i,
    {
        let row = &c.rows[i];
        if row.sel {
            if eval_row(row) != 0 {
                proof {
                    assert(!row_holds(c.rows@[i as int]));
                }
                return Ok(false);
            }
        }
        i = i + 1;
    }
    let mut i: usize = 0;
    while i < c.copies.len()
        invariant
            i <= c.copies@.len(),
            n == c.rows@.len(),
            c.wf(),
            circuit_complete(c.rows@),
            forall|k: int| 0 <= k < c.rows@.len() ==> row_holds(#[trigger] c.rows@[k]),
            forall|k: int|
                0 <= k < i ==> cell_value(c.rows@, (#[trigger] c.copies@[k]).from) == cell_value(
                    c.rows@,
                    c.copies@[k].to,
                ),
        decreases c.copies@.len() - i,
    {
        let cc = c.copies[i];
        let a = get_cell(&c.rows, cc.from);
        let b = get_cell(&c.rows, cc.to);
        let eq = match (a, b) {
            (None, None) => true,
            (Some(u), Some(v)) => u.v == v.v,
            _ => false,
        };
        if !eq {
            return Ok(false);
        }
        i = i + 1;
    }
    let mut i: usize = 0;
    while i < c.wires.len()
        invariant
            i <= c.wires@.len(),
            n == c.rows@.len(),
            c.wf(),
            pubs@.len() == c.num_instance,
            circuit_complete(c.rows@),
            forall|k: int| 0 <= k < c.rows@.len() ==> row_holds(#[trigger] c.rows@[k]),
            forall|k: int|
                0 <= k < c.copies@.len() ==> cell_value(c.rows@, (#[trigger] c.copies@[k]).from)
                    == cell_value(c.rows@, c.copies@[k].to),
            forall|k: int|
                0 <= k < i ==> cell_value(c.rows@, (#[trigger] c.wires@[k]).cell) == Some(
                    pubs@[c.wires@[k].index as int],
                ),
        decreases c.wires@.len() - i,
    {
        let w = c.wires[i];
        let a = get_cell(&c.rows, w.cell);
        let ok = match a {
            Some(u) => u.v == pubs[w.index].v,
            None => false,
        };
        if !ok {
            return Ok(false);
        }
        i = i + 1;
    }
    Ok(true)
}

/// Read the value held by one cell.
fn get_cell<const M: u64>(rows: &Vec<BackendRow<M>>, c: Cell) -> (r: Option<Fp<M>>)
    requires
        c.row < rows@.len(),
    ensures
        r == cell_value(rows@, c),
{
    let row = &rows[c.row];
    match c.col {
        Col::X => row.x,
        Col::Y => row.y,
        Col::Z => row.z,
    }
}

/// All values of a sequence of optional field elements are known.
pub open spec fn all_known<const M: u64>(s: Seq<Option<Fp<M>>>) -> bool {
    forall|i: int| 0 <= i < s.len() ==> (#[trigger] s[i]) is Some
}

/// The known values of a fully known sequence.
pub open spec fn known_values<const M: u64>(s: Seq<Option<Fp<M>>>) -> Seq<Fp<M>> {
    Seq::new(s.len(), |i: int| s[i]->0)
}

/// Run the whole pipeline on a frozen constraint system: synthesize the
/// backend circuit, take its own ordered public values, and report
/// whether the mock verification oracle accepts the result. Fails with
/// the synthesis errors of `to_backend_circuit`, and with
/// `IncompleteWitness` when a public value or an operand value of an
/// enabled row is still unknown.
pub fn mock_prove<const M1: u64, const M2: u64>(cs: &CS<M1>, capacity: usize) -> (r: Result<
    bool,
    CircuitError,
>)
    requires
        cs.wf(),
    ensures
        match spec_synth::<M1, M2>(*cs, capacity) {
            Err(e) => r == Err::<bool, CircuitError>(e),
            Ok(parts) => {
                if !all_known(parts.3) {
                    r == Err::<bool, CircuitError>(CircuitError::IncompleteWitness)
                } else if !circuit_complete(parts.0) {
                    r == Err::<bool, CircuitError>(CircuitError::IncompleteWitness)
                } else {
                    r == Ok::<bool, CircuitError>(
                        circuit_accepts(parts.0, parts.1, parts.2, known_values(parts.3)),
                    )
                }
            },
        },
{
    let pair = match to_backend_circuit::<M1, M2>(cs, capacity) {
        Ok(p) => p,
        Err(e) => {
            return Err(e);
        },
    };
    let circuit = pair.0;
    let ins = pair.1;
    proof {
        lemma_spec_synth_ok::<M1, M2>(*cs, capacity);
        let parts = spec_synth::<M1, M2>(*cs, capacity)->Ok_0;
        let gates = conv_gates::<M1, M2>(cs.gates@);
        let vals = conv_vals::<M1, M2>(cs.values@);
        let pubs = sorted_of(cs.public@);
        let st = synth_after(gates, init_state(vals, pubs), gates.len() as int);
        assert(state_inv(
            gates,
            vals,
            pubs,
            SynthState { memo: st.memo, copies: parts.1, wires: parts.2 },
        ));
        assert forall|i: int|
            0 <= i < circuit.copies@.len() implies (#[trigger] circuit.copies@[i]).from.row
            < circuit.rows@.len() && circuit.copies@[i].to.row < circuit.rows@.len() by {
            assert(crate::backend::copy_inv(gates, circuit.copies@[i]));
        }
        assert forall|i: int|
            0 <= i < circuit.wires@.len() implies (#[trigger] circuit.wires@[i]).cell.row
            < circuit.rows@.len() && circuit.wires@[i].index < circuit.num_instance by {
            assert(crate::backend::wire_inv(gates, pubs, circuit.wires@[i]));
        }
        assert(circuit.wf());
    }
    let mut pubvals: Vec<Fp<M2>> = Vec::new();
    let mut i: usize = 0;
    while i < ins.len()
        invariant
            i <= ins@.len(),
            pubvals@.len() == i,
            spec_synth::<M1, M2>(*cs, capacity) is Ok,
            ins@ == spec_synth::<M1, M2>(*cs, capacity)->Ok_0.3,
            forall|k: int| 0 <= k < i ==> (#[trigger] ins@[k]) is Some,
            forall|k: int| 0 <= k < i ==> pubvals@[k] == ins@[k]->0,
        decreases ins@.len() - i,
    {
        match &ins[i] {
            Some(v) => {
                pubvals.push(*v);
            },
            None => {
                proof {
                    let parts = spec_synth::<M1, M2>(*cs, capacity)->Ok_0;
                    assert(parts.3[i as int] is None);
                    assert(!all_known(parts.3));
                }
                return Err(CircuitError::IncompleteWitness);
            },
        }
        i = i + 1;
    }
    proof {
        let parts = spec_synth::<M1, M2>(*cs, capacity)->Ok_0;
        assert(pubvals@ =~= known_values(parts.3));
    }
    mock_verify(&circuit, &pubvals)
}

} // verus!
