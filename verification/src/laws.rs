use vstd::prelude::*;
use vstd::arithmetic::div_mod::{lemma_mul_mod_noop_general, lemma_sub_mod_noop};
use crate::field::Fp;
use crate::cs::{CNum, CS, Gate, gate_sat, gate_poly, witness_of, lc_eval, mul_gate, lemma_mul_gate_sound};
use crate::backend::{BackendRow, Cell, CopyConstraint, InstanceWire};
use crate::backend::{
    spec_synth, conv_gates, conv_vals, sorted_of, rows_of, row_of_gate, synth_after, init_state,
    SynthState, state_inv, copy_inv, wire_inv, cell_var, lemma_spec_synth_ok,
};
use crate::oracle::{
    circuit_accepts, circuit_complete, cell_value, row_poly, row_holds, all_known, known_values,
};

verus! {

/// The value a cell of the synthesized row layout holds: the (possibly
/// unknown) witness value of the variable whose use the cell is.
proof fn lemma_cell_value_rows_of<const M: u64>(
    gates: Seq<Gate<M>>,
    vals: Seq<Option<Fp<M>>>,
    c: Cell,
)
    requires
        c.row < gates.len(),
    ensures
        cell_value(rows_of(gates, vals), c) == vals[cell_var(gates, c) as int],
{
    assert(rows_of(gates, vals)[c.row as int] == row_of_gate(gates[c.row as int], vals));
}

/// Law: when every witness value is known and every gate of the frozen
/// constraint system is satisfied by that witness, synthesis into the
/// same field followed by mock verification with the circuit's own
/// ordered public values accepts the circuit.
pub proof fn lemma_satisfied_system_verifies<const M: u64>(cs: CS<M>, capacity: usize)
    requires
        cs.wf(),
        spec_synth::<M, M>(cs, capacity) is Ok,
        all_known(cs.values@),
        forall|i: int|
            0 <= i < cs.gates@.len() ==> gate_sat(#[trigger] cs.gates@[i], witness_of(cs.values@)),
    ensures
        ({
            let parts = spec_synth::<M, M>(cs, capacity)->Ok_0;
            &&& all_known(parts.3)
            &&& circuit_complete(parts.0)
            &&& circuit_accepts(parts.0, parts.1, parts.2, known_values(parts.3))
        }),
{
    let parts = spec_synth::<M, M>(cs, capacity)->Ok_0;
    let gates = conv_gates::<M, M>(cs.gates@);
    let vals = conv_vals::<M, M>(cs.values@);
    let pubs = sorted_of(cs.public@);
    let w = witness_of(cs.values@);
    lemma_spec_synth_ok::<M, M>(cs, capacity);
    assert(vals =~= cs.values@);
    assert(gates =~= cs.gates@);
    // all public values are known
    assert forall|j: int| 0 <= j < parts.3.len() implies (#[trigger] parts.3[j]) is Some by {
        assert(parts.3[j] == vals[pubs[j] as int]);
        assert(cs.values@[pubs[j] as int] is Some);
    }
    // every operand cell of every row holds a known value
    assert forall|i: int|
        0 <= i < parts.0.len() implies ((#[trigger] parts.0[i]).sel ==> parts.0[i].x is Some
        && parts.0[i].y is Some && parts.0[i].z is Some) by {
        assert(parts.0[i] == row_of_gate(gates[i], vals));
        assert(cs.gates@[i].wf(cs.values@.len()));
    }
    // each enabled row's equation matches its gate's equation over the witness
    assert forall|i: int| 0 <= i < parts.0.len() implies row_holds(#[trigger] parts.0[i]) by {
        assert(parts.0[i] == row_of_gate(gates[i], vals));
        let g = cs.gates@[i];
        assert(g.wf(cs.values@.len()));
        assert(parts.0[i].x->0.v == w[g.x as int]);
        assert(parts.0[i].y->0.v == w[g.y as int]);
        assert(parts.0[i].z->0.v == w[g.z as int]);
        assert(row_poly(parts.0[i]) == gate_poly(g, w));
        assert(gate_sat(g, w));
    }
    // copy constraints link two cells of one variable, so they agree
    let st = synth_after(gates, init_state(vals, pubs), gates.len() as int);
    assert(state_inv(gates, vals, pubs, SynthState { memo: st.memo, copies: parts.1, wires: parts.2 }));
    assert forall|i: int|
        0 <= i < parts.1.len() implies cell_value(parts.0, (#[trigger] parts.1[i]).from)
        == cell_value(parts.0, parts.1[i].to) by {
        assert(copy_inv(gates, parts.1[i]));
        lemma_cell_value_rows_of(gates, vals, parts.1[i].from);
        lemma_cell_value_rows_of(gates, vals, parts.1[i].to);
    }
    // instance wires: the cell holds exactly the public value at its slot
    assert forall|i: int|
        0 <= i < parts.2.len() implies cell_value(parts.0, (#[trigger] parts.2[i]).cell) == Some(
        known_values(parts.3)[parts.2[i].index as int],
    ) by {
        assert(wire_inv(gates, pubs, parts.2[i]));
        lemma_cell_value_rows_of(gates, vals, parts.2[i].cell);
        let idx = parts.2[i].index as int;
        assert(cell_var(gates, parts.2[i].cell) == pubs[idx]);
        assert(parts.3[idx] == vals[pubs[idx] as int]);
        assert(known_values(parts.3)[idx] == parts.3[idx]->0);
        assert(cs.values@[pubs[idx] as int] is Some);
    }
}

/// Law: when the three operands' tracked values agree with the stored
/// witness and `z` holds exactly the field product of `x` and `y`, the
/// gate `enforce_mul` emits is satisfied by that witness. Together with
/// `lemma_satisfied_system_verifies` this says the verification oracle
/// accepts a system built from such multiplications.
pub proof fn lemma_mul_gate_satisfied<const M: u64>(
    x: CNum<M>,
    y: CNum<M>,
    z: CNum<M>,
    values: Seq<Option<Fp<M>>>,
)
    requires
        M >= 1,
        x.wf(values.len()),
        y.wf(values.len()),
        z.wf(values.len()),
        x.consistent_with(values),
        y.consistent_with(values),
        z.consistent_with(values),
        x.value is Some,
        y.value is Some,
        z.value is Some,
        (x.value->0.v * y.value->0.v) % (M as int) == z.value->0.v as int,
    ensures
        gate_sat(mul_gate(x.lc, y.lc, z.lc), witness_of(values)),
{
    let m = M as int;
    let w = witness_of(values);
    let ex = lc_eval(x.lc, w);
    let ey = lc_eval(y.lc, w);
    let ez = lc_eval(z.lc, w);
    let xv = x.value->0.v as int;
    let yv = y.value->0.v as int;
    let zv = z.value->0.v as int;
    assert(w[x.lc.var as int] == values[x.lc.var as int]->0.v as int);
    assert(xv == ex % m);
    assert(yv == ey % m);
    assert(zv == ez % m);
    lemma_mul_mod_noop_general(ex, ey, m);
    assert((ex * ey) % m == zv);
    lemma_sub_mod_noop(ex * ey, ez, m);
    assert((ex * ey - ez) % m == ((ex * ey) % m - ez % m) % m);
    assert(((ex * ey) % m - ez % m) == 0);
    vstd::arithmetic::div_mod::lemma_small_mod(0, M as nat);
    assert((ex * ey - ez) % m == 0);
    lemma_mul_gate_sound(x.lc, y.lc, z.lc, w);
}

/// Law: a public slot that some gate uses pins the public value. When
/// the oracle accepts the synthesized circuit under a vector of public
/// values, each value that an instance wire names equals the stored
/// witness value of the inputized variable at that slot, so any other
/// value for that slot is rejected.
pub proof fn lemma_public_input_binding<const M1: u64, const M2: u64>(
    cs: CS<M1>,
    capacity: usize,
    pubs2: Seq<Fp<M2>>,
    wi: int,
)
    requires
        cs.wf(),
        spec_synth::<M1, M2>(cs, capacity) is Ok,
        ({
            let parts = spec_synth::<M1, M2>(cs, capacity)->Ok_0;
            &&& 0 <= wi < parts.2.len()
            &&& circuit_accepts(parts.0, parts.1, parts.2, pubs2)
        }),
    ensures
        ({
            let parts = spec_synth::<M1, M2>(cs, capacity)->Ok_0;
            parts.3[parts.2[wi].index as int] == Some(pubs2[parts.2[wi].index as int])
        }),
{
    let parts = spec_synth::<M1, M2>(cs, capacity)->Ok_0;
    let gates = conv_gates::<M1, M2>(cs.gates@);
    let vals = conv_vals::<M1, M2>(cs.values@);
    let pubs = sorted_of(cs.public@);
    lemma_spec_synth_ok::<M1, M2>(cs, capacity);
    let st = synth_after(gates, init_state(vals, pubs), gates.len() as int);
    assert(state_inv(gates, vals, pubs, SynthState { memo: st.memo, copies: parts.1, wires: parts.2 }));
    assert(wire_inv(gates, pubs, parts.2[wi]));
    lemma_cell_value_rows_of(gates, vals, parts.2[wi].cell);
    let idx = parts.2[wi].index as int;
    assert(cell_value(parts.0, parts.2[wi].cell) == Some(pubs2[idx]));
    assert(cell_value(parts.0, parts.2[wi].cell) == vals[pubs[idx] as int]);
    assert(parts.3[idx] == vals[pubs[idx] as int]);
}

/// Law: a placement that lets two cells linked by a copy constraint
/// hold different values is rejected by the oracle, whatever its rows
/// and public values otherwise look like. This is the discipline that
/// stops a dishonest prover from giving one logical variable two
/// values.
pub proof fn lemma_copy_violation_rejected<const M: u64>(
    rows: Seq<BackendRow<M>>,
    copies: Seq<CopyConstraint>,
    wires: Seq<InstanceWire>,
    pubs: Seq<Fp<M>>,
    i: int,
)
    requires
        0 <= i < copies.len(),
        cell_value(rows, copies[i].from) != cell_value(rows, copies[i].to),
    ensures
        !circuit_accepts(rows, copies, wires, pubs),
{
}

/// Law: synthesis is a pure function of the frozen constraint system's
/// witness vector, gate list and public-index list: two runs over equal
/// frozen data produce structurally identical backend circuits and
/// public values, whatever else (such as the tracking flag) differs.
pub proof fn lemma_synthesis_deterministic<const M1: u64, const M2: u64>(
    cs1: CS<M1>,
    cs2: CS<M1>,
    capacity: usize,
)
    requires
        cs1.values@ == cs2.values@,
        cs1.gates@ == cs2.gates@,
        cs1.public@ == cs2.public@,
    ensures
        spec_synth::<M1, M2>(cs1, capacity) == spec_synth::<M1, M2>(cs2, capacity),
{
}

} // verus!
