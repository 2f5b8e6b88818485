use fawkes_plonk::backend::{to_backend_circuit, extract_inputs, BackendCircuit, BackendRow, Cell, Col, CopyConstraint, InstanceWire};
use fawkes_plonk::cs::{CNum, CS, LinComb};
use fawkes_plonk::error::CircuitError;
use fawkes_plonk::field::Fp;
use fawkes_plonk::oracle::{mock_prove, mock_verify};

fn known(v: u64) -> Option<Fp<97>> {
    Some(Fp::<97>::new(v))
}

#[test]
fn test_mock_prover() {
    let ref mut cs = CS::<97>::rc_new(false);

    let _a = 3u64;
    let _b = 5u64;
    let _c = _a * _b * _b % 97;

    let a = cs.alloc_var(known(_a));
    let b = cs.alloc_var(known(_b));

    let t = cs.alloc_var(known(_a * _b % 97));
    cs.enforce_mul(&a, &b, &t).unwrap();
    let c = cs.alloc_var(known(_c));
    cs.enforce_mul(&t, &b, &c).unwrap();
    cs.inputize(&c);

    let res = mock_prove::<97, 97>(cs, 16).unwrap();
    assert!(res, "mock prover failed!");
}

#[test]
fn tracking_accepts_satisfied_mul() {
    let mut cs = CS::<97>::new(true);
    let a = cs.alloc_var(known(3));
    let b = cs.alloc_var(known(5));
    let c = cs.alloc_var(known(15));
    assert!(cs.enforce_mul(&a, &b, &c).is_ok());
    assert_eq!(cs.num_gate(), 1);
}

#[test]
fn tracking_rejects_unsatisfied_mul() {
    let mut cs = CS::<97>::new(true);
    let a = cs.alloc_var(known(3));
    let b = cs.alloc_var(known(5));
    let c = cs.alloc_var(known(15));
    assert!(cs.enforce_mul(&a, &b, &c).is_ok());
    let d = cs.alloc_var(known(16));
    assert_eq!(
        cs.enforce_mul(&a, &b, &d),
        Err(CircuitError::UnsatisfiedConstraint)
    );
    // the failed operation appended no gate
    assert_eq!(cs.num_gate(), 1);
}

#[test]
fn tracking_checks_add() {
    let mut cs = CS::<97>::new(true);
    let a = cs.alloc_var(known(1));
    let b = cs.alloc_var(known(2));
    let c = cs.alloc_var(known(3));
    assert!(cs.enforce_add(&a, &b, &c).is_ok());
    let d = cs.alloc_var(known(4));
    assert_eq!(
        cs.enforce_add(&a, &b, &d),
        Err(CircuitError::UnsatisfiedConstraint)
    );
}

#[test]
fn tracking_checks_generic() {
    // the raw relation 1*x + 1*y + (-1)*z + 0*x*y + 0 == 0, i.e. x + y == z
    let mut cs = CS::<97>::new(true);
    let x = cs.alloc_var(known(10));
    let y = cs.alloc_var(known(20));
    let z = cs.alloc_var(known(30));
    let one = Fp::<97>::one();
    let minus_one = one.neg();
    let zero = Fp::<97>::zero();
    assert!(cs
        .enforce_generic(&x, &y, &z, &one, &one, &minus_one, &zero, &zero)
        .is_ok());
    let bad = cs.alloc_var(known(31));
    assert_eq!(
        cs.enforce_generic(&x, &y, &bad, &one, &one, &minus_one, &zero, &zero),
        Err(CircuitError::UnsatisfiedConstraint)
    );
}

#[test]
fn unknown_values_skip_tracking() {
    let mut cs = CS::<97>::new(true);
    let a = cs.alloc_var(None);
    let b = cs.alloc_var(known(5));
    let c = cs.alloc_var(known(40));
    // one operand unknown: no eager check; the constraint is still appended
    assert!(cs.enforce_mul(&a, &b, &c).is_ok());
    assert_eq!(cs.num_gate(), 1);
}

#[test]
fn mul_sat_verifies_end_to_end() {
    // x * y == z with z holding exactly x*y: the oracle accepts
    let mut cs = CS::<97>::new(false);
    let x = cs.alloc_var(known(7));
    let y = cs.alloc_var(known(9));
    let z = cs.alloc_var(known(63));
    cs.enforce_mul(&x, &y, &z).unwrap();
    assert_eq!(mock_prove::<97, 97>(&cs, 16), Ok(true));
}

#[test]
fn mul_unsat_fails_end_to_end() {
    // without tracking the bad gate is recorded, and the oracle reports it
    let mut cs = CS::<97>::new(false);
    let x = cs.alloc_var(known(7));
    let y = cs.alloc_var(known(9));
    let z = cs.alloc_var(known(62));
    cs.enforce_mul(&x, &y, &z).unwrap();
    assert_eq!(mock_prove::<97, 97>(&cs, 16), Ok(false));
}

#[test]
fn public_input_round_trip() {
    let mut cs = CS::<97>::new(false);
    let x = cs.alloc_var(known(3));
    let y = cs.alloc_var(known(5));
    let z = cs.alloc_var(known(15));
    cs.enforce_mul(&x, &y, &z).unwrap();
    cs.inputize(&z);
    let (circuit, ins) = to_backend_circuit::<97, 97>(&cs, 16).unwrap();
    assert_eq!(ins, vec![known(15)]);
    // the correct public value verifies
    assert_eq!(mock_verify(&circuit, &vec![Fp::<97>::new(15)]), Ok(true));
    // any other public value for that slot fails
    assert_eq!(mock_verify(&circuit, &vec![Fp::<97>::new(14)]), Ok(false));
}

#[test]
fn inputize_composite_allocates_equality_gate() {
    let mut cs = CS::<97>::new(false);
    let x = cs.alloc_var(known(3));
    // the value 2 * x + 0, a composite combination
    let n = CNum {
        value: known(6),
        lc: LinComb {
            scalar: Fp::<97>::new(2),
            var: x.lc.var,
            constant: Fp::<97>::zero(),
        },
    };
    cs.inputize(&n);
    // a fresh slot was allocated, tied by an equality gate, and exposed
    assert_eq!(cs.num_var(), 2);
    assert_eq!(cs.num_gate(), 1);
    assert_eq!(cs.num_public(), 1);
    assert_eq!(mock_prove::<97, 97>(&cs, 16), Ok(true));
}

#[test]
fn incomplete_witness_is_reported() {
    let mut cs = CS::<97>::new(false);
    let x = cs.alloc_var(None);
    cs.inputize(&x);
    assert_eq!(
        mock_prove::<97, 97>(&cs, 16),
        Err(CircuitError::IncompleteWitness)
    );
}

#[test]
fn row_budget_is_checked_before_placement() {
    let mut cs = CS::<97>::new(false);
    let x = cs.alloc_var(known(2));
    let y = cs.alloc_var(known(3));
    let z = cs.alloc_var(known(6));
    cs.enforce_mul(&x, &y, &z).unwrap();
    cs.inputize(&z);
    assert_eq!(
        mock_prove::<97, 97>(&cs, 1),
        Err(CircuitError::RowBudgetExceeded)
    );
    assert_eq!(mock_prove::<97, 97>(&cs, 2), Ok(true));
}

#[test]
fn synthesis_rejects_width_mismatch() {
    let mut cs = CS::<97>::new(false);
    let x = cs.alloc_var(known(2));
    let y = cs.alloc_var(known(3));
    let z = cs.alloc_var(known(6));
    cs.enforce_mul(&x, &y, &z).unwrap();
    assert_eq!(
        mock_prove::<97, 300>(&cs, 16),
        Err(CircuitError::IncompatibleFieldWidth)
    );
}

#[test]
fn synthesis_rejects_out_of_range_witness() {
    let mut cs = CS::<101>::new(false);
    let x = cs.alloc_var(Some(Fp::<101>::new(99)));
    let y = cs.alloc_var(Some(Fp::<101>::new(1)));
    let z = cs.alloc_var(Some(Fp::<101>::new(99)));
    cs.enforce_mul(&x, &y, &z).unwrap();
    // 99 is no canonical representative of the 97-element field
    assert_eq!(
        mock_prove::<101, 97>(&cs, 16),
        Err(CircuitError::DecodeError)
    );
}

#[test]
fn reused_variable_is_copy_constrained() {
    // x appears in two gates: the synthesized circuit must link the two
    // cells rather than assign independent values
    let mut cs = CS::<97>::new(false);
    let x = cs.alloc_var(known(4));
    let y = cs.alloc_var(known(2));
    let z = cs.alloc_var(known(8));
    cs.enforce_mul(&x, &y, &z).unwrap();
    let w = cs.alloc_var(known(32));
    cs.enforce_mul(&x, &z, &w).unwrap();
    let (circuit, _) = to_backend_circuit::<97, 97>(&cs, 16).unwrap();
    assert_eq!(circuit.rows.len(), 2);
    assert!(!circuit.copies.is_empty());
    assert_eq!(mock_verify(&circuit, &vec![]), Ok(true));
}

#[test]
fn broken_placement_is_rejected() {
    // a deliberately broken placement: two rows, each satisfied on its
    // own, whose copy-linked cells hold the different values 3 and 4
    let row_with = |v: u64| BackendRow::<97> {
        sel: true,
        x: Some(Fp::<97>::new(v)),
        y: Some(Fp::<97>::zero()),
        z: Some(Fp::<97>::zero()),
        a: Fp::<97>::one(),
        b: Fp::<97>::zero(),
        c: Fp::<97>::zero(),
        d: Fp::<97>::zero(),
        e: Fp::<97>::new(v).neg(),
    };
    let broken = BackendCircuit::<97> {
        rows: vec![row_with(3), row_with(4)],
        copies: vec![CopyConstraint {
            from: Cell { row: 0, col: Col::X },
            to: Cell { row: 1, col: Col::X },
        }],
        wires: vec![],
        num_instance: 0,
    };
    assert_eq!(mock_verify(&broken, &vec![]), Ok(false));

    // the honest placement with one value passes the same checks
    let honest = BackendCircuit::<97> {
        rows: vec![row_with(3), row_with(3)],
        copies: vec![CopyConstraint {
            from: Cell { row: 0, col: Col::X },
            to: Cell { row: 1, col: Col::X },
        }],
        wires: vec![],
        num_instance: 0,
    };
    assert_eq!(mock_verify(&honest, &vec![]), Ok(true));
}

#[test]
fn wrong_instance_wiring_is_rejected() {
    let circuit = BackendCircuit::<97> {
        rows: vec![BackendRow::<97> {
            sel: true,
            x: Some(Fp::<97>::new(5)),
            y: Some(Fp::<97>::zero()),
            z: Some(Fp::<97>::zero()),
            a: Fp::<97>::one(),
            b: Fp::<97>::zero(),
            c: Fp::<97>::zero(),
            d: Fp::<97>::zero(),
            e: Fp::<97>::new(5).neg(),
        }],
        copies: vec![],
        wires: vec![InstanceWire {
            cell: Cell { row: 0, col: Col::X },
            index: 0,
        }],
        num_instance: 1,
    };
    assert_eq!(mock_verify(&circuit, &vec![Fp::<97>::new(5)]), Ok(true));
    assert_eq!(mock_verify(&circuit, &vec![Fp::<97>::new(6)]), Ok(false));
}

#[test]
fn synthesis_is_deterministic() {
    let mut cs = CS::<97>::new(false);
    let x = cs.alloc_var(known(3));
    let y = cs.alloc_var(known(5));
    let z = cs.alloc_var(known(15));
    cs.enforce_mul(&x, &y, &z).unwrap();
    cs.inputize(&z);
    cs.inputize(&x);
    let (c1, i1) = to_backend_circuit::<97, 97>(&cs, 16).unwrap();
    let (c2, i2) = to_backend_circuit::<97, 97>(&cs, 16).unwrap();
    assert_eq!(c1, c2);
    assert_eq!(i1, i2);
}

#[test]
fn extract_inputs_orders_by_index() {
    let mut cs = CS::<97>::new(false);
    let a = cs.alloc_var(known(10));
    let b = cs.alloc_var(known(20));
    // expose in reverse order: the extraction still sorts by index
    cs.inputize(&b);
    cs.inputize(&a);
    let ins = extract_inputs(&cs);
    assert_eq!(ins, vec![known(10), known(20)]);
}

#[test]
fn witness_accessors() {
    let mut cs = CS::<97>::new(false);
    let a = cs.alloc_var(known(10));
    cs.alloc_var(None);
    cs.inputize(&a);
    assert_eq!(cs.num_var(), 2);
    assert_eq!(cs.num_public(), 1);
    assert_eq!(cs.num_aux(), 1);
    assert_eq!(cs.get_value(0), Ok(known(10)));
    assert_eq!(cs.get_value(1), Ok(None));
    assert_eq!(cs.get_value(2), Err(CircuitError::IndexOutOfRange));
    assert_eq!(cs.get_gate(0), Err(CircuitError::IndexOutOfRange));
}

#[test]
fn duplicate_public_indices_are_kept() {
    // the same variable exposed twice: both instance slots carry its value
    let mut cs = CS::<97>::new(false);
    let x = cs.alloc_var(known(5));
    let y = cs.alloc_var(known(1));
    let z = cs.alloc_var(known(5));
    cs.enforce_mul(&x, &y, &z).unwrap();
    cs.inputize(&x);
    cs.inputize(&x);
    let (circuit, ins) = to_backend_circuit::<97, 97>(&cs, 16).unwrap();
    assert_eq!(ins, vec![known(5), known(5)]);
    assert_eq!(
        mock_verify(&circuit, &vec![Fp::<97>::new(5), Fp::<97>::new(5)]),
        Ok(true)
    );
}

#[test]
fn generic_gate_verifies_end_to_end() {
    // x + y == z expressed through the raw gate relation
    let one = Fp::<97>::one();
    let minus_one = one.neg();
    let zero = Fp::<97>::zero();

    let mut good = CS::<97>::new(false);
    let x = good.alloc_var(known(10));
    let y = good.alloc_var(known(20));
    let z = good.alloc_var(known(30));
    good.enforce_generic(&x, &y, &z, &one, &one, &minus_one, &zero, &zero)
        .unwrap();
    assert_eq!(mock_prove::<97, 97>(&good, 16), Ok(true));

    let mut bad = CS::<97>::new(false);
    let x = bad.alloc_var(known(10));
    let y = bad.alloc_var(known(20));
    let z = bad.alloc_var(known(31));
    bad.enforce_generic(&x, &y, &z, &one, &one, &minus_one, &zero, &zero)
        .unwrap();
    assert_eq!(mock_prove::<97, 97>(&bad, 16), Ok(false));
}
