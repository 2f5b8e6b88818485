use vstd::prelude::*;
use vstd::relations::{sorted_by, total_ordering};
use vstd::seq_lib::group_to_multiset_ensures;
use crate::error::CircuitError;
use crate::field::{Fp, spec_byte_width};
use crate::cs::{CS, Gate};

verus! {

/// One of the three operand columns of the backend's row layout.
#[derive(Clone, Copy, Debug, PartialEq, Eq, Hash, Structural)]
pub enum Col {
    X,
    Y,
    Z,
}

/// A concrete backend cell: a row together with one of its operand
/// columns.
#[derive(Clone, Copy, Debug, PartialEq, Eq, Hash, Structural)]
pub struct Cell {
    pub row: usize,
    pub col: Col,
}

/// How one use of a witness index is sourced while the backend circuit
/// is synthesized. On its first use a variable is either wired in from
/// the public-input column or assigned fresh; each later use must refer
/// back to the cell that already holds it, never receive an independent
/// value.
#[derive(Clone, Copy, Debug, PartialEq, Eq)]
pub enum ValueReference<const M: u64> {
    /// Never yet placed in a backend cell: the raw value, or unknown.
    RawValue(Option<Fp<M>>),
    /// Must be sourced from the backend's public-input column at this
    /// position.
    PublicSource(usize),
    /// Already occupies this cell; later uses copy-constrain against it.
    Placed(Cell),
}

/// One backend row: a selector that enables the row's equation, the
/// five fixed coefficient cells, and the three operand (advice) cells,
/// whose values may be unknown until proving time.
#[derive(Clone, Copy, Debug, PartialEq, Eq)]
pub struct BackendRow<const M: u64> {
    pub sel: bool,
    pub x: Option<Fp<M>>,
    pub y: Option<Fp<M>>,
    pub z: Option<Fp<M>>,
    pub a: Fp<M>,
    pub b: Fp<M>,
    pub c: Fp<M>,
    pub d: Fp<M>,
    pub e: Fp<M>,
}

/// A copy constraint: the backend requires the two cells to hold equal
/// values.
#[derive(Clone, Copy, Debug, PartialEq, Eq, Structural)]
pub struct CopyConstraint {
    pub from: Cell,
    pub to: Cell,
}

/// An instance wire: the backend requires the cell to hold the public
/// value at position `index` of the instance column.
#[derive(Clone, Copy, Debug, PartialEq, Eq, Structural)]
pub struct InstanceWire {
    pub cell: Cell,
    pub index: usize,
}

/// The backend-native circuit: the placed rows together with the copy
/// constraints and instance wires that tie reused and public variables
/// down.
#[derive(Clone, Debug, PartialEq, Eq)]
pub struct BackendCircuit<const M: u64> {
    pub rows: Vec<BackendRow<M>>,
    pub copies: Vec<CopyConstraint>,
    pub wires: Vec<InstanceWire>,
    pub num_instance: usize,
}

/// Ascending order on a sequence of indices.
pub open spec fn sorted_usize(s: Seq<usize>) -> bool {
    forall|i: int, j: int| 0 <= i < j < s.len() ==> s[i] <= s[j]
}

/// The ascending reordering of a sequence of indices.
pub open spec fn sorted_of(s: Seq<usize>) -> Seq<usize> {
    s.sort_by(|x: usize, y: usize| x <= y)
}

/// Relies on itertools' `sorted`, which collects the iterator into a
/// vector and sorts it with the standard library's stable slice sort:
/// the result is an ascending permutation of the input.
#[verifier::external_body]
fn sorted_indices(v: &Vec<usize>) -> (r: Vec<usize>)
    ensures
        r@.to_multiset() == v@.to_multiset(),
        sorted_usize(r@),
{
    itertools::Itertools::sorted(v.iter().cloned()).collect()
}

/// Law: an ascending sequence is determined by its multiset of
/// elements, so any two ascending permutations of the same sequence are
/// equal.
pub proof fn lemma_sorted_unique(a: Seq<usize>, b: Seq<usize>)
    requires
        sorted_usize(a),
        sorted_usize(b),
        a.to_multiset() == b.to_multiset(),
    ensures
        a == b,
    decreases a.len(),
{
    broadcast use group_to_multiset_ensures;

    assert(a.len() == a.to_multiset().len());
    assert(b.len() == b.to_multiset().len());
    if a.len() == 0 {
        assert(a =~= b);
    } else {
        assert(a.contains(a[0]));
        assert(b.to_multiset().count(a[0]) > 0);
        assert(b.contains(a[0]));
        let j = choose|j: int| 0 <= j < b.len() && b[j] == a[0];
        assert(b[0] <= a[0]);
        assert(b.contains(b[0]));
        assert(a.to_multiset().count(b[0]) > 0);
        assert(a.contains(b[0]));
        let k = choose|k: int| 0 <= k < a.len() && a[k] == b[0];
        assert(a[0] <= b[0]);
        assert(a[0] == b[0]);
        assert(a.remove(0).to_multiset() =~= a.to_multiset().remove(a[0]));
        assert(b.remove(0).to_multiset() =~= b.to_multiset().remove(b[0]));
        assert(a.remove(0) =~= a.drop_first());
        assert(b.remove(0) =~= b.drop_first());
        assert(sorted_usize(a.drop_first()));
        assert(sorted_usize(b.drop_first()));
        lemma_sorted_unique(a.drop_first(), b.drop_first());
        assert forall|i: int| 0 <= i < a.len() implies a[i] == b[i] by {
            if i > 0 {
                assert(a[i] == a.drop_first()[i - 1]);
                assert(b[i] == b.drop_first()[i - 1]);
            }
        }
        assert(a =~= b);
    }
}

/// Sort the public-index list ascending, as classification requires.
fn sort_public(pubs: &Vec<usize>) -> (r: Vec<usize>)
    ensures
        r@ == sorted_of(pubs@),
        sorted_usize(r@),
        r@.len() == pubs@.len(),
        r@.to_multiset() == pubs@.to_multiset(),
{
    let r = sorted_indices(pubs);
    proof {
        broadcast use group_to_multiset_ensures;

        let leq = |x: usize, y: usize| x <= y;
        assert(r@.len() == r@.to_multiset().len());
        assert(pubs@.len() == pubs@.to_multiset().len());
        assert(total_ordering(leq));
        pubs@.lemma_sort_by_ensures(leq);
        assert(sorted_usize(sorted_of(pubs@))) by {
            assert(sorted_by(sorted_of(pubs@), leq));
            assert forall|i: int, j: int|
                0 <= i < j < sorted_of(pubs@).len() implies sorted_of(pubs@)[i] <= sorted_of(
                pubs@,
            )[j] by {
                assert(leq(sorted_of(pubs@)[i], sorted_of(pubs@)[j]));
            }
        }
        lemma_sorted_unique(r@, sorted_of(pubs@));
    }
    r
}

/// The position of the first occurrence of `v` in `s`, or `-1` when `v`
/// does not occur.
pub open spec fn first_index_of(s: Seq<usize>, v: usize) -> int
    decreases s.len(),
{
    if s.len() == 0 {
        -1
    } else if s[0] == v {
        0
    } else if first_index_of(s.drop_first(), v) == -1 {
        -1
    } else {
        first_index_of(s.drop_first(), v) + 1
    }
}

/// What `first_index_of` returns: the least position holding `v`, or
/// `-1` when there is none.
pub proof fn lemma_first_index_of(s: Seq<usize>, v: usize)
    ensures
        -1 <= first_index_of(s, v) < s.len(),
        first_index_of(s, v) >= 0 ==> s[first_index_of(s, v)] == v,
        first_index_of(s, v) >= 0 ==> forall|k: int| 0 <= k < first_index_of(s, v) ==> s[k] != v,
        first_index_of(s, v) == -1 ==> forall|k: int| 0 <= k < s.len() ==> s[k] != v,
    decreases s.len(),
{
    if s.len() == 0 {
    } else if s[0] == v {
    } else {
        lemma_first_index_of(s.drop_first(), v);
        let r = first_index_of(s.drop_first(), v);
        if r >= 0 {
            assert forall|k: int| 0 <= k < r + 1 implies s[k] != v by {
                if k > 0 {
                    assert(s.drop_first()[k - 1] != v);
                    assert(s[k] == s.drop_first()[k - 1]);
                }
            }
        } else {
            assert forall|k: int| 0 <= k < s.len() implies s[k] != v by {
                if k > 0 {
                    assert(s.drop_first()[k - 1] != v);
                    assert(s[k] == s.drop_first()[k - 1]);
                }
            }
        }
    }
}

/// Find the least position of `v` in `s`, if any.
fn find_first(s: &Vec<usize>, v: usize) -> (r: Option<usize>)
    ensures
        r matches Some(j) ==> j == first_index_of(s@, v),
        r is None ==> first_index_of(s@, v) == -1,
{
    proof {
        lemma_first_index_of(s@, v);
    }
    let mut i: usize = 0;
    while i < s.len()
        invariant
            i <= s@.len(),
            forall|k: int| 0 <= k < i ==> s@[k] != v,
            -1 <= first_index_of(s@, v) < s@.len(),
            first_index_of(s@, v) >= 0 ==> s@[first_index_of(s@, v)] == v,
            first_index_of(s@, v) >= 0 ==> forall|k: int|
                0 <= k < first_index_of(s@, v) ==> s@[k] != v,
            first_index_of(s@, v) == -1 ==> forall|k: int| 0 <= k < s@.len() ==> s@[k] != v,
        decreases s@.len() - i,
    {
        if s[i] == v {
            return Some(i);
        }
        i = i + 1;
    }
    None
}

/// The synthesis bookkeeping: each variable's placement state, the copy
/// constraints recorded so far, and the instance wires recorded so far.
pub struct SynthState<const M: u64> {
    pub memo: Seq<ValueReference<M>>,
    pub copies: Seq<CopyConstraint>,
    pub wires: Seq<InstanceWire>,
}

/// How each variable is sourced before any gate has been placed: public
/// indices from their position in the ascending public list, all others
/// from their raw witness value.
pub open spec fn init_ref<const M: u64>(
    vals: Seq<Option<Fp<M>>>,
    pubs: Seq<usize>,
    v: int,
) -> ValueReference<M> {
    if first_index_of(pubs, v as usize) >= 0 {
        ValueReference::PublicSource(first_index_of(pubs, v as usize) as usize)
    } else {
        ValueReference::RawValue(vals[v])
    }
}

/// The initial synthesis state over a witness of `vals.len()` slots.
pub open spec fn init_state<const M: u64>(vals: Seq<Option<Fp<M>>>, pubs: Seq<usize>) -> SynthState<
    M,
> {
    SynthState {
        memo: Seq::new(vals.len(), |i: int| init_ref(vals, pubs, i)),
        copies: Seq::empty(),
        wires: Seq::empty(),
    }
}

/// Place one use of variable `var` into `cell`: a public variable is
/// wired from the instance column, a first use is assigned fresh and
/// remembered, and every later use is copy-constrained against the
/// remembered cell.
pub open spec fn place_slot<const M: u64>(st: SynthState<M>, var: usize, cell: Cell) -> SynthState<
    M,
> {
    match st.memo[var as int] {
        ValueReference::RawValue(_) => SynthState {
            memo: st.memo.update(var as int, ValueReference::Placed(cell)),
            copies: st.copies,
            wires: st.wires,
        },
        ValueReference::PublicSource(j) => SynthState {
            memo: st.memo,
            copies: st.copies,
            wires: st.wires.push(InstanceWire { cell, index: j }),
        },
        ValueReference::Placed(c) => SynthState {
            memo: st.memo,
            copies: st.copies.push(CopyConstraint { from: c, to: cell }),
            wires: st.wires,
        },
    }
}

/// Place the three operand slots of one gate, standing in row `r`.
pub open spec fn place_gate<const M: u64>(st: SynthState<M>, g: Gate<M>, r: usize) -> SynthState<
    M,
> {
    let st1 = place_slot(st, g.x, Cell { row: r, col: Col::X });
    let st2 = place_slot(st1, g.y, Cell { row: r, col: Col::Y });
    place_slot(st2, g.z, Cell { row: r, col: Col::Z })
}

/// The synthesis state after the first `k` gates have been placed, one
/// row each, in order.
pub open spec fn synth_after<const M: u64>(
    gates: Seq<Gate<M>>,
    st0: SynthState<M>,
    k: int,
) -> SynthState<M>
    decreases k,
{
    if k <= 0 {
        st0
    } else {
        place_gate(synth_after(gates, st0, k - 1), gates[k - 1], (k - 1) as usize)
    }
}

/// The row a gate occupies: its selector enabled, its five coefficients
/// fixed, and its three operand cells holding the (possibly unknown)
/// values of the variables it names.
pub open spec fn row_of_gate<const M: u64>(g: Gate<M>, vals: Seq<Option<Fp<M>>>) -> BackendRow<M> {
    BackendRow {
        sel: true,
        x: vals[g.x as int],
        y: vals[g.y as int],
        z: vals[g.z as int],
        a: g.a,
        b: g.b,
        c: g.c,
        d: g.d,
        e: g.e,
    }
}

/// All rows of the synthesized circuit, one per gate, in gate order.
pub open spec fn rows_of<const M: u64>(gates: Seq<Gate<M>>, vals: Seq<Option<Fp<M>>>) -> Seq<
    BackendRow<M>,
> {
    Seq::new(gates.len(), |i: int| row_of_gate(gates[i], vals))
}

/// One witness value reinterpreted in the destination field.
pub open spec fn conv_value<const M1: u64, const M2: u64>(v: Option<Fp<M1>>) -> Option<Fp<M2>> {
    match v {
        None => None,
        Some(x) => Some(Fp { v: x.v }),
    }
}

/// Every known witness value is already a canonical representative of
/// the destination field, so raw reinterpretation cannot fail.
pub open spec fn vals_ok<const M1: u64, const M2: u64>(vals: Seq<Option<Fp<M1>>>) -> bool {
    forall|i: int|
        0 <= i < vals.len() ==> match #[trigger] vals[i] {
            Some(x) => x.v < M2,
            None => true,
        }
}

/// The whole witness vector reinterpreted in the destination field.
pub open spec fn conv_vals<const M1: u64, const M2: u64>(vals: Seq<Option<Fp<M1>>>) -> Seq<
    Option<Fp<M2>>,
> {
    Seq::new(vals.len(), |i: int| conv_value::<M1, M2>(vals[i]))
}

/// All five coefficients are already canonical representatives
/// of the destination field.
pub open spec fn gate_ok<const M1: u64, const M2: u64>(g: Gate<M1>) -> bool {
    &&& g.a.v < M2
    &&& g.b.v < M2
    &&& g.c.v < M2
    &&& g.d.v < M2
    &&& g.e.v < M2
}

pub open spec fn gates_ok<const M1: u64, const M2: u64>(gs: Seq<Gate<M1>>) -> bool {
    forall|i: int| 0 <= i < gs.len() ==> gate_ok::<M1, M2>(#[trigger] gs[i])
}

/// One gate with its coefficients reinterpreted in the destination
/// field; the variable indices are unchanged.
pub open spec fn conv_gate<const M1: u64, const M2: u64>(g: Gate<M1>) -> Gate<M2> {
    Gate {
        a: Fp { v: g.a.v },
        x: g.x,
        b: Fp { v: g.b.v },
        y: g.y,
        c: Fp { v: g.c.v },
        z: g.z,
        d: Fp { v: g.d.v },
        e: Fp { v: g.e.v },
    }
}

pub open spec fn conv_gates<const M1: u64, const M2: u64>(gs: Seq<Gate<M1>>) -> Seq<Gate<M2>> {
    Seq::new(gs.len(), |i: int| conv_gate::<M1, M2>(gs[i]))
}

/// Reinterpret each witness value in the destination field through the
/// canonical byte encoding; the first value that is no canonical
/// representative of the destination field fails the whole conversion.
fn convert_values<const M1: u64, const M2: u64>(vals: &Vec<Option<Fp<M1>>>) -> (r: Result<
    Vec<Option<Fp<M2>>>,
    CircuitError,
>)
    requires
        spec_byte_width(M1) == spec_byte_width(M2),
        forall|i: int|
            0 <= i < vals@.len() ==> match #[trigger] vals@[i] {
                Some(x) => x.wf(),
                None => true,
            },
    ensures
        vals_ok::<M1, M2>(vals@) ==> (r matches Ok(o) && o@ == conv_vals::<M1, M2>(vals@)),
        !vals_ok::<M1, M2>(vals@) ==> r == Err::<Vec<Option<Fp<M2>>>, CircuitError>(
            CircuitError::DecodeError,
        ),
{
    let mut out: Vec<Option<Fp<M2>>> = Vec::new();
    let mut i: usize = 0;
    while i < vals.len()
        invariant
            i <= vals@.len(),
            out@.len() == i,
            spec_byte_width(M1) == spec_byte_width(M2),
            forall|k: int|
                0 <= k < vals@.len() ==> match #[trigger] vals@[k] {
                    Some(x) => x.wf(),
                    None => true,
                },
            forall|k: int| 0 <= k < i ==> out@[k] == conv_value::<M1, M2>(vals@[k]),
            forall|k: int|
                0 <= k < i ==> match #[trigger] vals@[k] {
                    Some(x) => x.v < M2,
                    None => true,
                },
        decreases vals@.len() - i,
    {
        match &vals[i] {
            None => {
                out.push(None);
            },
            Some(x) => {
                match crate::field::convert_fp::<M1, M2>(x) {
                    Ok(y) => {
                        out.push(Some(y));
                    },
                    Err(e) => {
                        return Err(e);
                    },
                }
            },
        }
        i = i + 1;
    }
    proof {
        assert(out@ =~= conv_vals::<M1, M2>(vals@));
    }
    Ok(out)
}

/// Reinterpret each gate's five coefficients in the destination field;
/// the first coefficient that is no canonical representative of the
/// destination field fails the whole conversion.
fn convert_gates<const M1: u64, const M2: u64>(gs: &Vec<Gate<M1>>) -> (r: Result<
    Vec<Gate<M2>>,
    CircuitError,
>)
    requires
        spec_byte_width(M1) == spec_byte_width(M2),
        forall|i: int| 0 <= i < gs@.len() ==> (#[trigger] gs@[i]).a.wf() && gs@[i].b.wf()
            && gs@[i].c.wf() && gs@[i].d.wf() && gs@[i].e.wf(),
    ensures
        gates_ok::<M1, M2>(gs@) ==> (r matches Ok(o) && o@ == conv_gates::<M1, M2>(gs@)),
        !gates_ok::<M1, M2>(gs@) ==> r == Err::<Vec<Gate<M2>>, CircuitError>(
            CircuitError::DecodeError,
        ),
{
    let mut out: Vec<Gate<M2>> = Vec::new();
    let mut i: usize = 0;
    while i < gs.len()
        invariant
            i <= gs@.len(),
            out@.len() == i,
            spec_byte_width(M1) == spec_byte_width(M2),
            forall|k: int| 0 <= k < gs@.len() ==> (#[trigger] gs@[k]).a.wf() && gs@[k].b.wf()
                && gs@[k].c.wf() && gs@[k].d.wf() && gs@[k].e.wf(),
            forall|k: int| 0 <= k < i ==> out@[k] == conv_gate::<M1, M2>(gs@[k]),
            forall|k: int| 0 <= k < i ==> gate_ok::<M1, M2>(#[trigger] gs@[k]),
        decreases gs@.len() - i,
    {
        let g = gs[i];
        let a = match crate::field::convert_fp::<M1, M2>(&g.a) {
            Ok(v) => v,
            Err(e) => {
                return Err(e);
            },
        };
        let b = match crate::field::convert_fp::<M1, M2>(&g.b) {
            Ok(v) => v,
            Err(e) => {
                return Err(e);
            },
        };
        let c = match crate::field::convert_fp::<M1, M2>(&g.c) {
            Ok(v) => v,
            Err(e) => {
                return Err(e);
            },
        };
        let d = match crate::field::convert_fp::<M1, M2>(&g.d) {
            Ok(v) => v,
            Err(e) => {
                return Err(e);
            },
        };
        let e = match crate::field::convert_fp::<M1, M2>(&g.e) {
            Ok(v) => v,
            Err(er) => {
                return Err(er);
            },
        };
        out.push(Gate { a, x: g.x, b, y: g.y, c, z: g.z, d, e });
        i = i + 1;
    }
    proof {
        assert(out@ =~= conv_gates::<M1, M2>(gs@));
    }
    Ok(out)
}

/// The synthesis bridge as one function of the frozen constraint
/// system: the row-budget check, the field reinterpretation of witness
/// and coefficients, the ascending public list, and the placement of
/// every gate, in that order. Everything the bridge returns is this
/// function of its input, which makes synthesis deterministic.
pub open spec fn spec_synth<const M1: u64, const M2: u64>(cs: CS<M1>, capacity: usize) -> Result<
    (Seq<BackendRow<M2>>, Seq<CopyConstraint>, Seq<InstanceWire>, Seq<Option<Fp<M2>>>),
    CircuitError,
> {
    if cs.gates@.len() + cs.public@.len() > capacity {
        Err(CircuitError::RowBudgetExceeded)
    } else if spec_byte_width(M1) != spec_byte_width(M2) {
        Err(CircuitError::IncompatibleFieldWidth)
    } else if !(vals_ok::<M1, M2>(cs.values@) && gates_ok::<M1, M2>(cs.gates@)) {
        Err(CircuitError::DecodeError)
    } else {
        let vals = conv_vals::<M1, M2>(cs.values@);
        let gates = conv_gates::<M1, M2>(cs.gates@);
        let pubs = sorted_of(cs.public@);
        let st = synth_after(gates, init_state(vals, pubs), gates.len() as int);
        Ok(
            (
                rows_of(gates, vals),
                st.copies,
                st.wires,
                Seq::new(pubs.len(), |j: int| vals[pubs[j] as int]),
            ),
        )
    }
}

/// Elements do not leave a multiset's support when a sequence is
/// reordered, so a bound on the original indices bounds the sorted ones.
proof fn lemma_perm_elems_bounded(pubs: Seq<usize>, sorted: Seq<usize>, n: nat)
    requires
        sorted.to_multiset() == pubs.to_multiset(),
        forall|i: int| 0 <= i < pubs.len() ==> (#[trigger] pubs[i]) < n,
    ensures
        forall|i: int| 0 <= i < sorted.len() ==> (#[trigger] sorted[i]) < n,
{
    broadcast use group_to_multiset_ensures;

    assert forall|i: int| 0 <= i < sorted.len() implies (#[trigger] sorted[i]) < n by {
        assert(sorted.contains(sorted[i]));
        assert(sorted.to_multiset().count(sorted[i]) > 0);
        assert(pubs.contains(sorted[i]));
        let j = choose|j: int| 0 <= j < pubs.len() && pubs[j] == sorted[i];
        assert(pubs[j] < n);
    }
}

/// Place one use of variable `var` into `cell`, as `place_slot` says.
fn place_slot_exec<const M: u64>(
    memo: &mut Vec<ValueReference<M>>,
    copies: &mut Vec<CopyConstraint>,
    wires: &mut Vec<InstanceWire>,
    var: usize,
    cell: Cell,
)
    requires
        var < old(memo)@.len(),
    ensures
        final(memo)@.len() == old(memo)@.len(),
        (SynthState { memo: final(memo)@, copies: final(copies)@, wires: final(wires)@ }
            == place_slot(
            SynthState { memo: old(memo)@, copies: old(copies)@, wires: old(wires)@ },
            var,
            cell,
        )),
{
    match memo[var] {
        ValueReference::RawValue(_) => {
            memo[var] = ValueReference::Placed(cell);
        },
        ValueReference::PublicSource(j) => {
            wires.push(InstanceWire { cell, index: j });
        },
        ValueReference::Placed(c) => {
            copies.push(CopyConstraint { from: c, to: cell });
        },
    }
}

/// Takes a frozen constraint system and produces the backend circuit
/// together with the ordered public values: the Field Conversion plus
/// Synthesis Bridge pipeline, placing each gate in one backend row.
/// Fails with `RowBudgetExceeded` before any placement when gates plus
/// public inputs exceed the backend's row capacity, with
/// `IncompatibleFieldWidth` when the two fields' canonical encodings
/// differ in byte width, and with `DecodeError` when a witness value or
/// coefficient is no canonical representative of the destination field.
pub fn to_backend_circuit<const M1: u64, const M2: u64>(cs: &CS<M1>, capacity: usize) -> (r:
    Result<(BackendCircuit<M2>, Vec<Option<Fp<M2>>>), CircuitError>)
    requires
        cs.wf(),
    ensures
        match spec_synth::<M1, M2>(*cs, capacity) {
            Err(e) => r == Err::<(BackendCircuit<M2>, Vec<Option<Fp<M2>>>), CircuitError>(e),
            Ok(parts) => r matches Ok(p) && p.0.rows@ == parts.0 && p.0.copies@ == parts.1
                && p.0.wires@ == parts.2 && p.0.num_instance == cs.public@.len() && p.1@
                == parts.3,
        },
{
    let ng = cs.gates.len();
    let np = cs.public.len();
    if ng > capacity || np > capacity - ng {
        return Err(CircuitError::RowBudgetExceeded);
    }
    if Fp::<M1>::byte_width() != Fp::<M2>::byte_width() {
        return Err(CircuitError::IncompatibleFieldWidth);
    }
    let vals = match convert_values::<M1, M2>(&cs.values) {
        Ok(v) => v,
        Err(e) => {
            return Err(e);
        },
    };
    let gates = match convert_gates::<M1, M2>(&cs.gates) {
        Ok(g) => g,
        Err(e) => {
            return Err(e);
        },
    };
    let pubs = sort_public(&cs.public);
    proof {
        lemma_perm_elems_bounded(cs.public@, pubs@, cs.values@.len());
    }
    let mut memo: Vec<ValueReference<M2>> = Vec::new();
    let mut i: usize = 0;
    while i < vals.len()
        invariant
            i <= vals@.len(),
            memo@.len() == i,
            forall|k: int| 0 <= k < i ==> memo@[k] == init_ref(vals@, pubs@, k),
        decreases vals@.len() - i,
    {
        proof {
            lemma_first_index_of(pubs@, i);
        }
        let vr = match find_first(&pubs, i) {
            Some(j) => ValueReference::PublicSource(j),
            None => ValueReference::RawValue(vals[i]),
        };
        memo.push(vr);
        i = i + 1;
    }
    proof {
        assert(memo@ =~= init_state(vals@, pubs@).memo);
        assert(SynthState { memo: memo@, copies: Seq::<CopyConstraint>::empty(), wires: Seq::<
            InstanceWire,
        >::empty() } =~~= init_state(vals@, pubs@));
    }
    let mut rows: Vec<BackendRow<M2>> = Vec::new();
    let mut copies: Vec<CopyConstraint> = Vec::new();
    let mut wires: Vec<InstanceWire> = Vec::new();
    let mut rr: usize = 0;
    while rr < gates.len()
        invariant
            rr <= gates@.len(),
            rows@.len() == rr,
            memo@.len() == vals@.len(),
            gates@ == conv_gates::<M1, M2>(cs.gates@),
            vals@.len() == cs.values@.len(),
            cs.wf(),
            forall|k: int| 0 <= k < rr ==> rows@[k] == row_of_gate(gates@[k], vals@),
            (SynthState { memo: memo@, copies: copies@, wires: wires@ } == synth_after(
                gates@,
                init_state(vals@, pubs@),
                rr as int,
            )),
        decreases gates@.len() - rr,
    {
        let g = gates[rr];
        proof {
            assert(g == conv_gate::<M1, M2>(cs.gates@[rr as int]));
            assert(cs.gates@[rr as int].wf(cs.values@.len()));
        }
        rows.push(
            BackendRow {
                sel: true,
                x: vals[g.x],
                y: vals[g.y],
                z: vals[g.z],
                a: g.a,
                b: g.b,
                c: g.c,
                d: g.d,
                e: g.e,
            },
        );
        let ghost st0 = SynthState { memo: memo@, copies: copies@, wires: wires@ };
        place_slot_exec(&mut memo, &mut copies, &mut wires, g.x, Cell { row: rr, col: Col::X });
        let ghost st1 = SynthState { memo: memo@, copies: copies@, wires: wires@ };
        place_slot_exec(&mut memo, &mut copies, &mut wires, g.y, Cell { row: rr, col: Col::Y });
        let ghost st2 = SynthState { memo: memo@, copies: copies@, wires: wires@ };
        place_slot_exec(&mut memo, &mut copies, &mut wires, g.z, Cell { row: rr, col: Col::Z });
        proof {
            let st3 = SynthState { memo: memo@, copies: copies@, wires: wires@ };
            assert(st1 == place_slot(st0, g.x, Cell { row: rr, col: Col::X }));
            assert(st2 == place_slot(st1, g.y, Cell { row: rr, col: Col::Y }));
            assert(st3 == place_slot(st2, g.z, Cell { row: rr, col: Col::Z }));
            assert(st3 == place_gate(st0, g, rr));
            assert(synth_after(gates@, init_state(vals@, pubs@), rr + 1) == place_gate(
                synth_after(gates@, init_state(vals@, pubs@), rr as int),
                gates@[rr as int],
                rr,
            ));
        }
        rr = rr + 1;
    }
    let mut ins: Vec<Option<Fp<M2>>> = Vec::new();
    let mut j: usize = 0;
    while j < pubs.len()
        invariant
            j <= pubs@.len(),
            ins@.len() == j,
            vals@.len() == cs.values@.len(),
            forall|k: int| 0 <= k < pubs@.len() ==> (#[trigger] pubs@[k]) < vals@.len(),
            forall|k: int| 0 <= k < j ==> ins@[k] == vals@[pubs@[k] as int],
        decreases pubs@.len() - j,
    {
        ins.push(vals[pubs[j]]);
        j = j + 1;
    }
    proof {
        let parts = spec_synth::<M1, M2>(*cs, capacity)->Ok_0;
        assert(rows@ =~= parts.0);
        assert(ins@ =~= parts.3);
    }
    Ok((BackendCircuit { rows, copies, wires, num_instance: np }, ins))
}

/// The ordered public values of a frozen constraint system: the witness
/// values named by the public-index list, in ascending index order.
pub fn extract_inputs<const M: u64>(cs: &CS<M>) -> (r: Vec<Option<Fp<M>>>)
    requires
        cs.wf(),
    ensures
        r@ == Seq::new(
            cs.public@.len() as nat,
            |j: int| cs.values@[sorted_of(cs.public@)[j] as int],
        ),
{
    let pubs = sort_public(&cs.public);
    proof {
        lemma_perm_elems_bounded(cs.public@, pubs@, cs.values@.len());
    }
    let mut out: Vec<Option<Fp<M>>> = Vec::new();
    let mut j: usize = 0;
    while j < pubs.len()
        invariant
            j <= pubs@.len(),
            out@.len() == j,
            pubs@ == sorted_of(cs.public@),
            forall|k: int| 0 <= k < pubs@.len() ==> (#[trigger] pubs@[k]) < cs.values@.len(),
            forall|k: int| 0 <= k < j ==> out@[k] == cs.values@[pubs@[k] as int],
        decreases pubs@.len() - j,
    {
        out.push(cs.values[pubs[j]]);
        j = j + 1;
    }
    proof {
        assert(out@ =~= Seq::new(
            cs.public@.len() as nat,
            |j: int| cs.values@[sorted_of(cs.public@)[j] as int],
        ));
    }
    out
}

/// The witness variable whose use a cell holds: the corresponding
/// operand index of whatever gate occupies the cell's row.
pub open spec fn cell_var<const M: u64>(gates: Seq<Gate<M>>, c: Cell) -> usize {
    match c.col {
        Col::X => gates[c.row as int].x,
        Col::Y => gates[c.row as int].y,
        Col::Z => gates[c.row as int].z,
    }
}

/// What one memo entry may say of variable `v`: a raw value is the
/// stored witness value of a non-public variable, a public source names
/// the variable's position in the ascending public list, and a placed
/// cell is a cell of some row whose gate names `v` in that slot.
pub open spec fn memo_inv<const M: u64>(
    gates: Seq<Gate<M>>,
    vals: Seq<Option<Fp<M>>>,
    pubs: Seq<usize>,
    mr: ValueReference<M>,
    v: int,
) -> bool {
    match mr {
        ValueReference::RawValue(val) => val == vals[v] && first_index_of(pubs, v as usize) == -1,
        ValueReference::PublicSource(j) => first_index_of(pubs, v as usize) == j && j < pubs.len(),
        ValueReference::Placed(c) => c.row < gates.len() && cell_var(gates, c) == v as usize
            && first_index_of(pubs, v as usize) == -1,
    }
}

/// A recorded copy constraint links two existing cells that hold uses
/// of one and the same witness variable.
pub open spec fn copy_inv<const M: u64>(gates: Seq<Gate<M>>, cc: CopyConstraint) -> bool {
    &&& cc.from.row < gates.len()
    &&& cc.to.row < gates.len()
    &&& cell_var(gates, cc.from) == cell_var(gates, cc.to)
}

/// A recorded instance wire ties an existing cell to the position its
/// variable has in the ascending public list.
pub open spec fn wire_inv<const M: u64>(
    gates: Seq<Gate<M>>,
    pubs: Seq<usize>,
    w: InstanceWire,
) -> bool {
    &&& w.cell.row < gates.len()
    &&& w.index < pubs.len()
    &&& cell_var(gates, w.cell) == pubs[w.index as int]
}

/// The placement bookkeeping invariant: what holds of the memo, the
/// copy constraints and the instance wires at every point of synthesis.
/// This is the copy-constraint discipline: no witness variable can
/// occupy two cells without a recorded link between them.
pub open spec fn state_inv<const M: u64>(
    gates: Seq<Gate<M>>,
    vals: Seq<Option<Fp<M>>>,
    pubs: Seq<usize>,
    st: SynthState<M>,
) -> bool {
    &&& st.memo.len() == vals.len()
    &&& forall|v: int| 0 <= v < st.memo.len() ==> memo_inv(gates, vals, pubs, #[trigger] st.memo[v], v)
    &&& forall|i: int| 0 <= i < st.copies.len() ==> copy_inv(gates, #[trigger] st.copies[i])
    &&& forall|i: int| 0 <= i < st.wires.len() ==> wire_inv(gates, pubs, #[trigger] st.wires[i])
}

/// Placing one slot preserves the placement invariant.
proof fn lemma_place_slot_inv<const M: u64>(
    gates: Seq<Gate<M>>,
    vals: Seq<Option<Fp<M>>>,
    pubs: Seq<usize>,
    st: SynthState<M>,
    var: usize,
    cell: Cell,
)
    requires
        state_inv(gates, vals, pubs, st),
        var < st.memo.len(),
        cell.row < gates.len(),
        cell_var(gates, cell) == var,
    ensures
        state_inv(gates, vals, pubs, place_slot(st, var, cell)),
{
    let st2 = place_slot(st, var, cell);
    assert(memo_inv(gates, vals, pubs, st.memo[var as int], var as int));
    match st.memo[var as int] {
        ValueReference::RawValue(_) => {
            assert forall|v: int|
                0 <= v < st2.memo.len() implies memo_inv(gates, vals, pubs, #[trigger] st2.memo[v], v) by {
                if v != var {
                    assert(st2.memo[v] == st.memo[v]);
                }
            }
        },
        ValueReference::PublicSource(j) => {
            lemma_first_index_of(pubs, var);
            assert(pubs[j as int] == var);
            assert(wire_inv(gates, pubs, InstanceWire { cell, index: j }));
            assert forall|i: int|
                0 <= i < st2.wires.len() implies wire_inv(gates, pubs, #[trigger] st2.wires[i]) by {
                if i < st.wires.len() {
                    assert(st2.wires[i] == st.wires[i]);
                } else {
                    assert(st2.wires[i] == InstanceWire { cell, index: j });
                }
            }
        },
        ValueReference::Placed(c) => {
            assert(copy_inv(gates, CopyConstraint { from: c, to: cell }));
            assert forall|i: int|
                0 <= i < st2.copies.len() implies copy_inv(gates, #[trigger] st2.copies[i]) by {
                if i < st.copies.len() {
                    assert(st2.copies[i] == st.copies[i]);
                } else {
                    assert(st2.copies[i] == CopyConstraint { from: c, to: cell });
                }
            }
        },
    }
}

/// Placing one gate's three slots preserves the placement invariant.
proof fn lemma_place_gate_inv<const M: u64>(
    gates: Seq<Gate<M>>,
    vals: Seq<Option<Fp<M>>>,
    pubs: Seq<usize>,
    st: SynthState<M>,
    k: usize,
)
    requires
        state_inv(gates, vals, pubs, st),
        k < gates.len(),
        gates[k as int].x < vals.len(),
        gates[k as int].y < vals.len(),
        gates[k as int].z < vals.len(),
    ensures
        state_inv(gates, vals, pubs, place_gate(st, gates[k as int], k)),
{
    let g = gates[k as int];
    let cx = Cell { row: k, col: Col::X };
    let cy = Cell { row: k, col: Col::Y };
    let cz = Cell { row: k, col: Col::Z };
    lemma_place_slot_inv(gates, vals, pubs, st, g.x, cx);
    let st1 = place_slot(st, g.x, cx);
    lemma_place_slot_inv(gates, vals, pubs, st1, g.y, cy);
    let st2 = place_slot(st1, g.y, cy);
    lemma_place_slot_inv(gates, vals, pubs, st2, g.z, cz);
}

/// Law: after any number of gates have been placed, the placement
/// bookkeeping satisfies its invariant, so every recorded copy
/// constraint links two cells of one witness variable and every
/// recorded instance wire ties a cell of a public variable to that
/// variable's position in the ascending public list.
pub proof fn lemma_synth_inv<const M: u64>(
    gates: Seq<Gate<M>>,
    vals: Seq<Option<Fp<M>>>,
    pubs: Seq<usize>,
    k: int,
)
    requires
        0 <= k <= gates.len(),
        gates.len() <= usize::MAX,
        vals.len() <= usize::MAX,
        pubs.len() <= usize::MAX,
        forall|i: int| 0 <= i < gates.len() ==> (#[trigger] gates[i]).x < vals.len() && gates[
            i
        ].y < vals.len() && gates[i].z < vals.len(),
    ensures
        state_inv(gates, vals, pubs, synth_after(gates, init_state(vals, pubs), k)),
    decreases k,
{
    if k <= 0 {
        let st0 = init_state(vals, pubs);
        assert(synth_after(gates, init_state(vals, pubs), k) == st0);
        assert(st0.memo.len() == vals.len());
        assert forall|v: int|
            0 <= v < st0.memo.len() implies memo_inv(gates, vals, pubs, #[trigger] st0.memo[v], v) by {
            lemma_first_index_of(pubs, v as usize);
            assert(st0.memo[v] == init_ref(vals, pubs, v));
        }
    } else {
        lemma_synth_inv(gates, vals, pubs, k - 1);
        lemma_place_gate_inv(
            gates,
            vals,
            pubs,
            synth_after(gates, init_state(vals, pubs), k - 1),
            (k - 1) as usize,
        );
        assert(synth_after(gates, init_state(vals, pubs), k) == place_gate(
            synth_after(gates, init_state(vals, pubs), k - 1),
            gates[k - 1],
            (k - 1) as usize,
        ));
    }
}

impl<const M: u64> BackendCircuit<M> {
    /// Structurally well formed: every copy constraint and instance
    /// wire names an existing cell, wire positions stay below the
    /// instance count, and every stored field element is canonical.
    pub open spec fn wf(self) -> bool {
        &&& forall|i: int|
            0 <= i < self.copies@.len() ==> (#[trigger] self.copies@[i]).from.row
                < self.rows@.len() && self.copies@[i].to.row < self.rows@.len()
        &&& forall|i: int|
            0 <= i < self.wires@.len() ==> (#[trigger] self.wires@[i]).cell.row
                < self.rows@.len() && self.wires@[i].index < self.num_instance
        &&& forall|i: int| 0 <= i < self.rows@.len() ==> (#[trigger] self.rows@[i]).wf()
    }
}

impl<const M: u64> BackendRow<M> {
    /// All coefficients, and all known operand values, are canonical.
    pub open spec fn wf(self) -> bool {
        &&& self.a.wf()
        &&& self.b.wf()
        &&& self.c.wf()
        &&& self.d.wf()
        &&& self.e.wf()
        &&& (self.x is Some ==> self.x->0.wf())
        &&& (self.y is Some ==> self.y->0.wf())
        &&& (self.z is Some ==> self.z->0.wf())
    }
}

/// Law: a successfully synthesized circuit is structurally well formed,
/// its copy constraints and instance wires satisfy the placement
/// invariant, and its rows are exactly the gates' rows.
pub proof fn lemma_spec_synth_ok<const M1: u64, const M2: u64>(cs: CS<M1>, capacity: usize)
    requires
        cs.wf(),
        spec_synth::<M1, M2>(cs, capacity) is Ok,
    ensures
        ({
            let parts = spec_synth::<M1, M2>(cs, capacity)->Ok_0;
            let gates = conv_gates::<M1, M2>(cs.gates@);
            let vals = conv_vals::<M1, M2>(cs.values@);
            let pubs = sorted_of(cs.public@);
            &&& parts.0 == rows_of(gates, vals)
            &&& state_inv(
                gates,
                vals,
                pubs,
                SynthState {
                    memo: synth_after(gates, init_state(vals, pubs), gates.len() as int).memo,
                    copies: parts.1,
                    wires: parts.2,
                },
            )
            &&& pubs.len() == cs.public@.len()
            &&& parts.3.len() == cs.public@.len()
            &&& forall|j: int| 0 <= j < parts.3.len() ==> parts.3[j] == vals[pubs[j] as int]
            &&& forall|j: int| 0 <= j < pubs.len() ==> (#[trigger] pubs[j]) < vals.len()
            &&& forall|i: int| 0 <= i < parts.0.len() ==> (#[trigger] parts.0[i]).wf()
            &&& parts.0.len() == cs.gates@.len()
        }),
{
    let parts = spec_synth::<M1, M2>(cs, capacity)->Ok_0;
    let gates = conv_gates::<M1, M2>(cs.gates@);
    let vals = conv_vals::<M1, M2>(cs.values@);
    let pubs = sorted_of(cs.public@);
    broadcast use group_to_multiset_ensures;

    let leq = |x: usize, y: usize| x <= y;
    assert(total_ordering(leq));
    cs.public@.lemma_sort_by_ensures(leq);
    assert(pubs.len() == pubs.to_multiset().len());
    assert(cs.public@.len() == cs.public@.to_multiset().len());
    assert(pubs.len() == cs.public@.len());
    vstd::std_specs::vec::axiom_spec_len(&cs.values);
    vstd::std_specs::vec::axiom_spec_len(&cs.public);
    vstd::std_specs::vec::axiom_spec_len(&cs.gates);
    lemma_perm_elems_bounded(cs.public@, pubs, cs.values@.len());
    assert forall|i: int|
        0 <= i < gates.len() implies (#[trigger] gates[i]).x < vals.len() && gates[i].y
        < vals.len() && gates[i].z < vals.len() by {
        assert(cs.gates@[i].wf(cs.values@.len()));
    }
    lemma_synth_inv(gates, vals, pubs, gates.len() as int);
    let st = synth_after(gates, init_state(vals, pubs), gates.len() as int);
    assert(parts.1 == st.copies);
    assert(parts.2 == st.wires);
    assert forall|i: int| 0 <= i < parts.0.len() implies (#[trigger] parts.0[i]).wf() by {
        assert(parts.0[i] == row_of_gate(gates[i], vals));
        assert(gate_ok::<M1, M2>(cs.gates@[i]));
        let g = gates[i];
        assert(g.x < vals.len() && g.y < vals.len() && g.z < vals.len());
        assert(vals_ok::<M1, M2>(cs.values@));
        assert(vals[g.x as int] == conv_value::<M1, M2>(cs.values@[g.x as int]));
        assert(vals[g.y as int] == conv_value::<M1, M2>(cs.values@[g.y as int]));
        assert(vals[g.z as int] == conv_value::<M1, M2>(cs.values@[g.z as int]));
    }
}

} // verus!
