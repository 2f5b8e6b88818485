use vstd::prelude::*;
use vstd::arithmetic::div_mod::*;
use crate::error::CircuitError;
use crate::field::Fp;

verus! {

/// A linear combination `scalar * witness[var] + constant`: the affine
/// expression every circuit value is reduced to. It carries exactly one
/// variable reference; multi-term sums are pre-reduced to this normal
/// form when circuit values are combined.
#[derive(Clone, Copy, Debug, PartialEq, Eq)]
pub struct LinComb<const M: u64> {
    pub scalar: Fp<M>,
    pub var: usize,
    pub constant: Fp<M>,
}

/// A circuit value: a linear combination over the witness, together with
/// the concrete value it takes when that is known at construction time.
#[derive(Clone, Copy, Debug, PartialEq, Eq)]
pub struct CNum<const M: u64> {
    pub value: Option<Fp<M>>,
    pub lc: LinComb<M>,
}

/// A `Gate` describes a constraint of the form
///
/// `a*x + b*y + c*z + d*x*y + e == 0`
///
/// where `x`, `y`, `z` are witness elements (represented here as indices
/// into the witness vector), while `a` ... `e` are concrete field
/// coefficients.
#[derive(Clone, Copy, Debug, PartialEq, Eq)]
pub struct Gate<const M: u64> {
    pub a: Fp<M>,
    pub x: usize,
    pub b: Fp<M>,
    pub y: usize,
    pub c: Fp<M>,
    pub z: usize,
    pub d: Fp<M>,
    pub e: Fp<M>,
}

/// The constraint system being built: the append-only witness vector, the
/// append-only gate list, the append-only list of public (input) witness
/// indices, and the tracking flag fixed at creation.
#[derive(Clone, Debug)]
pub struct CS<const M: u64> {
    pub values: Vec<Option<Fp<M>>>,
    pub gates: Vec<Gate<M>>,
    pub tracking: bool,
    /// Indices of public witness components, i.e. the inputs.
    pub public: Vec<usize>,
}

/// The value of a linear combination under a concrete witness assignment,
/// as an unreduced integer.
pub open spec fn lc_eval<const M: u64>(lc: LinComb<M>, w: Seq<int>) -> int {
    lc.scalar.v * w[lc.var as int] + lc.constant.v
}

/// The left-hand side `a*x + b*y + c*z + d*x*y + e` of a gate's equation
/// under a concrete witness assignment, as an unreduced integer.
pub open spec fn gate_poly<const M: u64>(g: Gate<M>, w: Seq<int>) -> int {
    g.a.v * w[g.x as int] + g.b.v * w[g.y as int] + g.c.v * w[g.z as int] + g.d.v * (w[
        g.x as int
    ] * w[g.y as int]) + g.e.v
}

/// The concrete witness assignment of a fully known witness vector, as
/// unreduced integers.
pub open spec fn witness_of<const M: u64>(values: Seq<Option<Fp<M>>>) -> Seq<int> {
    Seq::new(values.len(), |i: int| values[i]->0.v as int)
}

/// A gate accepts the witness assignment `w` when its equation holds in the
/// field, that is, modulo `M`.
pub open spec fn gate_sat<const M: u64>(g: Gate<M>, w: Seq<int>) -> bool {
    gate_poly(g, w) % (M as int) == 0
}

/// What `enforce_mul` compiles `x * y == z` into: with operands
/// `x = (a0, ix, c0)`, `y = (b0, iy, c1)`, `z = (g0, iz, c2)`, the
/// coefficients are `a = a0*c1`, `b = b0*c0`, `c = -g0`, `d = a0*b0`,
/// `e = c0*c1 - c2`, over the indices `(ix, iy, iz)`.
pub open spec fn mul_gate<const M: u64>(x: LinComb<M>, y: LinComb<M>, z: LinComb<M>) -> Gate<M> {
    Gate {
        a: Fp { v: ((x.scalar.v * y.constant.v) % (M as int)) as u64 },
        x: x.var,
        b: Fp { v: ((y.scalar.v * x.constant.v) % (M as int)) as u64 },
        y: y.var,
        c: Fp { v: ((0 - z.scalar.v) % (M as int)) as u64 },
        z: z.var,
        d: Fp { v: ((x.scalar.v * y.scalar.v) % (M as int)) as u64 },
        e: Fp { v: ((x.constant.v * y.constant.v - z.constant.v) % (M as int)) as u64 },
    }
}

/// What `enforce_add` compiles `x + y == z` into: the linear
/// analogue of `mul_gate`, with `d = 0`.
pub open spec fn add_gate<const M: u64>(x: LinComb<M>, y: LinComb<M>, z: LinComb<M>) -> Gate<M> {
    Gate {
        a: x.scalar,
        x: x.var,
        b: y.scalar,
        y: y.var,
        c: Fp { v: ((0 - z.scalar.v) % (M as int)) as u64 },
        z: z.var,
        d: Fp { v: 0 },
        e: Fp { v: ((x.constant.v + y.constant.v - z.constant.v) % (M as int)) as u64 },
    }
}

/// What `enforce_generic` compiles the raw relation
/// `a*X + b*Y + c*Z + d*X*Y + e == 0` into, where `X`, `Y`, `Z` are the
/// values of the three linear-combination operands.
pub open spec fn generic_gate<const M: u64>(
    x: LinComb<M>,
    y: LinComb<M>,
    z: LinComb<M>,
    a: Fp<M>,
    b: Fp<M>,
    c: Fp<M>,
    d: Fp<M>,
    e: Fp<M>,
) -> Gate<M> {
    Gate {
        a: Fp { v: ((a.v * x.scalar.v + d.v * (x.scalar.v * y.constant.v)) % (M as int)) as u64 },
        x: x.var,
        b: Fp { v: ((b.v * y.scalar.v + d.v * (y.scalar.v * x.constant.v)) % (M as int)) as u64 },
        y: y.var,
        c: Fp { v: ((c.v * z.scalar.v) % (M as int)) as u64 },
        z: z.var,
        d: Fp { v: ((d.v * (x.scalar.v * y.scalar.v)) % (M as int)) as u64 },
        e: Fp {
            v: ((a.v * x.constant.v + b.v * y.constant.v + c.v * z.constant.v + d.v * (
            x.constant.v * y.constant.v
            ) + e.v) % (M as int)) as u64,
        },
    }
}

/// What `inputize` uses to tie a composite linear combination to
/// a freshly allocated witness slot `i`: it enforces
/// `scalar*w[var] + constant - w[i] == 0`.
pub open spec fn eq_gate<const M: u64>(lc: LinComb<M>, i: usize) -> Gate<M> {
    Gate {
        a: lc.scalar,
        x: lc.var,
        b: Fp { v: (M - 1) as u64 },
        y: i,
        c: Fp { v: 0 },
        z: i,
        d: Fp { v: 0 },
        e: lc.constant,
    }
}

impl<const M: u64> LinComb<M> {
    /// The linear combination's coefficients are canonical and its
    /// variable index names an existing witness slot.
    pub open spec fn wf(self, n_vars: nat) -> bool {
        &&& self.scalar.wf()
        &&& self.constant.wf()
        &&& self.var < n_vars
    }
}

impl<const M: u64> CNum<M> {
    /// The circuit value is well formed with respect to a witness vector
    /// of `n_vars` slots.
    pub open spec fn wf(self, n_vars: nat) -> bool {
        &&& self.lc.wf(n_vars)
        &&& match self.value {
            Some(v) => v.wf(),
            None => true,
        }
    }

    /// The tracked concrete value, when present, is what the linear
    /// combination evaluates to under the stored witness.
    pub open spec fn consistent_with(self, values: Seq<Option<Fp<M>>>) -> bool {
        match self.value {
            Some(v) => {
                &&& values[self.lc.var as int] is Some
                &&& v.v as int == (self.lc.scalar.v * values[self.lc.var as int]->0.v
                    + self.lc.constant.v) % (M as int)
            },
            None => true,
        }
    }
}

impl<const M: u64> Gate<M> {
    /// All five coefficients are canonical and all three indices name
    /// existing witness slots.
    pub open spec fn wf(self, n_vars: nat) -> bool {
        &&& self.a.wf()
        &&& self.b.wf()
        &&& self.c.wf()
        &&& self.d.wf()
        &&& self.e.wf()
        &&& self.x < n_vars
        &&& self.y < n_vars
        &&& self.z < n_vars
    }
}

impl<const M: u64> CS<M> {
    /// The constraint system's invariant: every stored witness value is
    /// canonical, every gate speaks of existing witness slots with
    /// canonical coefficients, and every public index names an existing
    /// witness slot.
    pub open spec fn wf(self) -> bool {
        &&& M >= 2
        &&& forall|i: int|
            0 <= i < self.values@.len() ==> match #[trigger] self.values@[i] {
                Some(v) => v.wf(),
                None => true,
            }
        &&& forall|i: int|
            0 <= i < self.gates@.len() ==> (#[trigger] self.gates@[i]).wf(self.values@.len())
        &&& forall|i: int|
            0 <= i < self.public@.len() ==> (#[trigger] self.public@[i]) < self.values@.len()
    }

    /// The number of gates accumulated so far.
    pub fn num_gate(&self) -> (r: usize)
        ensures
            r == self.gates@.len(),
    {
        self.gates.len()
    }

    /// The number of public (input) witness indices.
    pub fn num_public(&self) -> (r: usize)
        ensures
            r == self.public@.len(),
    {
        self.public.len()
    }

    /// The total number of witness slots allocated so far.
    pub fn num_var(&self) -> (r: usize)
        ensures
            r == self.values@.len(),
    {
        self.values.len()
    }

    /// The number of auxiliary (non-public) witness slots.
    pub fn num_aux(&self) -> (r: usize)
        requires
            self.public@.len() <= self.values@.len(),
        ensures
            r + self.public@.len() == self.values@.len(),
    {
        self.values.len() - self.public.len()
    }

    /// Indexed witness lookup; `IndexOutOfRange` on an invalid index.
    pub fn get_value(&self, i: usize) -> (r: Result<Option<Fp<M>>, CircuitError>)
        ensures
            i < self.values@.len() ==> r == Ok::<Option<Fp<M>>, CircuitError>(self.values@[i as int]),
            i >= self.values@.len() ==> r == Err::<Option<Fp<M>>, CircuitError>(
                CircuitError::IndexOutOfRange,
            ),
    {
        if i < self.values.len() {
            Ok(self.values[i])
        } else {
            Err(CircuitError::IndexOutOfRange)
        }
    }

    /// Indexed gate lookup, for ordered replay of the accumulated gates;
    /// `IndexOutOfRange` on an invalid index.
    pub fn get_gate(&self, i: usize) -> (r: Result<Gate<M>, CircuitError>)
        ensures
            i < self.gates@.len() ==> r == Ok::<Gate<M>, CircuitError>(self.gates@[i as int]),
            i >= self.gates@.len() ==> r == Err::<Gate<M>, CircuitError>(
                CircuitError::IndexOutOfRange,
            ),
    {
        if i < self.gates.len() {
            Ok(self.gates[i])
        } else {
            Err(CircuitError::IndexOutOfRange)
        }
    }

    /// A fresh, empty constraint system. When `tracking` is set, each
    /// enforce operation eagerly checks satisfaction over the concrete
    /// witness values it is given.
    pub fn new(tracking: bool) -> (r: CS<M>)
        requires
            M >= 2,
        ensures
            r.values@.len() == 0,
            r.gates@.len() == 0,
            r.public@.len() == 0,
            r.tracking == tracking,
            r.wf(),
    {
        CS { values: Vec::new(), gates: Vec::new(), tracking, public: Vec::new() }
    }

    /// A fresh constraint system to be used as the single construction
    /// handle that every circuit value refers to. Construction is
    /// single-owner and sequential, so the handle is the system itself.
    pub fn rc_new(tracking: bool) -> (r: CS<M>)
        requires
            M >= 2,
        ensures
            r.values@.len() == 0,
            r.gates@.len() == 0,
            r.public@.len() == 0,
            r.tracking == tracking,
            r.wf(),
    {
        Self::new(tracking)
    }

    /// Append a fresh witness slot holding `value` (or unknown) and
    /// return the bare circuit value `1 * witness[new index] + 0`.
    pub fn alloc_var(&mut self, value: Option<Fp<M>>) -> (r: CNum<M>)
        requires
            old(self).wf(),
            match value {
                Some(v) => v.wf(),
                None => true,
            },
        ensures
            final(self).wf(),
            final(self).values@ == old(self).values@.push(value),
            final(self).gates@ == old(self).gates@,
            final(self).public@ == old(self).public@,
            final(self).tracking == old(self).tracking,
            r.value == value,
            r.lc.scalar.v == 1,
            r.lc.var == old(self).values@.len(),
            r.lc.constant.v == 0,
            r.wf(final(self).values@.len() as nat),
            r.consistent_with(final(self).values@),
    {
        let v = self.values.len();
        self.values.push(value);
        let r = CNum {
            value,
            lc: LinComb { scalar: Fp::one(), var: v, constant: Fp::zero() },
        };
        proof {
            match value {
                Some(x) => {
                    lemma_small_mod(x.v as nat, M as nat);
                    assert(1 * x.v as int == x.v as int) by (nonlinear_arith);
                },
                None => {},
            }
        }
        r
    }
}

/// A summand may be replaced by one congruent to it modulo `m` without
/// changing the sum's residue.
proof fn lemma_add_congruent(m: int, a: int, b: int, a2: int, b2: int)
    requires
        m > 0,
        a % m == a2 % m,
        b % m == b2 % m,
    ensures
        (a + b) % m == (a2 + b2) % m,
{
    lemma_add_mod_noop(a, b, m);
    lemma_add_mod_noop(a2, b2, m);
}

/// A factor may be replaced by one congruent to it modulo `m` without
/// changing the product's residue.
proof fn lemma_mul_congruent_left(m: int, a: int, a2: int, t: int)
    requires
        m > 0,
        a % m == a2 % m,
    ensures
        (a * t) % m == (a2 * t) % m,
{
    lemma_mul_mod_noop_left(a, t, m);
    lemma_mul_mod_noop_left(a2, t, m);
}

/// A gate whose five coefficients are the mod-`M` reductions of the five
/// given integers has the same residue, and so the same satisfaction, as
/// the polynomial built from the unreduced integers.
proof fn lemma_gate_poly_congruent<const M: u64>(
    g: Gate<M>,
    ca: int,
    cb: int,
    cc: int,
    cd: int,
    ce: int,
    w: Seq<int>,
)
    requires
        M >= 1,
        g.a.v as int == ca % (M as int),
        g.b.v as int == cb % (M as int),
        g.c.v as int == cc % (M as int),
        g.d.v as int == cd % (M as int),
        g.e.v as int == ce % (M as int),
        g.x < w.len(),
        g.y < w.len(),
        g.z < w.len(),
    ensures
        gate_poly(g, w) % (M as int) == (ca * w[g.x as int] + cb * w[g.y as int] + cc * w[
            g.z as int
        ] + cd * (w[g.x as int] * w[g.y as int]) + ce) % (M as int),
{
    let m = M as int;
    let wx = w[g.x as int];
    let wy = w[g.y as int];
    let wz = w[g.z as int];
    lemma_mod_twice(ca, m);
    lemma_mod_twice(cb, m);
    lemma_mod_twice(cc, m);
    lemma_mod_twice(cd, m);
    lemma_mod_twice(ce, m);
    lemma_mul_congruent_left(m, g.a.v as int, ca, wx);
    lemma_mul_congruent_left(m, g.b.v as int, cb, wy);
    lemma_mul_congruent_left(m, g.c.v as int, cc, wz);
    lemma_mul_congruent_left(m, g.d.v as int, cd, wx * wy);
    lemma_add_congruent(m, g.a.v * wx, g.b.v * wy, ca * wx, cb * wy);
    lemma_add_congruent(m, g.a.v * wx + g.b.v * wy, g.c.v * wz, ca * wx + cb * wy, cc * wz);
    lemma_add_congruent(
        m,
        g.a.v * wx + g.b.v * wy + g.c.v * wz,
        g.d.v * (wx * wy),
        ca * wx + cb * wy + cc * wz,
        cd * (wx * wy),
    );
    lemma_add_congruent(
        m,
        g.a.v * wx + g.b.v * wy + g.c.v * wz + g.d.v * (wx * wy),
        g.e.v as int,
        ca * wx + cb * wy + cc * wz + cd * (wx * wy),
        ce,
    );
}


/// Expanding a product of two affine terms.
proof fn lemma_binomial_product(a0: int, c0: int, b0: int, c1: int, wx: int, wy: int)
    ensures
        (a0 * wx + c0) * (b0 * wy + c1) == (a0 * b0) * (wx * wy) + (a0 * c1) * wx + (b0 * c0) * wy
            + c0 * c1,
{
    assert((a0 * wx + c0) * (b0 * wy + c1) == (a0 * wx) * (b0 * wy) + (a0 * wx) * c1 + c0 * (b0
        * wy) + c0 * c1) by (nonlinear_arith);
    assert((a0 * wx) * (b0 * wy) == (a0 * b0) * (wx * wy)) by (nonlinear_arith);
    assert((a0 * wx) * c1 == (a0 * c1) * wx) by (nonlinear_arith);
    assert(c0 * (b0 * wy) == (b0 * c0) * wy) by (nonlinear_arith);
}

/// Law: the compiled multiplication gate is satisfied by exactly those
/// witness assignments under which the operands satisfy `x * y == z` in
/// the field.
pub proof fn lemma_mul_gate_sound<const M: u64>(
    x: LinComb<M>,
    y: LinComb<M>,
    z: LinComb<M>,
    w: Seq<int>,
)
    requires
        M >= 1,
        x.var < w.len(),
        y.var < w.len(),
        z.var < w.len(),
    ensures
        gate_sat(mul_gate(x, y, z), w) <==> (lc_eval(x, w) * lc_eval(y, w) - lc_eval(z, w)) % (
        M as int) == 0,
{
    let m = M as int;
    let g = mul_gate(x, y, z);
    let a0 = x.scalar.v as int;
    let c0 = x.constant.v as int;
    let b0 = y.scalar.v as int;
    let c1 = y.constant.v as int;
    let g0 = z.scalar.v as int;
    let c2 = z.constant.v as int;
    let wx = w[x.var as int];
    let wy = w[y.var as int];
    let wz = w[z.var as int];
    lemma_gate_poly_congruent(g, a0 * c1, b0 * c0, 0 - g0, a0 * b0, c0 * c1 - c2, w);
    lemma_binomial_product(a0, c0, b0, c1, wx, wy);
    assert((0 - g0) * wz == 0 - g0 * wz) by (nonlinear_arith);
    assert((a0 * c1) * wx + (b0 * c0) * wy + (0 - g0) * wz + (a0 * b0) * (wx * wy) + (c0 * c1
        - c2) == (a0 * wx + c0) * (b0 * wy + c1) - (g0 * wz + c2));
}

/// Law: the compiled addition gate is satisfied by exactly those witness
/// assignments under which the operands satisfy `x + y == z` in the
/// field.
pub proof fn lemma_add_gate_sound<const M: u64>(
    x: LinComb<M>,
    y: LinComb<M>,
    z: LinComb<M>,
    w: Seq<int>,
)
    requires
        M >= 1,
        x.wf(w.len()),
        y.wf(w.len()),
        z.wf(w.len()),
    ensures
        gate_sat(add_gate(x, y, z), w) <==> (lc_eval(x, w) + lc_eval(y, w) - lc_eval(z, w)) % (
        M as int) == 0,
{
    let m = M as int;
    let g = add_gate(x, y, z);
    let a0 = x.scalar.v as int;
    let c0 = x.constant.v as int;
    let b0 = y.scalar.v as int;
    let c1 = y.constant.v as int;
    let g0 = z.scalar.v as int;
    let c2 = z.constant.v as int;
    let wx = w[x.var as int];
    let wy = w[y.var as int];
    let wz = w[z.var as int];
    lemma_small_mod(x.scalar.v as nat, M as nat);
    lemma_small_mod(y.scalar.v as nat, M as nat);
    lemma_small_mod(0, M as nat);
    lemma_gate_poly_congruent(g, a0, b0, 0 - g0, 0, c0 + c1 - c2, w);
    assert(a0 * wx + b0 * wy + (0 - g0) * wz + 0 * (wx * wy) + (c0 + c1 - c2) == (a0 * wx + c0) + (
    b0 * wy + c1) - (g0 * wz + c2)) by (nonlinear_arith);
}

/// Law: the compiled generic gate is satisfied by exactly those witness
/// assignments under which the raw relation
/// `a*X + b*Y + c*Z + d*X*Y + e == 0` holds in the field, where `X`, `Y`
/// and `Z` are the operands' values.
pub proof fn lemma_generic_gate_sound<const M: u64>(
    x: LinComb<M>,
    y: LinComb<M>,
    z: LinComb<M>,
    a: Fp<M>,
    b: Fp<M>,
    c: Fp<M>,
    d: Fp<M>,
    e: Fp<M>,
    w: Seq<int>,
)
    requires
        M >= 1,
        x.var < w.len(),
        y.var < w.len(),
        z.var < w.len(),
        e.wf(),
    ensures
        gate_sat(generic_gate(x, y, z, a, b, c, d, e), w) <==> (a.v * lc_eval(x, w) + b.v * lc_eval(
            y,
            w,
        ) + c.v * lc_eval(z, w) + d.v * (lc_eval(x, w) * lc_eval(y, w)) + e.v) % (M as int) == 0,
{
    let m = M as int;
    let g = generic_gate(x, y, z, a, b, c, d, e);
    let a0 = x.scalar.v as int;
    let c0 = x.constant.v as int;
    let b0 = y.scalar.v as int;
    let c1 = y.constant.v as int;
    let g0 = z.scalar.v as int;
    let c2 = z.constant.v as int;
    let wx = w[x.var as int];
    let wy = w[y.var as int];
    let wz = w[z.var as int];
    let av = a.v as int;
    let bv = b.v as int;
    let cv = c.v as int;
    let dv = d.v as int;
    let ev = e.v as int;
    lemma_small_mod(e.v as nat, M as nat);
    lemma_gate_poly_congruent(
        g,
        av * a0 + dv * (a0 * c1),
        bv * b0 + dv * (b0 * c0),
        cv * g0,
        dv * (a0 * b0),
        av * c0 + bv * c1 + cv * c2 + dv * (c0 * c1) + ev,
        w,
    );
    lemma_binomial_product(a0, c0, b0, c1, wx, wy);
    assert(av * (a0 * wx + c0) == (av * a0) * wx + av * c0) by (nonlinear_arith);
    assert(bv * (b0 * wy + c1) == (bv * b0) * wy + bv * c1) by (nonlinear_arith);
    assert(cv * (g0 * wz + c2) == (cv * g0) * wz + cv * c2) by (nonlinear_arith);
    let t1 = (a0 * b0) * (wx * wy);
    let t2 = (a0 * c1) * wx;
    let t3 = (b0 * c0) * wy;
    let t4 = c0 * c1;
    vstd::arithmetic::mul::lemma_mul_is_distributive_add(dv, t1 + t2 + t3, t4);
    vstd::arithmetic::mul::lemma_mul_is_distributive_add(dv, t1 + t2, t3);
    vstd::arithmetic::mul::lemma_mul_is_distributive_add(dv, t1, t2);
    vstd::arithmetic::mul::lemma_mul_is_associative(dv, a0 * b0, wx * wy);
    vstd::arithmetic::mul::lemma_mul_is_associative(dv, a0 * c1, wx);
    vstd::arithmetic::mul::lemma_mul_is_associative(dv, b0 * c0, wy);
    assert(dv * (t1 + t2 + t3 + t4) == (dv * (a0 * b0)) * (wx * wy) + (dv * (a0 * c1)) * wx + (dv
        * (b0 * c0)) * wy + dv * (c0 * c1));
    assert((av * a0 + dv * (a0 * c1)) * wx == (av * a0) * wx + (dv * (a0 * c1)) * wx)
        by (nonlinear_arith);
    assert((bv * b0 + dv * (b0 * c0)) * wy == (bv * b0) * wy + (dv * (b0 * c0)) * wy)
        by (nonlinear_arith);
    assert((av * a0 + dv * (a0 * c1)) * wx + (bv * b0 + dv * (b0 * c0)) * wy + (cv * g0) * wz + (dv
        * (a0 * b0)) * (wx * wy) + (av * c0 + bv * c1 + cv * c2 + dv * (c0 * c1) + ev) == av * (a0
        * wx + c0) + bv * (b0 * wy + c1) + cv * (g0 * wz + c2) + dv * ((a0 * wx + c0) * (b0 * wy
        + c1)) + ev);
}

/// Law: the equality gate emitted by `inputize` is satisfied by exactly
/// those witness assignments under which the linear combination equals
/// the fresh slot's value in the field.
pub proof fn lemma_eq_gate_sound<const M: u64>(lc: LinComb<M>, i: usize, w: Seq<int>)
    requires
        M >= 2,
        lc.wf(w.len()),
        i < w.len(),
    ensures
        gate_sat(eq_gate(lc, i), w) <==> (lc_eval(lc, w) - w[i as int]) % (M as int) == 0,
{
    let m = M as int;
    let g = eq_gate(lc, i);
    let a0 = lc.scalar.v as int;
    let c0 = lc.constant.v as int;
    let wx = w[lc.var as int];
    let wy = w[i as int];
    lemma_small_mod(lc.scalar.v as nat, M as nat);
    lemma_small_mod(lc.constant.v as nat, M as nat);
    lemma_small_mod(0, M as nat);
    lemma_mod_add_multiples_vanish(0 - 1, m);
    lemma_small_mod((M - 1) as nat, M as nat);
    lemma_gate_poly_congruent(g, a0, 0 - 1, 0, 0, c0, w);
    assert(a0 * wx + (0 - 1) * wy + 0 * wy + 0 * (wx * wy) + c0 == (a0 * wx + c0) - wy)
        by (nonlinear_arith);
}

/// `enforce_mul` fails fast exactly when tracking is on, all three
/// operand values are known, and they do not satisfy `x * y == z` in the
/// field.
pub open spec fn mul_violation<const M: u64>(
    tracking: bool,
    x: CNum<M>,
    y: CNum<M>,
    z: CNum<M>,
) -> bool {
    &&& tracking
    &&& x.value is Some
    &&& y.value is Some
    &&& z.value is Some
    &&& (x.value->0.v * y.value->0.v) % (M as int) != z.value->0.v as int
}

/// `enforce_add` fails fast exactly when tracking is on, all three
/// operand values are known, and they do not satisfy `x + y == z` in the
/// field.
pub open spec fn add_violation<const M: u64>(
    tracking: bool,
    x: CNum<M>,
    y: CNum<M>,
    z: CNum<M>,
) -> bool {
    &&& tracking
    &&& x.value is Some
    &&& y.value is Some
    &&& z.value is Some
    &&& (x.value->0.v + y.value->0.v) % (M as int) != z.value->0.v as int
}

/// `enforce_generic` fails fast exactly when tracking is on, all three
/// operand values are known, and they do not satisfy the raw relation
/// `a*x + b*y + c*z + d*x*y + e == 0` in the field.
pub open spec fn generic_violation<const M: u64>(
    tracking: bool,
    x: CNum<M>,
    y: CNum<M>,
    z: CNum<M>,
    a: Fp<M>,
    b: Fp<M>,
    c: Fp<M>,
    d: Fp<M>,
    e: Fp<M>,
) -> bool {
    &&& tracking
    &&& x.value is Some
    &&& y.value is Some
    &&& z.value is Some
    &&& (a.v * x.value->0.v + b.v * y.value->0.v + c.v * z.value->0.v + d.v * (x.value->0.v
        * y.value->0.v) + e.v) % (M as int) != 0
}

impl<const M: u64> CS<M> {
    /// Enforce `x * y == z`: compile the relation into exactly one gate
    /// with the fixed algebraic substitution of `mul_gate`. Under
    /// tracking, when all three operand values are known, the identity is
    /// first checked over those values and the operation fails with
    /// `UnsatisfiedConstraint` if it does not hold.
    pub fn enforce_mul(&mut self, x: &CNum<M>, y: &CNum<M>, z: &CNum<M>) -> (r: Result<
        (),
        CircuitError,
    >)
        requires
            old(self).wf(),
            x.wf(old(self).values@.len() as nat),
            y.wf(old(self).values@.len() as nat),
            z.wf(old(self).values@.len() as nat),
        ensures
            final(self).wf(),
            final(self).values@ == old(self).values@,
            final(self).public@ == old(self).public@,
            final(self).tracking == old(self).tracking,
            mul_violation(old(self).tracking, *x, *y, *z) ==> {
                &&& r == Err::<(), CircuitError>(CircuitError::UnsatisfiedConstraint)
                &&& final(self).gates@ == old(self).gates@
            },
            !mul_violation(old(self).tracking, *x, *y, *z) ==> {
                &&& r == Ok::<(), CircuitError>(())
                &&& final(self).gates@ == old(self).gates@.push(mul_gate(x.lc, y.lc, z.lc))
            },
    {
        if self.tracking {
            match (x.value, y.value, z.value) {
                (Some(xv), Some(yv), Some(zv)) => {
                    if xv.mul(yv).v != zv.v {
                        return Err(CircuitError::UnsatisfiedConstraint);
                    }
                },
                _ => {},
            }
        }
        let g = Gate {
            a: x.lc.scalar.mul(y.lc.constant),
            x: x.lc.var,
            b: y.lc.scalar.mul(x.lc.constant),
            y: y.lc.var,
            c: z.lc.scalar.neg(),
            z: z.lc.var,
            d: x.lc.scalar.mul(y.lc.scalar),
            e: x.lc.constant.mul(y.lc.constant).sub(z.lc.constant),
        };
        proof {
            let m = M as int;
            lemma_sub_mod_noop(
                x.lc.constant.v * y.lc.constant.v,
                z.lc.constant.v as int,
                m,
            );
            lemma_small_mod(z.lc.constant.v as nat, M as nat);
            lemma_mod_twice(x.lc.constant.v * y.lc.constant.v, m);
            assert(g == mul_gate(x.lc, y.lc, z.lc));
        }
        self.gates.push(g);
        Ok(())
    }

    /// Enforce `x + y == z`: compile the relation into exactly one gate
    /// with the linear substitution of `add_gate`. Under tracking, when
    /// all three operand values are known, the identity is first checked
    /// over those values and the operation fails with
    /// `UnsatisfiedConstraint` if it does not hold.
    pub fn enforce_add(&mut self, x: &CNum<M>, y: &CNum<M>, z: &CNum<M>) -> (r: Result<
        (),
        CircuitError,
    >)
        requires
            old(self).wf(),
            x.wf(old(self).values@.len() as nat),
            y.wf(old(self).values@.len() as nat),
            z.wf(old(self).values@.len() as nat),
        ensures
            final(self).wf(),
            final(self).values@ == old(self).values@,
            final(self).public@ == old(self).public@,
            final(self).tracking == old(self).tracking,
            add_violation(old(self).tracking, *x, *y, *z) ==> {
                &&& r == Err::<(), CircuitError>(CircuitError::UnsatisfiedConstraint)
                &&& final(self).gates@ == old(self).gates@
            },
            !add_violation(old(self).tracking, *x, *y, *z) ==> {
                &&& r == Ok::<(), CircuitError>(())
                &&& final(self).gates@ == old(self).gates@.push(add_gate(x.lc, y.lc, z.lc))
            },
    {
        if self.tracking {
            match (x.value, y.value, z.value) {
                (Some(xv), Some(yv), Some(zv)) => {
                    if xv.add(yv).v != zv.v {
                        return Err(CircuitError::UnsatisfiedConstraint);
                    }
                },
                _ => {},
            }
        }
        let g = Gate {
            a: x.lc.scalar,
            x: x.lc.var,
            b: y.lc.scalar,
            y: y.lc.var,
            c: z.lc.scalar.neg(),
            z: z.lc.var,
            d: Fp::zero(),
            e: x.lc.constant.add(y.lc.constant).sub(z.lc.constant),
        };
        proof {
            let m = M as int;
            lemma_sub_mod_noop(
                x.lc.constant.v + y.lc.constant.v,
                z.lc.constant.v as int,
                m,
            );
            lemma_small_mod(z.lc.constant.v as nat, M as nat);
            lemma_mod_twice(x.lc.constant.v + y.lc.constant.v, m);
            assert(g == add_gate(x.lc, y.lc, z.lc));
        }
        self.gates.push(g);
        Ok(())
    }

    /// Enforce the raw gate relation `a*x + b*y + c*z + d*x*y + e == 0`
    /// over three linear-combination operands: the general form every
    /// other constraint is compiled into. Under tracking, when all three
    /// operand values are known, the relation is first checked over those
    /// values and the operation fails with `UnsatisfiedConstraint` if it
    /// does not hold.
    pub fn enforce_generic(
        &mut self,
        x: &CNum<M>,
        y: &CNum<M>,
        z: &CNum<M>,
        a: &Fp<M>,
        b: &Fp<M>,
        c: &Fp<M>,
        d: &Fp<M>,
        e: &Fp<M>,
    ) -> (r: Result<(), CircuitError>)
        requires
            old(self).wf(),
            x.wf(old(self).values@.len() as nat),
            y.wf(old(self).values@.len() as nat),
            z.wf(old(self).values@.len() as nat),
            a.wf(),
            b.wf(),
            c.wf(),
            d.wf(),
            e.wf(),
        ensures
            final(self).wf(),
            final(self).values@ == old(self).values@,
            final(self).public@ == old(self).public@,
            final(self).tracking == old(self).tracking,
            generic_violation(old(self).tracking, *x, *y, *z, *a, *b, *c, *d, *e) ==> {
                &&& r == Err::<(), CircuitError>(CircuitError::UnsatisfiedConstraint)
                &&& final(self).gates@ == old(self).gates@
            },
            !generic_violation(old(self).tracking, *x, *y, *z, *a, *b, *c, *d, *e) ==> {
                &&& r == Ok::<(), CircuitError>(())
                &&& final(self).gates@ == old(self).gates@.push(
                    generic_gate(x.lc, y.lc, z.lc, *a, *b, *c, *d, *e),
                )
            },
    {
        if self.tracking {
            match (x.value, y.value, z.value) {
                (Some(xv), Some(yv), Some(zv)) => {
                    let t1 = a.mul(xv);
                    let t2 = b.mul(yv);
                    let t3 = c.mul(zv);
                    let t4 = d.mul(xv).mul(yv);
                    let s = t1.add(t2).add(t3).add(t4).add(*e);
                    proof {
                        let m = M as int;
                        let av = a.v as int;
                        let bv = b.v as int;
                        let cv = c.v as int;
                        let dv = d.v as int;
                        let xi = xv.v as int;
                        let yi = yv.v as int;
                        let zi = zv.v as int;
                        lemma_mul_mod_noop_left(dv * xi, yi, m);
                        vstd::arithmetic::mul::lemma_mul_is_associative(dv, xi, yi);
                        lemma_add_mod_noop(av * xi, bv * yi, m);
                        lemma_add_mod_noop(av * xi + bv * yi, cv * zi, m);
                        lemma_add_mod_noop(av * xi + bv * yi + cv * zi, dv * (xi * yi), m);
                        lemma_small_mod(e.v as nat, M as nat);
                        lemma_add_mod_noop(
                            av * xi + bv * yi + cv * zi + dv * (xi * yi),
                            e.v as int,
                            m,
                        );
                        assert(s.v as int == (av * xi + bv * yi + cv * zi + dv * (xi * yi)
                            + e.v) % m);
                    }
                    if s.v != 0 {
                        return Err(CircuitError::UnsatisfiedConstraint);
                    }
                },
                _ => {},
            }
        }
        let ga = a.mul(x.lc.scalar).add(d.mul(x.lc.scalar).mul(y.lc.constant));
        let gb = b.mul(y.lc.scalar).add(d.mul(y.lc.scalar).mul(x.lc.constant));
        let gc = c.mul(z.lc.scalar);
        let gd = d.mul(x.lc.scalar).mul(y.lc.scalar);
        let ge = a.mul(x.lc.constant).add(b.mul(y.lc.constant)).add(c.mul(z.lc.constant)).add(
            d.mul(x.lc.constant).mul(y.lc.constant),
        ).add(*e);
        let g = Gate {
            a: ga,
            x: x.lc.var,
            b: gb,
            y: y.lc.var,
            c: gc,
            z: z.lc.var,
            d: gd,
            e: ge,
        };
        proof {
            let m = M as int;
            let av = a.v as int;
            let bv = b.v as int;
            let cv = c.v as int;
            let dv = d.v as int;
            let ev = e.v as int;
            let a0 = x.lc.scalar.v as int;
            let c0 = x.lc.constant.v as int;
            let b0 = y.lc.scalar.v as int;
            let c1 = y.lc.constant.v as int;
            let g0 = z.lc.scalar.v as int;
            let c2 = z.lc.constant.v as int;
            // ga: ((av*a0) % m + ((dv*a0) % m * c1) % m) % m == (av*a0 + dv*(a0*c1)) % m
            lemma_mul_mod_noop_left(dv * a0, c1, m);
            lemma_mod_twice(dv * a0, m);
            vstd::arithmetic::mul::lemma_mul_is_associative(dv, a0, c1);
            lemma_mod_twice(av * a0, m);
            lemma_mod_twice(dv * (a0 * c1), m);
            lemma_add_congruent(m, (av * a0) % m, (dv * (a0 * c1)) % m, av * a0, dv * (a0 * c1));
            assert(ga.v as int == (av * a0 + dv * (a0 * c1)) % m);
            // gb
            lemma_mul_mod_noop_left(dv * b0, c0, m);
            lemma_mod_twice(dv * b0, m);
            vstd::arithmetic::mul::lemma_mul_is_associative(dv, b0, c0);
            lemma_mod_twice(bv * b0, m);
            lemma_mod_twice(dv * (b0 * c0), m);
            lemma_add_congruent(m, (bv * b0) % m, (dv * (b0 * c0)) % m, bv * b0, dv * (b0 * c0));
            assert(gb.v as int == (bv * b0 + dv * (b0 * c0)) % m);
            // gd: ((dv*a0) % m * b0) % m == (dv*(a0*b0)) % m
            lemma_mul_mod_noop_left(dv * a0, b0, m);
            lemma_mod_twice(dv * a0, m);
            vstd::arithmetic::mul::lemma_mul_is_associative(dv, a0, b0);
            assert(gd.v as int == (dv * (a0 * b0)) % m);
            // ge
            lemma_mul_mod_noop_left(dv * c0, c1, m);
            vstd::arithmetic::mul::lemma_mul_is_associative(dv, c0, c1);
            lemma_add_mod_noop(av * c0, bv * c1, m);
            lemma_add_mod_noop(av * c0 + bv * c1, cv * c2, m);
            lemma_add_mod_noop(av * c0 + bv * c1 + cv * c2, dv * (c0 * c1), m);
            lemma_small_mod(e.v as nat, M as nat);
            lemma_add_mod_noop(av * c0 + bv * c1 + cv * c2 + dv * (c0 * c1), ev, m);
            assert(ge.v as int == (av * c0 + bv * c1 + cv * c2 + dv * (c0 * c1) + ev) % m);
            assert(g == generic_gate(x.lc, y.lc, z.lc, *a, *b, *c, *d, *e));
        }
        self.gates.push(g);
        Ok(())
    }

    /// Expose a circuit value as a public input. A bare variable
    /// reference (`scalar == 1`, `constant == 0`) has its index appended
    /// to the public-index list directly; any other combination first
    /// gets a fresh witness slot holding its value, tied to it by an
    /// equality gate, so that public indices always name pure witness
    /// slots.
    pub fn inputize(&mut self, n: &CNum<M>)
        requires
            old(self).wf(),
            n.wf(old(self).values@.len() as nat),
        ensures
            final(self).wf(),
            final(self).tracking == old(self).tracking,
            (n.lc.scalar.v == 1 && n.lc.constant.v == 0) ==> {
                &&& final(self).public@ == old(self).public@.push(n.lc.var)
                &&& final(self).values@ == old(self).values@
                &&& final(self).gates@ == old(self).gates@
            },
            !(n.lc.scalar.v == 1 && n.lc.constant.v == 0) ==> {
                &&& final(self).values@ == old(self).values@.push(n.value)
                &&& final(self).gates@ == old(self).gates@.push(
                    eq_gate(n.lc, old(self).values@.len() as usize),
                )
                &&& final(self).public@ == old(self).public@.push(
                    old(self).values@.len() as usize,
                )
            },
    {
        let v: usize = if n.lc.scalar.v == 1 && n.lc.constant.v == 0 {
            n.lc.var
        } else {
            let idx = self.values.len();
            self.values.push(n.value);
            let g = Gate {
                a: n.lc.scalar,
                x: n.lc.var,
                b: Fp { v: M - 1 },
                y: idx,
                c: Fp::zero(),
                z: idx,
                d: Fp::zero(),
                e: n.lc.constant,
            };
            proof {
                assert(g == eq_gate(n.lc, idx));
            }
            self.gates.push(g);
            idx
        };
        self.public.push(v);
    }
}

} // verus!
