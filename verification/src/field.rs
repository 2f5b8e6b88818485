use vstd::prelude::*;
use vstd::arithmetic::div_mod::*;
use vstd::arithmetic::power::pow;
use crate::error::CircuitError;

verus! {

/// An element of the prime field with modulus `M`, held as its canonical
/// representative: an unsigned value strictly below the modulus.
#[derive(Clone, Copy, Debug, PartialEq, Eq)]
pub struct Fp<const M: u64> {
    pub v: u64,
}

/// The value of a byte string read as a little-endian unsigned integer.
pub open spec fn le_val(s: Seq<u8>) -> nat
    decreases s.len(),
{
    if s.len() == 0 {
        0
    } else {
        (s[0] + 256 * le_val(s.drop_first())) as nat
    }
}

/// The little-endian encoding of `v` in exactly `w` bytes (truncating the
/// high bits if `v` does not fit).
pub open spec fn spec_le_bytes(v: nat, w: nat) -> Seq<u8>
    decreases w,
{
    if w == 0 {
        Seq::empty()
    } else {
        seq![(v % 256) as u8] + spec_le_bytes(v / 256, (w - 1) as nat)
    }
}

/// The width, in bytes, of the canonical encoding of an element of the
/// field with modulus `m`: the least count of bytes that every canonical
/// representative fits in.
pub open spec fn spec_byte_width(m: u64) -> usize {
    if m <= 0x100 {
        1usize
    } else if m <= 0x1_0000 {
        2
    } else if m <= 0x100_0000 {
        3
    } else if m <= 0x1_0000_0000 {
        4
    } else if m <= 0x100_0000_0000 {
        5
    } else if m <= 0x1_0000_0000_0000 {
        6
    } else if m <= 0x100_0000_0000_0000 {
        7
    } else {
        8
    }
}

/// The concrete values of the powers of 256 that byte widths range over.
pub proof fn lemma_pow256_values()
    ensures
        pow(256, 0) == 1,
        pow(256, 1) == 0x100,
        pow(256, 2) == 0x1_0000,
        pow(256, 3) == 0x100_0000,
        pow(256, 4) == 0x1_0000_0000,
        pow(256, 5) == 0x100_0000_0000,
        pow(256, 6) == 0x1_0000_0000_0000,
        pow(256, 7) == 0x100_0000_0000_0000,
        pow(256, 8) == 0x1_0000_0000_0000_0000,
{
    reveal(pow);
    assert(pow(256, 0) == 1);
    assert(pow(256, 1) == 256 * pow(256, 0));
    assert(pow(256, 2) == 256 * pow(256, 1));
    assert(pow(256, 3) == 256 * pow(256, 2));
    assert(pow(256, 4) == 256 * pow(256, 3));
    assert(pow(256, 5) == 256 * pow(256, 4));
    assert(pow(256, 6) == 256 * pow(256, 5));
    assert(pow(256, 7) == 256 * pow(256, 6));
    assert(pow(256, 8) == 256 * pow(256, 7));
}

/// Every canonical representative of the field with modulus `m` fits in
/// `spec_byte_width(m)` bytes.
pub proof fn lemma_byte_width_bound(m: u64)
    ensures
        1 <= spec_byte_width(m) <= 8,
        m as nat <= pow(256, spec_byte_width(m) as nat),
{
    lemma_pow256_values();
}

/// Decoding is the inverse of encoding for values that fit the width.
pub proof fn lemma_le_val_of_le_bytes(v: nat, w: nat)
    requires
        v < pow(256, w),
    ensures
        le_val(spec_le_bytes(v, w)) == v,
    decreases w,
{
    if w == 0 {
        lemma_pow256_values();
    } else {
        let s = spec_le_bytes(v, w);
        assert(pow(256, w) == 256 * pow(256, (w - 1) as nat)) by {
            reveal(pow);
        }
        lemma_fundamental_div_mod(v as int, 256);
        assert(v / 256 < pow(256, (w - 1) as nat)) by {
            vstd::arithmetic::mul::lemma_mul_is_commutative(
                256,
                pow(256, (w - 1) as nat) as int,
            );
            lemma_multiply_divide_lt(v as int, 256, pow(256, (w - 1) as nat) as int);
        }
        lemma_le_val_of_le_bytes(v / 256, (w - 1) as nat);
        assert(s.drop_first() =~= spec_le_bytes(v / 256, (w - 1) as nat));
        assert(s[0] == (v % 256) as u8);
    }
}

impl<const M: u64> Fp<M> {
    /// The element is in canonical form: strictly below the modulus.
    pub open spec fn wf(self) -> bool {
        self.v < M
    }

    /// The byte width of this field's canonical encoding.
    pub fn byte_width() -> (r: usize)
        ensures
            r == spec_byte_width(M),
    {
        if M <= 0x100 {
            1
        } else if M <= 0x1_0000 {
            2
        } else if M <= 0x100_0000 {
            3
        } else if M <= 0x1_0000_0000 {
            4
        } else if M <= 0x100_0000_0000 {
            5
        } else if M <= 0x1_0000_0000_0000 {
            6
        } else if M <= 0x100_0000_0000_0000 {
            7
        } else {
            8
        }
    }

    /// The element with the given canonical representative.
    pub fn new(v: u64) -> (r: Fp<M>)
        requires
            v < M,
        ensures
            r.v == v,
            r.wf(),
    {
        Fp { v }
    }

    /// The element represented by an arbitrary unsigned value, reduced.
    pub fn from_u64(v: u64) -> (r: Fp<M>)
        requires
            M >= 1,
        ensures
            r.v == v % M,
            r.wf(),
    {
        Fp { v: v % M }
    }

    /// The additive identity.
    pub fn zero() -> (r: Fp<M>)
        requires
            M >= 1,
        ensures
            r.v == 0,
            r.wf(),
    {
        Fp { v: 0 }
    }

    /// The multiplicative identity.
    pub fn one() -> (r: Fp<M>)
        requires
            M >= 2,
        ensures
            r.v == 1,
            r.wf(),
    {
        Fp { v: 1 }
    }

    /// Field addition.
    pub fn add(self, other: Fp<M>) -> (r: Fp<M>)
        requires
            self.wf(),
            other.wf(),
        ensures
            r.wf(),
            r.v as int == (self.v + other.v) % (M as int),
    {
        let s: u128 = self.v as u128 + other.v as u128;
        let m: u128 = M as u128;
        let d: u128 = if s >= m {
            s - m
        } else {
            s
        };
        proof {
            if s >= m {
                lemma_mod_sub_multiples_vanish((self.v + other.v) as int, M as int);
                lemma_small_mod((s - m) as nat, M as nat);
            } else {
                lemma_small_mod(s as nat, M as nat);
            }
        }
        Fp { v: d as u64 }
    }

    /// Field subtraction.
    pub fn sub(self, other: Fp<M>) -> (r: Fp<M>)
        requires
            self.wf(),
            other.wf(),
        ensures
            r.wf(),
            r.v as int == (self.v - other.v) % (M as int),
    {
        let d: u64 = if self.v >= other.v {
            self.v - other.v
        } else {
            self.v + (M - other.v)
        };
        proof {
            if self.v >= other.v {
                lemma_small_mod((self.v - other.v) as nat, M as nat);
            } else {
                lemma_mod_add_multiples_vanish(self.v - other.v, M as int);
                lemma_small_mod((self.v - other.v + M) as nat, M as nat);
            }
        }
        Fp { v: d }
    }

    /// Field negation.
    pub fn neg(self) -> (r: Fp<M>)
        requires
            self.wf(),
        ensures
            r.wf(),
            r.v as int == (0 - self.v) % (M as int),
    {
        let d: u64 = if self.v == 0 {
            0
        } else {
            M - self.v
        };
        proof {
            if self.v == 0 {
                lemma_small_mod(0, M as nat);
            } else {
                lemma_mod_add_multiples_vanish(0 - self.v, M as int);
                lemma_small_mod((M - self.v) as nat, M as nat);
            }
        }
        Fp { v: d }
    }

    /// Field multiplication.
    pub fn mul(self, other: Fp<M>) -> (r: Fp<M>)
        requires
            self.wf(),
            other.wf(),
        ensures
            r.wf(),
            r.v as int == (self.v * other.v) % (M as int),
    {
        proof {
            vstd::arithmetic::mul::lemma_mul_upper_bound(
                self.v as int,
                0xffff_ffff_ffff_ffff,
                other.v as int,
                0xffff_ffff_ffff_ffff,
            );
        }
        let p: u128 = self.v as u128 * other.v as u128;
        let r: u128 = p % (M as u128);
        Fp { v: r as u64 }
    }

    /// The canonical fixed-width little-endian encoding of this element.
    pub fn to_le_bytes(&self) -> (r: Vec<u8>)
        requires
            self.wf(),
        ensures
            r@ == spec_le_bytes(self.v as nat, spec_byte_width(M) as nat),
            r@.len() == spec_byte_width(M),
            le_val(r@) == self.v,
    {
        let w = Self::byte_width();
        let mut out: Vec<u8> = Vec::new();
        let mut x: u64 = self.v;
        let mut i: usize = 0;
        while i < w
            invariant
                i <= w,
                w == spec_byte_width(M),
                out@.len() == i,
                out@ + spec_le_bytes(x as nat, (w - i) as nat) == spec_le_bytes(
                    self.v as nat,
                    w as nat,
                ),
            decreases w - i,
        {
            let b: u8 = (x % 256) as u8;
            proof {
                assert(spec_le_bytes(x as nat, (w - i) as nat) == seq![(x as nat % 256) as u8]
                    + spec_le_bytes(x as nat / 256, (w - i - 1) as nat));
                assert(out@.push(b) + spec_le_bytes(x as nat / 256, (w - i - 1) as nat)
                    =~= out@ + spec_le_bytes(x as nat, (w - i) as nat));
            }
            out.push(b);
            x = x / 256;
            i = i + 1;
        }
        proof {
            assert(spec_le_bytes(x as nat, 0) =~= Seq::<u8>::empty());
            assert(out@ =~= spec_le_bytes(self.v as nat, w as nat));
            lemma_byte_width_bound(M);
            lemma_le_val_of_le_bytes(self.v as nat, w as nat);
            lemma_le_bytes_len(self.v as nat, w as nat);
        }
        out
    }

    /// Decode a canonical fixed-width little-endian encoding. Fails with
    /// `DecodeError` when the width is wrong or the bytes do not name a
    /// canonical representative of this field.
    pub fn from_le_bytes(bytes: &Vec<u8>) -> (r: Result<Fp<M>, CircuitError>)
        ensures
            bytes@.len() != spec_byte_width(M) ==> r == Err::<Fp<M>, CircuitError>(
                CircuitError::DecodeError,
            ),
            bytes@.len() == spec_byte_width(M) && le_val(bytes@) >= M ==> r == Err::<
                Fp<M>,
                CircuitError,
            >(CircuitError::DecodeError),
            bytes@.len() == spec_byte_width(M) && le_val(bytes@) < M ==> r == Ok::<
                Fp<M>,
                CircuitError,
            >(Fp { v: le_val(bytes@) as u64 }),
    {
        let w = Self::byte_width();
        if bytes.len() != w {
            return Err(CircuitError::DecodeError);
        }
        proof {
            lemma_byte_width_bound(M);
            lemma_pow256_values();
        }
        let mut x: u64 = 0;
        let mut i: usize = w;
        while i > 0
            invariant
                i <= w,
                w == spec_byte_width(M),
                1 <= w <= 8,
                bytes@.len() == w,
                x as nat == le_val(bytes@.subrange(i as int, w as int)),
                (x as nat) < pow(256, (w - i) as nat),
            decreases i,
        {
            proof {
                assert(pow(256, (w - i + 1) as nat) == 256 * pow(256, (w - i) as nat)) by {
                    reveal(pow);
                }
                lemma_pow256_values();
                lemma_pow_le_256(( w - i) as nat, 7);
                vstd::arithmetic::mul::lemma_mul_inequality(
                    pow(256, (w - i) as nat) as int,
                    pow(256, 7) as int,
                    256,
                );
                assert(bytes@.subrange(i - 1, w as int).drop_first() =~= bytes@.subrange(
                    i as int,
                    w as int,
                ));
            }
            i = i - 1;
            x = x * 256 + bytes[i] as u64;
        }
        proof {
            assert(bytes@.subrange(0, w as int) =~= bytes@);
        }
        if x >= M {
            Err(CircuitError::DecodeError)
        } else {
            Ok(Fp { v: x })
        }
    }
}

/// Encoding in `w` bytes always yields `w` bytes.
pub proof fn lemma_le_bytes_len(v: nat, w: nat)
    ensures
        spec_le_bytes(v, w).len() == w,
    decreases w,
{
    if w > 0 {
        lemma_le_bytes_len(v / 256, (w - 1) as nat);
    }
}

/// Powers of 256 are monotone in the exponent.
proof fn lemma_pow_le_256(a: nat, b: nat)
    requires
        a <= b,
    ensures
        pow(256, a) <= pow(256, b),
{
    if a < b {
        vstd::arithmetic::power::lemma_pow_strictly_increases(256, a, b);
    }
}

/// What field conversion returns: the canonical bytes of `x` are copied
/// verbatim and decoded under the destination field's rule, so conversion
/// succeeds exactly when the two widths agree and the value is already a
/// canonical representative of the destination field.
pub open spec fn spec_convert<const M1: u64, const M2: u64>(x: Fp<M1>) -> Result<
    Fp<M2>,
    CircuitError,
> {
    if spec_byte_width(M1) != spec_byte_width(M2) {
        Err(CircuitError::IncompatibleFieldWidth)
    } else if x.v >= M2 {
        Err(CircuitError::DecodeError)
    } else {
        Ok(Fp { v: x.v })
    }
}

/// Reinterpret an element of the field with modulus `M1` as an element of
/// the field with modulus `M2`: a raw copy of the canonical little-endian
/// byte representation, not a modular reduction. Fails with
/// `IncompatibleFieldWidth` when the two canonical encodings differ in
/// byte width, and with `DecodeError` when the bytes are not a canonical
/// representative of the destination field.
pub fn convert_fp<const M1: u64, const M2: u64>(x: &Fp<M1>) -> (r: Result<Fp<M2>, CircuitError>)
    requires
        x.wf(),
    ensures
        r == spec_convert::<M1, M2>(*x),
{
    let w1 = Fp::<M1>::byte_width();
    let w2 = Fp::<M2>::byte_width();
    if w1 != w2 {
        return Err(CircuitError::IncompatibleFieldWidth);
    }
    let bytes = x.to_le_bytes();
    Fp::<M2>::from_le_bytes(&bytes)
}

/// Law: when the source and destination moduli coincide, conversion
/// succeeds and forward-then-backward conversion returns the original
/// element unchanged.
pub proof fn lemma_convert_round_trip<const M: u64>(x: Fp<M>)
    requires
        x.wf(),
    ensures
        spec_convert::<M, M>(x) == Ok::<Fp<M>, CircuitError>(x),
{
}

/// Law: a successful conversion preserves the canonical byte encoding
/// verbatim, and converting back returns the original element, whether or
/// not the two moduli coincide.
pub proof fn lemma_convert_byte_identity<const M1: u64, const M2: u64>(x: Fp<M1>, y: Fp<M2>)
    requires
        x.wf(),
        spec_convert::<M1, M2>(x) == Ok::<Fp<M2>, CircuitError>(y),
    ensures
        spec_le_bytes(y.v as nat, spec_byte_width(M2) as nat) == spec_le_bytes(
            x.v as nat,
            spec_byte_width(M1) as nat,
        ),
        y.wf(),
        spec_convert::<M2, M1>(y) == Ok::<Fp<M1>, CircuitError>(x),
{
}

} // verus!
