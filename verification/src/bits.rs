use vstd::prelude::*;

verus! {

/// True when bit `i` of the 64-bit mask `m` is set; meaningful for `i < 64`.
pub open spec fn bit64(m: u64, i: u64) -> bool {
    m & (1u64 << i) != 0
}

/// True when bit `i` of the 8-bit mask `m` is set; meaningful for `i < 8`.
pub open spec fn bit8(m: u8, i: u8) -> bool {
    m & (1u8 << i) != 0
}

/// How each 64-bit bitwise operation acts on single bits.
pub proof fn lemma_bit64_ops()
    by (bit_vector)
    ensures
        forall|a: u64, b: u64, i: u64|
            i < 64 ==> (#[trigger] bit64(a | b, i) == (bit64(a, i) || bit64(b, i))),
        forall|a: u64, b: u64, i: u64|
            i < 64 ==> (#[trigger] bit64(a & b, i) == (bit64(a, i) && bit64(b, i))),
        forall|a: u64, b: u64, i: u64|
            i < 64 ==> (#[trigger] bit64(a ^ b, i) == (bit64(a, i) != bit64(b, i))),
        forall|n: u64, i: u64| n < 64 && i < 64 ==> (#[trigger] bit64(1u64 << n, i) == (i == n)),
        forall|i: u64| i < 64 ==> !(#[trigger] bit64(0u64, i)),
        forall|a: u64, i: u64| i < 64 ==> (#[trigger] bit64(u64::MAX ^ a, i) == !bit64(a, i)),
{
}

/// How each 8-bit bitwise operation acts on single bits.
pub proof fn lemma_bit8_ops()
    by (bit_vector)
    ensures
        forall|a: u8, b: u8, i: u8|
            i < 8 ==> (#[trigger] bit8(a | b, i) == (bit8(a, i) || bit8(b, i))),
        forall|a: u8, b: u8, i: u8|
            i < 8 ==> (#[trigger] bit8(a & b, i) == (bit8(a, i) && bit8(b, i))),
        forall|a: u8, b: u8, i: u8|
            i < 8 ==> (#[trigger] bit8(a ^ b, i) == (bit8(a, i) != bit8(b, i))),
        forall|n: u8, i: u8| n < 8 && i < 8 ==> (#[trigger] bit8(1u8 << n, i) == (i == n)),
        forall|i: u8| i < 8 ==> !(#[trigger] bit8(0u8, i)),
        forall|a: u8, i: u8| i < 8 ==> (#[trigger] bit8(u8::MAX ^ a, i) == !bit8(a, i)),
{
}

pub proof fn lemma_xor_assoc(a: u64, b: u64, c: u64)
    by (bit_vector)
    ensures
        (a ^ b) ^ c == a ^ (b ^ c),
{
}

pub proof fn lemma_xor_zero(a: u64)
    by (bit_vector)
    ensures
        a ^ 0u64 == a,
        0u64 ^ a == a,
{
}

pub proof fn lemma_xor_cancel(a: u64, d: u64)
    by (bit_vector)
    ensures
        (a ^ d) ^ d == a,
        a ^ a == 0u64,
{
}

/// Moving one xor-ed term across another: the shape every incremental
/// hash-update proof reduces to.
pub proof fn lemma_xor_shuffle(a: u64, b: u64, d: u64)
    by (bit_vector)
    ensures
        (a ^ d) ^ b == (a ^ b) ^ d,
        a ^ (b ^ d) == (a ^ b) ^ d,
{
}

/// AND and OR are commutative.
pub proof fn lemma_and_or_comm(a: u64, b: u64)
    by (bit_vector)
    ensures
        a & b == b & a,
        a | b == b | a,
{
}

/// OR with zero changes nothing.
pub proof fn lemma_or_zero_all()
    by (bit_vector)
    ensures
        forall|m: u64| #[trigger] (m | 0u64) == m,
{
}

/// Setting a clear bit and clearing a set bit are both single-bit flips.
pub proof fn lemma_set_clear_are_flips(m: u64, i: u64)
    by (bit_vector)
    requires
        i < 64,
    ensures
        !bit64(m, i) ==> (m | (1u64 << i)) == (m ^ (1u64 << i)),
        bit64(m, i) ==> (m & (u64::MAX ^ (1u64 << i))) == (m ^ (1u64 << i)),
{
}

/// Clearing a bit that is not set changes nothing.
pub proof fn lemma_clear_absent(m: u64, i: u64)
    by (bit_vector)
    requires
        i < 64,
        m & (1u64 << i) == 0,
    ensures
        m & (u64::MAX ^ (1u64 << i)) == m,
{
}

/// Masks without a common set bit have an empty intersection.
pub proof fn lemma_masks_disjoint_from_bits(a: u64, b: u64)
    requires
        forall|i: u64| i < 64 ==> !(bit64(a, i) && bit64(b, i)),
    ensures
        a & b == 0,
{
    lemma_bit64_ops();
    assert forall|i: u64| i < 64 implies !bit64(a & b, i) by {
        assert(!(bit64(a, i) && bit64(b, i)));
    }
    lemma_no_bits_zero(a & b);
}

/// `bit64` agrees with the shifted-out low bit, the form vstd's
/// trailing-zeros axioms use.
pub proof fn lemma_bit64_shift_form(m: u64, i: u64)
    by (bit_vector)
    requires
        i < 64,
    ensures
        bit64(m, i) == ((m >> i) & 1u64 == 1u64),
{
}

/// Values whose XOR vanishes are equal.
pub proof fn lemma_xor_eq_zero(a: u64, b: u64)
    by (bit_vector)
    requires
        a ^ b == 0,
    ensures
        a == b,
{
}

/// Masks that agree on every bit below 64 are equal.
pub proof fn lemma_bit64_ext(a: u64, b: u64)
    requires
        forall|i: u64| i < 64 ==> (#[trigger] bit64(a, i) == bit64(b, i)),
    ensures
        a == b,
{
    lemma_bit64_ops();
    assert forall|i: u64| i < 64 implies !bit64(a ^ b, i) by {
        assert(bit64(a, i) == bit64(b, i));
    }
    lemma_no_bits_zero(a ^ b);
    lemma_xor_eq_zero(a, b);
}

/// A nonzero mask has some set bit below 64.
pub proof fn lemma_nonzero_has_bit(m: u64)
    requires
        m != 0,
    ensures
        exists|i: u64| i < 64 && bit64(m, i),
{
    let tz = vstd::std_specs::bits::u64_trailing_zeros(m);
    vstd::std_specs::bits::axiom_u64_trailing_zeros(m);
    lemma_bit64_shift_form(m, tz as u64);
    assert(bit64(m, tz as u64));
}

/// A mask whose bits are all clear below 64 is zero.
pub proof fn lemma_no_bits_zero(m: u64)
    requires
        forall|i: u64| i < 64 ==> !bit64(m, i),
    ensures
        m == 0,
{
    if m != 0 {
        lemma_nonzero_has_bit(m);
    }
}

/// Fixed-width bit-indexed mask operations: the Nth bit alone, a mask's
/// complement, and setting, clearing or flipping the Nth bit.
pub trait BitArraySize: Sized {
    type Size;

    spec fn width() -> u8;

    spec fn nth_spec(n: u8) -> Self::Size;

    spec fn compl_spec(x: Self::Size) -> Self::Size;

    spec fn enable_nth_spec(x: Self::Size, n: u8) -> Self::Size;

    spec fn disable_nth_spec(x: Self::Size, n: u8) -> Self::Size;

    spec fn flip_nth_spec(x: Self::Size, n: u8) -> Self::Size;

    /// The mask with only bit `n` turned on.
    fn nth(n: u8) -> (r: Self::Size)
        requires
            n < Self::width(),
        ensures
            r == Self::nth_spec(n),
    ;

    /// All bits of `x` inverted.
    fn compl(x: Self::Size) -> (r: Self::Size)
        ensures
            r == Self::compl_spec(x),
    ;

    fn enable_nth(x: Self::Size, n: u8) -> (r: Self::Size)
        requires
            n < Self::width(),
        ensures
            r == Self::enable_nth_spec(x, n),
    ;

    fn disable_nth(x: Self::Size, n: u8) -> (r: Self::Size)
        requires
            n < Self::width(),
        ensures
            r == Self::disable_nth_spec(x, n),
    ;

    fn flip_nth(x: Self::Size, n: u8) -> (r: Self::Size)
        requires
            n < Self::width(),
        ensures
            r == Self::flip_nth_spec(x, n),
    ;
}

impl BitArraySize for u8 {
    type Size = u8;

    open spec fn width() -> u8 {
        8
    }

    open spec fn nth_spec(n: u8) -> u8 {
        1u8 << n
    }

    open spec fn compl_spec(x: u8) -> u8 {
        u8::MAX ^ x
    }

    open spec fn enable_nth_spec(x: u8, n: u8) -> u8 {
        x | (1u8 << n)
    }

    open spec fn disable_nth_spec(x: u8, n: u8) -> u8 {
        x & (u8::MAX ^ (1u8 << n))
    }

    open spec fn flip_nth_spec(x: u8, n: u8) -> u8 {
        x ^ (1u8 << n)
    }

    fn nth(n: u8) -> u8 {
        1u8 << n
    }

    fn compl(x: u8) -> u8 {
        u8::MAX ^ x
    }

    fn enable_nth(x: u8, n: u8) -> u8 {
        x | (1u8 << n)
    }

    fn disable_nth(x: u8, n: u8) -> u8 {
        x & (u8::MAX ^ (1u8 << n))
    }

    fn flip_nth(x: u8, n: u8) -> u8 {
        x ^ (1u8 << n)
    }
}

impl BitArraySize for u16 {
    type Size = u16;

    open spec fn width() -> u8 {
        16
    }

    open spec fn nth_spec(n: u8) -> u16 {
        1u16 << n
    }

    open spec fn compl_spec(x: u16) -> u16 {
        u16::MAX ^ x
    }

    open spec fn enable_nth_spec(x: u16, n: u8) -> u16 {
        x | (1u16 << n)
    }

    open spec fn disable_nth_spec(x: u16, n: u8) -> u16 {
        x & (u16::MAX ^ (1u16 << n))
    }

    open spec fn flip_nth_spec(x: u16, n: u8) -> u16 {
        x ^ (1u16 << n)
    }

    fn nth(n: u8) -> u16 {
        1u16 << n
    }

    fn compl(x: u16) -> u16 {
        u16::MAX ^ x
    }

    fn enable_nth(x: u16, n: u8) -> u16 {
        x | (1u16 << n)
    }

    fn disable_nth(x: u16, n: u8) -> u16 {
        x & (u16::MAX ^ (1u16 << n))
    }

    fn flip_nth(x: u16, n: u8) -> u16 {
        x ^ (1u16 << n)
    }
}

impl BitArraySize for u32 {
    type Size = u32;

    open spec fn width() -> u8 {
        32
    }

    open spec fn nth_spec(n: u8) -> u32 {
        1u32 << n
    }

    open spec fn compl_spec(x: u32) -> u32 {
        u32::MAX ^ x
    }

    open spec fn enable_nth_spec(x: u32, n: u8) -> u32 {
        x | (1u32 << n)
    }

    open spec fn disable_nth_spec(x: u32, n: u8) -> u32 {
        x & (u32::MAX ^ (1u32 << n))
    }

    open spec fn flip_nth_spec(x: u32, n: u8) -> u32 {
        x ^ (1u32 << n)
    }

    fn nth(n: u8) -> u32 {
        1u32 << n
    }

    fn compl(x: u32) -> u32 {
        u32::MAX ^ x
    }

    fn enable_nth(x: u32, n: u8) -> u32 {
        x | (1u32 << n)
    }

    fn disable_nth(x: u32, n: u8) -> u32 {
        x & (u32::MAX ^ (1u32 << n))
    }

    fn flip_nth(x: u32, n: u8) -> u32 {
        x ^ (1u32 << n)
    }
}

impl BitArraySize for u64 {
    type Size = u64;

    open spec fn width() -> u8 {
        64
    }

    open spec fn nth_spec(n: u8) -> u64 {
        1u64 << n
    }

    open spec fn compl_spec(x: u64) -> u64 {
        u64::MAX ^ x
    }

    open spec fn enable_nth_spec(x: u64, n: u8) -> u64 {
        x | (1u64 << n)
    }

    open spec fn disable_nth_spec(x: u64, n: u8) -> u64 {
        x & (u64::MAX ^ (1u64 << n))
    }

    open spec fn flip_nth_spec(x: u64, n: u8) -> u64 {
        x ^ (1u64 << n)
    }

    fn nth(n: u8) -> u64 {
        1u64 << n
    }

    fn compl(x: u64) -> u64 {
        u64::MAX ^ x
    }

    fn enable_nth(x: u64, n: u8) -> u64 {
        x | (1u64 << n)
    }

    fn disable_nth(x: u64, n: u8) -> u64 {
        x & (u64::MAX ^ (1u64 << n))
    }

    fn flip_nth(x: u64, n: u8) -> u64 {
        x ^ (1u64 << n)
    }
}

} // verus!
