//! Little-endian encoding of unsigned 64-bit integers.
//!
//! The encoding is stated arithmetically: byte `i` of the encoding of `x` is
//! the `i`-th base-256 digit of `x`, least significant digit first.

use vstd::prelude::*;

verus! {

/// Number of bytes in an encoded `u64`.
pub const WORD_SIZE: usize = 8;

/// `256` raised to the power `width`.
pub open spec fn radix_pow(width: nat) -> nat
    decreases width,
{
    if width == 0 {
        1
    } else {
        256 * radix_pow((width - 1) as nat)
    }
}

/// The number that `bytes` spells when read least significant byte first.
pub open spec fn le_value(bytes: Seq<u8>) -> nat
    decreases bytes.len(),
{
    if bytes.len() == 0 {
        0
    } else {
        bytes[0] as nat + 256 * le_value(bytes.drop_first())
    }
}

/// The `width` lowest base-256 digits of `x`, least significant first.
pub open spec fn le_digits(x: nat, width: nat) -> Seq<u8>
    decreases width,
{
    if width == 0 {
        Seq::empty()
    } else {
        seq![(x % 256) as u8] + le_digits(x / 256, (width - 1) as nat)
    }
}

/// The eight bytes that encode `x`.
pub open spec fn u64_le(x: u64) -> Seq<u8> {
    le_digits(x as nat, 8)
}

/// `le_digits` yields exactly `width` bytes.
pub proof fn lemma_digits_len(x: nat, width: nat)
    ensures
        le_digits(x, width).len() == width,
    decreases width,
{
    if width > 0 {
        lemma_digits_len(x / 256, (width - 1) as nat);
    }
}

/// A byte string of length `n` spells a number below `256^n`.
pub proof fn lemma_value_bound(bytes: Seq<u8>)
    ensures
        le_value(bytes) < radix_pow(bytes.len()),
    decreases bytes.len(),
{
    if bytes.len() > 0 {
        lemma_value_bound(bytes.drop_first());
    }
}

/// `radix_pow` never shrinks as the width grows.
pub proof fn lemma_radix_pow_monotonic(a: nat, b: nat)
    requires
        a <= b,
    ensures
        0 < radix_pow(a) <= radix_pow(b),
    decreases b,
{
    if b == 0 {
    } else if a == b {
        lemma_radix_pow_monotonic((a - 1) as nat, (b - 1) as nat);
    } else {
        lemma_radix_pow_monotonic(a, (b - 1) as nat);
    }
}

/// Eight bytes hold exactly the range of a `u64`.
pub proof fn lemma_radix_pow_word()
    ensures
        radix_pow(8) == 0x1_0000_0000_0000_0000,
{
    reveal_with_fuel(radix_pow, 9);
}

/// Reading back the digits of a number that fits in `width` bytes gives the
/// number itself.
pub proof fn lemma_value_of_digits(x: nat, width: nat)
    requires
        x < radix_pow(width),
    ensures
        le_value(le_digits(x, width)) == x,
    decreases width,
{
    if width > 0 {
        let rest = le_digits(x / 256, (width - 1) as nat);
        lemma_value_of_digits(x / 256, (width - 1) as nat);
        assert(le_digits(x, width).drop_first() == rest);
    }
}

/// Writing out the digits of the number that a byte string spells gives the
/// byte string itself.
pub proof fn lemma_digits_of_value(bytes: Seq<u8>)
    ensures
        le_digits(le_value(bytes), bytes.len()) == bytes,
    decreases bytes.len(),
{
    if bytes.len() > 0 {
        lemma_digits_of_value(bytes.drop_first());
    }
}

/// Decoding the encoding of `x` gives `x`, and the encoding has eight bytes.
pub proof fn lemma_u64_round_trip(x: u64)
    ensures
        u64_le(x).len() == 8,
        le_value(u64_le(x)) == x,
{
    lemma_digits_len(x as nat, 8);
    lemma_radix_pow_word();
    lemma_value_of_digits(x as nat, 8);
}

/// Eight bytes always spell a `u64`, and encoding it gives the bytes back.
pub proof fn lemma_word_round_trip(bytes: Seq<u8>)
    requires
        bytes.len() == 8,
    ensures
        le_value(bytes) <= u64::MAX,
        u64_le(le_value(bytes) as u64) == bytes,
{
    lemma_value_bound(bytes);
    lemma_radix_pow_word();
    lemma_digits_of_value(bytes);
}

/// Appends the little-endian encoding of `x` to `out`.
pub fn put_u64(out: &mut Vec<u8>, x: u64)
    ensures
        final(out)@ == old(out)@ + u64_le(x),
{
    let mut rest: u64 = x;
    let mut i: usize = 0;
    while i < WORD_SIZE
        invariant
            i <= 8,
            out@ + le_digits(rest as nat, (8 - i) as nat) == old(out)@ + u64_le(x),
        decreases 8 - i,
    {
        out.push((rest % 256) as u8);
        rest = rest / 256;
        i += 1;
    }
}

/// Reads the `u64` whose little-endian encoding lies at `bytes[at..at + 8]`.
pub fn get_u64(bytes: &[u8], at: usize) -> (x: u64)
    requires
        at + 8 <= bytes.len(),
    ensures
        x == le_value(bytes@.subrange(at as int, at + 8)),
{
    let mut x: u64 = 0;
    let mut i: usize = WORD_SIZE;
    while i > 0
        invariant
            i <= 8,
            at + 8 <= bytes.len(),
            x == le_value(bytes@.subrange(at + i, at + 8)),
        decreases i,
    {
        i -= 1;
        let digit: u8 = bytes[at + i];
        proof {
            let window = bytes@.subrange(at + i, at + 8);
            assert(window.drop_first() =~= bytes@.subrange(at + i + 1, at + 8));
            lemma_value_bound(window);
            lemma_radix_pow_monotonic(window.len(), 8);
            lemma_radix_pow_word();
        }
        x = x * 256 + digit as u64;
    }
    x
}

} // verus!
