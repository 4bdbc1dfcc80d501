//! Machine words as bytes, the lowest first.

use vstd::arithmetic::power::{lemma_pow0, pow};
use vstd::layout::size_of;
use vstd::prelude::*;

verus! {

/// The `n` lowest bytes of `value`, the lowest first.
pub open spec fn le_bytes(value: int, n: nat) -> Seq<u8>
    decreases n,
{
    if n == 0 {
        Seq::empty()
    } else {
        seq![(value % 256) as u8] + le_bytes(value / 256, (n - 1) as nat)
    }
}

/// The number whose bytes these are, the lowest first.
pub open spec fn le_value(bytes: Seq<u8>) -> int
    decreases bytes.len(),
{
    if bytes.len() == 0 {
        0
    } else {
        bytes[0] + 256 * le_value(bytes.drop_first())
    }
}

/// There are as many bytes as were asked for.
pub proof fn lemma_le_bytes_len(value: int, n: nat)
    ensures
        le_bytes(value, n).len() == n,
    decreases n,
{
    if n > 0 {
        lemma_le_bytes_len(value / 256, (n - 1) as nat);
    }
}

/// A number that fits into `n` bytes is the value of its bytes.
pub proof fn law_bytes_of_value(value: int, n: nat)
    requires
        0 <= value < pow(256, n),
    ensures
        le_value(le_bytes(value, n)) == value,
    decreases n,
{
    if n == 0 {
        lemma_pow0(256);
    } else {
        reveal(pow);
        let rest = le_bytes(value / 256, (n - 1) as nat);
        assert(pow(256, n) == 256 * pow(256, (n - 1) as nat));
        law_bytes_of_value(value / 256, (n - 1) as nat);
        assert(le_bytes(value, n).drop_first() =~= rest);
    }
}

/// A machine word fits into the bytes of one.
pub proof fn lemma_word_fits(value: usize)
    ensures
        value < pow(256, size_of::<usize>()),
{
    broadcast use vstd::layout::layout_of_primitives;

    reveal_with_fuel(pow, 9);
    assert(pow(256, 4) == 0x1_0000_0000);
    assert(pow(256, 8) == 0x1_0000_0000_0000_0000);
    assert(usize::BITS == 32 || usize::BITS == 64);
}

/// Takes a word apart into its bytes, the lowest first.
pub fn word_bytes(value: usize) -> (bytes: Vec<u8>)
    ensures
        bytes@ == le_bytes(value as int, size_of::<usize>()),
{
    let n: usize = core::mem::size_of::<usize>();
    let mut bytes: Vec<u8> = Vec::new();
    let mut rest: usize = value;
    let mut i: usize = 0;
    while i < n
        invariant
            n == size_of::<usize>(),
            i <= n,
            bytes@ + le_bytes(rest as int, (n - i) as nat) == le_bytes(
                value as int,
                size_of::<usize>(),
            ),
        decreases n - i,
    {
        let ghost before = bytes@;
        bytes.push((rest % 256) as u8);
        assert(before + le_bytes(rest as int, (n - i) as nat) =~= bytes@ + le_bytes(
            rest as int / 256,
            (n - i - 1) as nat,
        ));
        rest = rest / 256;
        i = i + 1;
    }
    assert(bytes@ + le_bytes(rest as int, 0) =~= bytes@);
    bytes
}

} // verus!
