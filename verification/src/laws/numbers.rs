//! Machine words and the numbers that are handed out.

use crate::mm::bytes::{le_bytes, lemma_le_bytes_len};
use crate::syscall::number::{as_signed, as_unsigned};
use crate::task::id::Ids;
use vstd::arithmetic::div_mod::lemma_div_denominator;
use vstd::arithmetic::power::{lemma_pow0, lemma_pow1, lemma_pow_adds, lemma_pow_positive, pow};
use vstd::prelude::*;

verus! {

/// A word that is not too large is the same signed number; a larger one lies a whole range of
/// words above it. What comes out is a signed number, and it comes back as the same word.
pub proof fn law_words_as_signed(x: int)
    requires
        0 <= x <= usize::MAX,
    ensures
        isize::MIN <= as_signed(x) <= isize::MAX,
        x <= isize::MAX ==> as_signed(x) == x,
        x > isize::MAX ==> as_signed(x) + usize::MAX + 1 == x,
        as_unsigned(as_signed(x)) == x,
{
}

/// A signed number that is not negative is the same word; a negative one lies a whole range of
/// words below it. What comes out is a word, and it comes back as the same number.
pub proof fn law_signed_as_words(x: int)
    requires
        isize::MIN <= x <= isize::MAX,
    ensures
        0 <= as_unsigned(x) <= usize::MAX,
        x >= 0 ==> as_unsigned(x) == x,
        x < 0 ==> as_unsigned(x) == x + usize::MAX + 1,
        as_signed(as_unsigned(x)) == x,
{
}

/// Byte `k` of a number counts how many times the `k`th power of 256 goes into it, beyond what the
/// higher bytes count.
pub proof fn law_byte_weights(value: int, n: nat, k: int)
    requires
        0 <= value,
        0 <= k < n,
    ensures
        le_bytes(value, n).len() == n,
        le_bytes(value, n)[k] == value / pow(256, k as nat) % 256,
    decreases n,
{
    lemma_le_bytes_len(value, n);
    let rest = le_bytes(value / 256, (n - 1) as nat);
    if k == 0 {
        lemma_pow0(256);
    } else {
        law_byte_weights(value / 256, (n - 1) as nat, k - 1);
        let p = pow(256, (k - 1) as nat);
        lemma_pow1(256);
        lemma_pow_adds(256, 1, (k - 1) as nat);
        lemma_pow_positive(256, (k - 1) as nat);
        assert(pow(256, k as nat) == 256 * p);
        lemma_div_denominator(value, 256, p);
        assert(le_bytes(value, n)[k] == rest[k - 1]);
    }
}

/// A new allocator has handed out nothing and hands out zero first.
pub proof fn law_numbers_start_at_zero()
    ensures
        Ids::fresh().wf(),
        Ids::fresh().has_next(),
        Ids::fresh().next_id() == 0,
        forall|id: usize| !#[trigger] Ids::fresh().live(id),
{
}

/// As long as nothing is given back, numbers are handed out one after the other, up to the largest
/// word.
pub proof fn law_numbers_ascend(ids: Ids)
    requires
        ids.recycled.len() == 0,
        ids.next < usize::MAX,
    ensures
        ids.has_next(),
        ids.next_id() == ids.next,
        ids.after_alloc().next == ids.next + 1,
        ids.after_alloc().recycled.len() == 0,
{
}

/// What was given back is handed out before anything new, the last one first.
pub proof fn law_numbers_given_back_come_first(ids: Ids, earlier: Seq<usize>, last: usize)
    requires
        ids.recycled == earlier.push(last),
    ensures
        ids.has_next(),
        ids.next_id() == last,
        ids.after_alloc().next == ids.next,
        ids.after_alloc().recycled == earlier,
{
    assert(earlier.push(last).drop_last() =~= earlier);
}

/// Only an allocator that has handed out every word, with none given back, has no number left.
pub proof fn law_numbers_run_out(ids: Ids)
    requires
        ids.next <= usize::MAX,
    ensures
        !ids.has_next() <==> ids.next == usize::MAX && ids.recycled.len() == 0,
{
}

/// A number is in use if it lies below the first one never handed out and was not given back. An
/// allocator is in order if what was given back lies below that, too, each number once.
pub proof fn law_numbers_in_use(ids: Ids, id: usize)
    ensures
        ids.live(id) <==> id < ids.next && forall|i: int|
            0 <= i < ids.recycled.len() ==> #[trigger] ids.recycled[i] != id,
        ids.wf() <==> {
            &&& ids.next <= usize::MAX
            &&& forall|i: int| 0 <= i < ids.recycled.len() ==> #[trigger] ids.recycled[i] < ids.next
            &&& forall|i: int, j: int|
                0 <= i < j < ids.recycled.len() ==> #[trigger] ids.recycled[i]
                    != #[trigger] ids.recycled[j]
        },
        ids.after_dealloc(id) == (Ids { next: ids.next, recycled: ids.recycled.push(id) }),
{
}

} // verus!
