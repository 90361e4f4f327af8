//! Integer-valued signal measures.
//!
//! The zero-crossing rate of a frame is the number of adjacent sign changes
//! divided by `frame_len - 1`; the count is exact integer work and lives
//! here, the division is the caller's. The spectral kernel sizes its FFT as
//! the next power of two at or above the frame length.

use vstd::prelude::*;

verus! {

/// The number of adjacent positions whose sign bits differ.
pub open spec fn spec_sign_changes(s: Seq<bool>) -> nat
    decreases s.len(),
{
    if s.len() <= 1 {
        0
    } else {
        spec_sign_changes(s.drop_last()) + if s[s.len() - 2] != s[s.len() - 1] {
            1nat
        } else {
            0nat
        }
    }
}

/// Whether `n` is a power of two.
pub open spec fn spec_is_pow2(n: nat) -> bool
    decreases n,
{
    if n == 0 {
        false
    } else if n == 1 {
        true
    } else {
        n % 2 == 0 && spec_is_pow2(n / 2)
    }
}

/// Counts the sign changes of a frame, given each sample's sign bit
/// (true for non-negative). This is the numerator of the zero-crossing
/// rate; a frame of fewer than two samples has none.
pub fn count_sign_changes(signs: &Vec<bool>) -> (r: usize)
    ensures
        r == spec_sign_changes(signs@),
{
    let n = signs.len();
    if n < 2 {
        return 0;
    }
    let mut count: usize = 0;
    let mut i: usize = 1;
    while i < n
        invariant
            n == signs@.len(),
            1 <= i <= n,
            count < i,
            count == spec_sign_changes(signs@.take(i as int)),
        decreases n - i,
    {
        proof {
            assert(signs@.take(i + 1 as int).drop_last() =~= signs@.take(i as int));
        }
        if signs[i] != signs[i - 1] {
            count = count + 1;
        }
        i = i + 1;
    }
    proof {
        assert(signs@.take(n as int) =~= signs@);
    }
    count
}

/// The smallest power of two at or above `n` (1 for an empty frame): the
/// FFT size used by the spectral kernel for a frame of `n` samples.
pub fn next_pow2(n: usize) -> (r: usize)
    requires
        n <= 0x8000_0000,
    ensures
        spec_is_pow2(r as nat),
        r >= n,
        n >= 1 ==> r < 2 * n,
{
    let mut p: usize = 1;
    while p < n
        invariant
            n <= 0x8000_0000,
            spec_is_pow2(p as nat),
            1 <= p,
            n >= 1 ==> p < 2 * n,
            p >= n || n >= 1,
        decreases 2 * n - p,
    {
        p = p * 2;
    }
    p
}

} // verus!
