//! Planning of chunks, analysis frames and pitch periods over one channel.
//!
//! A chunk is a half-open sample range `[start, end)` whose start points
//! advance by a fixed stride (`chunk_samples`); each window additionally
//! keeps `overlap_samples` of lookahead so a kernel can still evaluate a
//! full analysis frame that begins near the chunk's nominal end. Frames and
//! pitch periods are the smaller sub-windows the kernels step through.

use vstd::prelude::*;
use vstd::arithmetic::div_mod::{
    lemma_basic_div, lemma_div_is_ordered, lemma_div_pos_is_pos, lemma_fundamental_div_mod,
    lemma_fundamental_div_mod_converse_div, lemma_mod_bound,
};
use crate::errors::AudioError;

verus! {

/// How many stride cells of width `stride` begin inside `[0, len)`:
/// the ceiling of `len / stride`.
pub open spec fn stride_count(len: nat, stride: nat) -> nat
    recommends
        stride > 0,
{
    if len == 0 {
        0
    } else {
        ((len - 1) / (stride as int) + 1) as nat
    }
}

/// The smaller of two integers.
pub open spec fn spec_min(a: int, b: int) -> int {
    if a <= b {
        a
    } else {
        b
    }
}

/// The full chunk plan over a channel of length `len`: chunk `k` starts at
/// `k * stride` and its window runs to `min(k * stride + stride + overlap, len)`.
pub open spec fn chunk_plan_seq(len: usize, stride: usize, overlap: usize) -> Seq<(usize, usize)>
    recommends
        stride > 0,
{
    Seq::new(
        stride_count(len as nat, stride as nat),
        |k: int|
            (
                (k * stride) as usize,
                spec_min(k * stride + stride + overlap, len as int) as usize,
            ),
    )
}

/// How many frames of length `frame_len` with hop `hop` fit entirely into
/// `[0, len)`: starts are `0, hop, 2*hop, ...` while `start + frame_len <= len`.
pub open spec fn frame_count(len: nat, frame_len: nat, hop: nat) -> nat
    recommends
        hop > 0,
{
    if frame_len > len {
        0
    } else {
        ((len - frame_len) / (hop as int) + 1) as nat
    }
}

/// How many consecutive whole pitch periods of length `period` begin in
/// `[0, len)` under the strict advance `start + period < len`.
pub open spec fn period_count(len: nat, period: nat) -> nat {
    if period == 0 || len == 0 {
        0
    } else {
        ((len - 1) / (period as int)) as nat
    }
}

/// If `q * d <= m < (q + 1) * d` with `d > 0`, then `q` is the quotient `m / d`.
proof fn lemma_div_of_bounded(m: int, d: int, q: int)
    requires
        d > 0,
        q * d <= m,
        m < (q + 1) * d,
    ensures
        q == m / d,
{
    let r = m - q * d;
    assert((q + 1) * d == q * d + d) by (nonlinear_arith);
    lemma_fundamental_div_mod_converse_div(m, d, q, r);
}

/// The start points of the stride cells over `[0, len)`: `0, stride, 2*stride, ...`
/// while the start is below `len`.
pub fn stride_starts(len: usize, stride: usize) -> (r: Vec<usize>)
    requires
        stride > 0,
    ensures
        r@.len() == stride_count(len as nat, stride as nat),
        forall|j: int| 0 <= j < r@.len() ==> r@[j] == j * stride && r@[j] < len,
{
    let mut starts: Vec<usize> = Vec::new();
    let mut s: usize = 0;
    proof {
        assert(starts@.len() * stride == 0) by (nonlinear_arith)
            requires
                starts@.len() == 0,
        ;
    }
    while s < len
        invariant_except_break
            stride > 0,
            s == starts@.len() * stride,
            starts@.len() == 0 ==> s == 0,
            starts@.len() >= 1 ==> (starts@.len() - 1) * stride < len,
            forall|j: int| 0 <= j < starts@.len() ==> starts@[j] == j * stride && starts@[j] < len,
        ensures
            forall|j: int| 0 <= j < starts@.len() ==> starts@[j] == j * stride && starts@[j] < len,
            starts@.len() * stride >= len,
            starts@.len() >= 1 ==> (starts@.len() - 1) * stride < len,
            len > 0 ==> starts@.len() >= 1,
        decreases len - s,
    {
        let ghost k = starts@.len() as int;
        proof {
            assert((k + 1) * stride == k * stride + stride) by (nonlinear_arith);
        }
        starts.push(s);
        match s.checked_add(stride) {
            Some(n) => {
                if n >= len {
                    break ;
                }
                s = n;
            },
            None => {
                break ;
            },
        }
    }
    proof {
        let k = starts@.len() as int;
        let l = len as int;
        let d = stride as int;
        if l > 0 {
            lemma_div_of_bounded(l - 1, d, k - 1);
        } else {
            if k >= 1 {
                assert((k - 1) * d < 0);
                assert((k - 1) * d >= 0) by (nonlinear_arith)
                    requires
                        k >= 1 && d > 0,
                ;
            }
        }
    }
    starts
}

/// The overlap-aware chunk plan over a channel of `len` samples.
///
/// Chunk `k` is `(k * chunk_samples, min(k * chunk_samples + chunk_samples
/// + overlap_samples, len))`; planning stops once a start would reach `len`.
/// An empty channel yields an empty plan. A stride of zero over a nonempty
/// channel could never terminate, so it is refused instead.
pub fn chunk_plan(len: usize, chunk_samples: usize, overlap_samples: usize) -> (r: Result<
    Vec<(usize, usize)>,
    AudioError,
>)
    ensures
        r is Err <==> (chunk_samples == 0 && len > 0),
        r is Err ==> r->Err_0 == AudioError::ZeroChunkStride,
        r is Ok ==> r->Ok_0@ == chunk_plan_seq(len, chunk_samples, overlap_samples),
        r is Ok ==> forall|k: int|
            0 <= k < r->Ok_0@.len() ==> (#[trigger] r->Ok_0@[k]).0 < r->Ok_0@[k].1 <= len,
{
    if chunk_samples == 0 {
        if len == 0 {
            let plan: Vec<(usize, usize)> = Vec::new();
            assert(plan@ =~= chunk_plan_seq(len, chunk_samples, overlap_samples));
            return Ok(plan);
        }
        return Err(AudioError::ZeroChunkStride);
    }
    let starts = stride_starts(len, chunk_samples);
    let mut plan: Vec<(usize, usize)> = Vec::new();
    let mut k: usize = 0;
    while k < starts.len()
        invariant
            chunk_samples > 0,
            k <= starts@.len(),
            starts@.len() == stride_count(len as nat, chunk_samples as nat),
            forall|j: int| 0 <= j < starts@.len() ==> starts@[j] == j * chunk_samples && starts@[j] < len,
            plan@.len() == k,
            forall|j: int|
                0 <= j < k ==> plan@[j]
                    == (
                    (j * chunk_samples) as usize,
                    spec_min(j * chunk_samples + chunk_samples + overlap_samples, len as int) as usize,
                ) && plan@[j].0 < plan@[j].1 <= len,
        decreases starts@.len() - k,
    {
        let s = starts[k];
        let end = match chunk_samples.checked_add(overlap_samples) {
            Some(cap) => match s.checked_add(cap) {
                Some(e) => if e < len {
                    e
                } else {
                    len
                },
                None => len,
            },
            None => len,
        };
        plan.push((s, end));
        k = k + 1;
    }
    assert(plan@ =~= chunk_plan_seq(len, chunk_samples, overlap_samples));
    Ok(plan)
}

/// The start offsets of the analysis frames inside `[0, len)`:
/// `0, hop_len, 2*hop_len, ...` while a whole frame still fits.
pub fn frame_starts(len: usize, frame_len: usize, hop_len: usize) -> (r: Vec<usize>)
    requires
        hop_len > 0,
    ensures
        r@.len() == frame_count(len as nat, frame_len as nat, hop_len as nat),
        forall|j: int| 0 <= j < r@.len() ==> r@[j] == j * hop_len && r@[j] + frame_len <= len,
{
    let mut starts: Vec<usize> = Vec::new();
    if frame_len > len {
        return starts;
    }
    let last = len - frame_len;
    let mut s: usize = 0;
    proof {
        assert(starts@.len() * hop_len == 0) by (nonlinear_arith)
            requires
                starts@.len() == 0,
        ;
    }
    while s <= last
        invariant_except_break
            hop_len > 0,
            frame_len <= len,
            last == len - frame_len,
            s == starts@.len() * hop_len,
            starts@.len() == 0 ==> s == 0,
            starts@.len() >= 1 ==> (starts@.len() - 1) * hop_len <= last,
            forall|j: int|
                0 <= j < starts@.len() ==> starts@[j] == j * hop_len && starts@[j] + frame_len
                    <= len,
        ensures
            forall|j: int|
                0 <= j < starts@.len() ==> starts@[j] == j * hop_len && starts@[j] + frame_len
                    <= len,
            starts@.len() * hop_len > last,
            starts@.len() >= 1,
            (starts@.len() - 1) * hop_len <= last,
        decreases last - s,
    {
        let ghost k = starts@.len() as int;
        proof {
            assert((k + 1) * hop_len == k * hop_len + hop_len) by (nonlinear_arith);
        }
        starts.push(s);
        match s.checked_add(hop_len) {
            Some(n) => {
                if n > last {
                    break ;
                }
                s = n;
            },
            None => {
                break ;
            },
        }
    }
    proof {
        let k = starts@.len() as int;
        lemma_div_of_bounded(last as int, hop_len as int, k - 1);
    }
    starts
}

/// The boundaries of the consecutive pitch periods of length `period_len`
/// inside a window of `len` samples: `(k * period_len, (k + 1) * period_len)`
/// while the period's end stays strictly below `len`, matching a segmentation
/// that never consumes the window's final sample.
pub fn period_plan(len: usize, period_len: usize) -> (r: Vec<(usize, usize)>)
    ensures
        r@.len() == period_count(len as nat, period_len as nat),
        forall|j: int|
            0 <= j < r@.len() ==> r@[j].0 == j * period_len && r@[j].1 == j * period_len
                + period_len && r@[j].1 < len,
{
    let mut periods: Vec<(usize, usize)> = Vec::new();
    if period_len == 0 || period_len >= len {
        proof {
            if period_len > 0 && len > 0 {
                lemma_basic_div((len - 1) as int, period_len as int);
            }
        }
        return periods;
    }
    let mut s: usize = 0;
    proof {
        assert(periods@.len() * period_len == 0) by (nonlinear_arith)
            requires
                periods@.len() == 0,
        ;
    }
    while s < len - period_len
        invariant
            0 < period_len < len,
            s == periods@.len() * period_len,
            periods@.len() == 0 ==> s == 0,
            periods@.len() >= 1 ==> periods@.len() * period_len < len,
            forall|j: int|
                0 <= j < periods@.len() ==> periods@[j].0 == j * period_len && periods@[j].1 == j
                    * period_len + period_len && periods@[j].1 < len,
        decreases len - s,
    {
        let ghost k = periods@.len() as int;
        proof {
            assert((k + 1) * period_len == k * period_len + period_len) by (nonlinear_arith);
        }
        periods.push((s, s + period_len));
        s = s + period_len;
    }
    proof {
        let k = periods@.len() as int;
        if k == 0 {
            assert(len - period_len <= 0);
            assert(false);
        }
        assert((k + 1) * period_len == k * period_len + period_len) by (nonlinear_arith);
        lemma_div_of_bounded((len - 1) as int, period_len as int, k);
    }
    periods
}

/// Coverage law of the chunk plan: under a positive stride, every sample
/// index `i < len` falls inside the stride cell of chunk `i / stride`, that
/// chunk exists in the plan, and its planned window still contains `i`, so
/// the stride cells cover `[0, len)`.
pub proof fn lemma_chunk_plan_covers(i: nat, len: usize, stride: usize, overlap: usize)
    requires
        stride > 0,
        i < len,
    ensures
        i / (stride as nat) < stride_count(len as nat, stride as nat),
        chunk_plan_seq(len, stride, overlap)[i as int / (stride as int)].0 <= i,
        i < chunk_plan_seq(len, stride, overlap)[i as int / (stride as int)].0 + stride,
        i < chunk_plan_seq(len, stride, overlap)[i as int / (stride as int)].1,
{
    let d = stride as int;
    let q = i as int / d;
    lemma_fundamental_div_mod(i as int, d);
    lemma_mod_bound(i as int, d);
    lemma_div_pos_is_pos(i as int, d);
    assert(d * q <= i as int);
    assert((i as int) < d * q + d);
    assert(d * q == q * d) by (nonlinear_arith);
    lemma_div_is_ordered(i as int, len as int - 1, d);
}

/// Disjointness law of the stride start points: distinct chunks begin at
/// least one whole stride apart, so no sample index lies in two stride cells.
pub proof fn lemma_chunk_cells_disjoint(k1: nat, k2: nat, stride: usize)
    requires
        stride > 0,
        k1 < k2,
    ensures
        k1 * stride + stride <= k2 * stride,
{
    assert(k1 * stride + stride <= k2 * stride) by (nonlinear_arith)
        requires stride > 0 && k1 < k2;
}

/// Uniqueness law of the covering chunk: a sample index inside the stride
/// cell of chunk `k` identifies `k` as `i / stride`, so together with the
/// coverage law each index is covered exactly once under the stride.
pub proof fn lemma_chunk_cell_unique(i: nat, k: nat, stride: usize)
    requires
        stride > 0,
        k * stride <= i,
        i < k * stride + stride,
    ensures
        k == i / (stride as nat),
{
    assert((k as int + 1) * stride == k as int * stride + stride) by (nonlinear_arith);
    lemma_div_of_bounded(i as int, stride as int, k as int);
}

} // verus!

