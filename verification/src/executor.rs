//! The parallel chunk executor.
//!
//! A feature kernel steps through every analysis frame of every chunk. The
//! per-chunk work is independent, so chunks are mapped in parallel; results
//! are then reassembled by chunk index, never by task completion order, so
//! the output always matches a sequential left-to-right pass. The kernel's
//! numeric evaluation happens outside this crate on the planned frames; what
//! is ordered and reassembled here are the global frame start offsets every
//! kernel steps through.

use vstd::prelude::*;
use vstd::arithmetic::div_mod::{
    lemma_div_is_ordered, lemma_div_multiples_vanish, lemma_div_pos_is_pos,
    lemma_fundamental_div_mod, lemma_mod_bound,
};
use rayon::iter::{IndexedParallelIterator, IntoParallelRefIterator, ParallelIterator};
use crate::errors::AudioError;
use crate::demux::spec_has_audio;
use crate::plan::{chunk_plan, chunk_plan_seq, frame_count, frame_starts, stride_count};

verus! {

/// The global start offsets of the analysis frames inside chunk `c`:
/// `c.0, c.0 + hop, c.0 + 2*hop, ...` while a whole frame of `frame_len`
/// samples still fits before `c.1`.
pub open spec fn chunk_frames(c: (usize, usize), frame_len: usize, hop_len: usize) -> Seq<usize>
    recommends
        hop_len > 0,
        c.0 <= c.1,
{
    Seq::new(
        frame_count((c.1 - c.0) as nat, frame_len as nat, hop_len as nat),
        |j: int| (c.0 + j * hop_len) as usize,
    )
}

/// A sequential left-to-right pass over the chunk plan: the frame start
/// offsets of chunk 0, then of chunk 1, and so on.
pub open spec fn sequential_frame_positions(
    plan: Seq<(usize, usize)>,
    frame_len: usize,
    hop_len: usize,
) -> Seq<usize>
    decreases plan.len(),
{
    if plan.len() == 0 {
        Seq::empty()
    } else {
        chunk_frames(plan[0], frame_len, hop_len) + sequential_frame_positions(
            plan.drop_first(),
            frame_len,
            hop_len,
        )
    }
}

proof fn lemma_sequential_snoc(plan: Seq<(usize, usize)>, frame_len: usize, hop_len: usize)
    requires
        plan.len() > 0,
    ensures
        sequential_frame_positions(plan, frame_len, hop_len) == sequential_frame_positions(
            plan.drop_last(),
            frame_len,
            hop_len,
        ) + chunk_frames(plan.last(), frame_len, hop_len),
    decreases plan.len(),
{
    if plan.len() == 1 {
        assert(plan.drop_first() =~= Seq::<(usize, usize)>::empty());
        assert(plan.drop_last() =~= Seq::<(usize, usize)>::empty());
        assert(sequential_frame_positions(plan, frame_len, hop_len) =~= sequential_frame_positions(
            plan.drop_last(),
            frame_len,
            hop_len,
        ) + chunk_frames(plan.last(), frame_len, hop_len));
    } else {
        let rest = plan.drop_first();
        lemma_sequential_snoc(rest, frame_len, hop_len);
        assert(plan.drop_last().drop_first() =~= rest.drop_last());
        assert(sequential_frame_positions(plan, frame_len, hop_len) =~= sequential_frame_positions(
            plan.drop_last(),
            frame_len,
            hop_len,
        ) + chunk_frames(plan.last(), frame_len, hop_len));
    }
}

/// The frame start offsets of one chunk, computed from the chunk bounds:
/// the chunk-local frame plan shifted by the chunk's global start offset.
pub fn chunk_frame_starts(start: usize, end: usize, frame_len: usize, hop_len: usize) -> (r: Vec<
    usize,
>)
    requires
        hop_len > 0,
        start <= end,
    ensures
        r@ == chunk_frames((start, end), frame_len, hop_len),
{
    let locals = frame_starts(end - start, frame_len, hop_len);
    let mut out: Vec<usize> = Vec::new();
    let mut i: usize = 0;
    while i < locals.len()
        invariant
            i <= locals@.len(),
            start <= end,
            out@.len() == i,
            locals@.len() == frame_count((end - start) as nat, frame_len as nat, hop_len as nat),
            forall|j: int|
                0 <= j < locals@.len() ==> locals@[j] == j * hop_len && locals@[j] + frame_len <= end
                    - start,
            forall|j: int| 0 <= j < i ==> out@[j] == start + locals@[j],
        decreases locals@.len() - i,
    {
        out.push(start + locals[i]);
        i = i + 1;
    }
    proof {
        assert(out@ =~= chunk_frames((start, end), frame_len, hop_len));
    }
    out
}

/// Relies on rayon: `par_iter().map(..).collect_into_vec(..)` over a `Vec`
/// is an indexed parallel map, and rayon documents that it writes the image
/// of input element `k` to output position `k`, whatever order the parallel
/// tasks complete in. The mapped closure only calls `chunk_frame_starts`.
#[verifier::external_body]
fn par_map_chunk_frames(plan: &Vec<(usize, usize)>, frame_len: usize, hop_len: usize) -> (r: Vec<
    Vec<usize>,
>)
    requires
        hop_len > 0,
        forall|k: int| 0 <= k < plan@.len() ==> (#[trigger] plan@[k]).0 <= plan@[k].1,
    ensures
        r@.len() == plan@.len(),
        forall|k: int|
            0 <= k < plan@.len() ==> (#[trigger] r@[k])@ == chunk_frames(
                plan@[k],
                frame_len,
                hop_len,
            ),
{
    let mut out: Vec<Vec<usize>> = Vec::new();
    plan.par_iter().map(|c: &(usize, usize)| chunk_frame_starts(c.0, c.1, frame_len, hop_len)).collect_into_vec(
        &mut out,
    );
    out
}

/// Runs the frame planner over every chunk in parallel and reassembles the
/// per-chunk results in chunk order, which restores global time order no
/// matter when each parallel task finished.
pub fn frame_positions_parallel(plan: &Vec<(usize, usize)>, frame_len: usize, hop_len: usize) -> (r:
    Vec<usize>)
    requires
        hop_len > 0,
        forall|k: int| 0 <= k < plan@.len() ==> (#[trigger] plan@[k]).0 <= plan@[k].1,
    ensures
        r@ == sequential_frame_positions(plan@, frame_len, hop_len),
{
    let per = par_map_chunk_frames(plan, frame_len, hop_len);
    let ghost pc = per@.map_values(|v: Vec<usize>| v@);
    let mut out: Vec<usize> = Vec::new();
    let mut k: usize = 0;
    proof {
        assert(pc.take(0) =~= Seq::<Seq<usize>>::empty());
    }
    while k < per.len()
        invariant
            k <= per@.len(),
            pc == per@.map_values(|v: Vec<usize>| v@),
            per@.len() == plan@.len(),
            forall|kk: int|
                0 <= kk < plan@.len() ==> (#[trigger] per@[kk])@ == chunk_frames(
                    plan@[kk],
                    frame_len,
                    hop_len,
                ),
            out@ == pc.take(k as int).flatten(),
        decreases per@.len() - k,
    {
        let inner = &per[k];
        let mut m: usize = 0;
        while m < inner.len()
            invariant
                m <= inner@.len(),
                inner@ == per@[k as int]@,
                k < per@.len(),
                pc == per@.map_values(|v: Vec<usize>| v@),
                out@ == pc.take(k as int).flatten() + inner@.take(m as int),
            decreases inner@.len() - m,
        {
            out.push(inner[m]);
            assert(inner@.take(m + 1 as int) =~= inner@.take(m as int).push(inner@[m as int]));
            m = m + 1;
        }
        proof {
            assert(inner@.take(inner@.len() as int) =~= inner@);
            pc.take(k as int).lemma_flatten_push(pc[k as int]);
            assert(pc.take(k + 1 as int) =~= pc.take(k as int).push(pc[k as int]));
        }
        k = k + 1;
    }
    proof {
        assert(pc.take(per@.len() as int) =~= pc);
        lemma_parallel_matches_sequential(pc, plan@, frame_len, hop_len);
    }
    out
}

/// Runs the frame planner over the chunks one by one, left to right.
pub fn frame_positions_sequential(plan: &Vec<(usize, usize)>, frame_len: usize, hop_len: usize) -> (
    r: Vec<usize>)
    requires
        hop_len > 0,
        forall|k: int| 0 <= k < plan@.len() ==> (#[trigger] plan@[k]).0 <= plan@[k].1,
    ensures
        r@ == sequential_frame_positions(plan@, frame_len, hop_len),
{
    let mut out: Vec<usize> = Vec::new();
    let mut k: usize = 0;
    proof {
        assert(plan@.take(0) =~= Seq::<(usize, usize)>::empty());
    }
    while k < plan.len()
        invariant
            hop_len > 0,
            k <= plan@.len(),
            forall|kk: int| 0 <= kk < plan@.len() ==> (#[trigger] plan@[kk]).0 <= plan@[kk].1,
            out@ == sequential_frame_positions(plan@.take(k as int), frame_len, hop_len),
        decreases plan@.len() - k,
    {
        let c = plan[k];
        let frames = chunk_frame_starts(c.0, c.1, frame_len, hop_len);
        let mut m: usize = 0;
        while m < frames.len()
            invariant
                m <= frames@.len(),
                out@ == sequential_frame_positions(plan@.take(k as int), frame_len, hop_len)
                    + frames@.take(m as int),
            decreases frames@.len() - m,
        {
            out.push(frames[m]);
            assert(frames@.take(m + 1 as int) =~= frames@.take(m as int).push(frames@[m as int]));
            m = m + 1;
        }
        proof {
            assert(frames@.take(frames@.len() as int) =~= frames@);
            assert(plan@.take(k + 1 as int).drop_last() =~= plan@.take(k as int));
            lemma_sequential_snoc(plan@.take(k + 1 as int), frame_len, hop_len);
        }
        k = k + 1;
    }
    proof {
        assert(plan@.take(plan@.len() as int) =~= plan@);
    }
    out
}

/// Order-independence law of the executor: per-chunk results that agree,
/// chunk by chunk, with the kernel's frame plan flatten to exactly the
/// sequence a sequential left-to-right pass produces — in particular the
/// parallel and the sequential executor return results of equal length and
/// equal content on every chunk plan.
pub proof fn lemma_parallel_matches_sequential(
    per_chunk: Seq<Seq<usize>>,
    plan: Seq<(usize, usize)>,
    frame_len: usize,
    hop_len: usize,
)
    requires
        per_chunk.len() == plan.len(),
        forall|k: int|
            0 <= k < plan.len() ==> per_chunk[k] == chunk_frames(plan[k], frame_len, hop_len),
    ensures
        per_chunk.flatten() == sequential_frame_positions(plan, frame_len, hop_len),
    decreases plan.len(),
{
    if plan.len() > 0 {
        lemma_parallel_matches_sequential(
            per_chunk.drop_first(),
            plan.drop_first(),
            frame_len,
            hop_len,
        );
        assert(per_chunk.flatten() == per_chunk.first() + per_chunk.drop_first().flatten());
    }
}

proof fn lemma_chunk_frame_in_bounds(c: (usize, usize), frame_len: usize, hop_len: usize, j: int)
    requires
        hop_len > 0,
        c.0 <= c.1,
        0 <= j < chunk_frames(c, frame_len, hop_len).len(),
    ensures
        chunk_frames(c, frame_len, hop_len)[j] + frame_len <= c.1,
{
    let ll = c.1 - c.0;
    let m = ll - frame_len;
    let q = m / (hop_len as int);
    lemma_fundamental_div_mod(m, hop_len as int);
    lemma_mod_bound(m, hop_len as int);
    assert(hop_len * q == q * hop_len) by (nonlinear_arith);
    assert(j * hop_len <= q * hop_len) by (nonlinear_arith)
        requires
            0 <= j <= q && hop_len > 0,
    ;
}

/// Safety law of the planned frames: on a plan whose windows end within the
/// data, every planned frame lies entirely inside `[0, len)`, so a kernel
/// reading `frame_len` samples from each planned position never leaves the
/// channel buffer.
pub proof fn lemma_frame_positions_in_bounds(
    plan: Seq<(usize, usize)>,
    frame_len: usize,
    hop_len: usize,
    len: usize,
)
    requires
        hop_len > 0,
        forall|k: int| 0 <= k < plan.len() ==> (#[trigger] plan[k]).0 <= plan[k].1 <= len,
    ensures
        forall|idx: int|
            0 <= idx < sequential_frame_positions(plan, frame_len, hop_len).len()
                ==> #[trigger] sequential_frame_positions(plan, frame_len, hop_len)[idx] + frame_len
                <= len,
    decreases plan.len(),
{
    if plan.len() > 0 {
        lemma_frame_positions_in_bounds(plan.drop_first(), frame_len, hop_len, len);
        let cf = chunk_frames(plan[0], frame_len, hop_len);
        let rest = sequential_frame_positions(plan.drop_first(), frame_len, hop_len);
        assert forall|idx: int|
            0 <= idx < sequential_frame_positions(plan, frame_len, hop_len).len()
                implies #[trigger] sequential_frame_positions(plan, frame_len, hop_len)[idx]
            + frame_len <= len by {
            if idx < cf.len() {
                lemma_chunk_frame_in_bounds(plan[0], frame_len, hop_len, idx);
            } else {
                assert(rest[idx - cf.len()] + frame_len <= len);
            }
        }
    }
}

/// Overlap sufficiency law: when the chunk stride is a multiple of the hop
/// and the overlap keeps at least `frame_len - hop_len` samples of
/// lookahead, no analysis frame is lost at a chunk boundary — every frame
/// start that is a multiple of the hop and whose frame fits inside the data
/// is planned by the chunk whose stride cell contains it. An overlap below
/// that bound has no such guarantee: a frame beginning near a chunk's
/// nominal end would be truncated and dropped.
pub proof fn lemma_overlap_preserves_frames(
    g: usize,
    len: usize,
    stride: usize,
    overlap: usize,
    frame_len: usize,
    hop_len: usize,
)
    requires
        stride > 0,
        hop_len > 0,
        frame_len > 0,
        (stride as int) % (hop_len as int) == 0,
        overlap + hop_len >= frame_len,
        (g as int) % (hop_len as int) == 0,
        g + frame_len <= len,
    ensures
        (g as int) / (stride as int) < stride_count(len as nat, stride as nat),
        chunk_frames(
            chunk_plan_seq(len, stride, overlap)[g as int / (stride as int)],
            frame_len,
            hop_len,
        ).contains(g),
{
    let d = stride as int;
    let h = hop_len as int;
    let gi = g as int;
    let li = len as int;
    let ov = overlap as int;
    let f = frame_len as int;

    let k = gi / d;
    lemma_fundamental_div_mod(gi, d);
    lemma_mod_bound(gi, d);
    lemma_div_pos_is_pos(gi, d);
    assert(d * k == k * d) by (nonlinear_arith);
    assert(k * d <= gi < k * d + d);
    lemma_div_is_ordered(gi, li - 1, d);

    let qs = d / h;
    lemma_fundamental_div_mod(d, h);
    let m = gi / h;
    lemma_fundamental_div_mod(gi, h);
    assert(gi == h * m);
    assert(d == h * qs);
    assert(qs >= 1) by (nonlinear_arith)
        requires
            d == h * qs && d > 0 && h > 0 && d % h == 0 && 0 < d,
    ;

    let local = gi - k * d;
    let j = m - k * qs;
    assert(local == j * h) by (nonlinear_arith)
        requires
            gi == h * m && d == h * qs && local == gi - k * d && j == m - k * qs,
    ;
    assert(j >= 0) by (nonlinear_arith)
        requires
            j * h == local && local >= 0 && h > 0,
    ;
    assert(j < qs) by (nonlinear_arith)
        requires
            j * h < qs * h && h > 0,
    ;
    assert(local <= d - h) by (nonlinear_arith)
        requires
            local == j * h && d == h * qs && j <= qs - 1 && h > 0,
    ;

    let c = chunk_plan_seq(len, stride, overlap)[k];
    assert(c.0 == k * d && c.1 == crate::plan::spec_min(k * d + d + ov, li));
    let wl = c.1 - c.0;
    assert(h <= d) by (nonlinear_arith)
        requires
            d == h * qs && qs >= 1 && h > 0,
    ;
    assert(f <= wl);
    assert(local + f <= wl);

    let cf = chunk_frames(c, frame_len, hop_len);
    assert(cf.len() == (wl - f) / h + 1);
    lemma_div_multiples_vanish(j, h);
    lemma_div_is_ordered(j * h, wl - f, h);
    assert(j <= (wl - f) / h);
    assert(cf[j] == (c.0 + j * h) as usize);
    assert(cf[j] == g);
}

/// Determinism law of the executor: its contract admits exactly one result
/// for a given chunk plan, so task completion order cannot leak into the
/// output, and two runs over identical input and configuration yield
/// identical sequences.
pub proof fn lemma_executor_deterministic(
    r1: Seq<usize>,
    r2: Seq<usize>,
    plan: Seq<(usize, usize)>,
    frame_len: usize,
    hop_len: usize,
)
    requires
        r1 == sequential_frame_positions(plan, frame_len, hop_len),
        r2 == sequential_frame_positions(plan, frame_len, hop_len),
    ensures
        r1 == r2,
{
}

/// The whole per-channel planning front end: the silence gate, the chunk
/// plan, and the parallel executor over the plan. A silent channel is
/// skipped entirely and yields an empty sequence — not zero-filled rows;
/// a channel with audio yields the global frame start offsets its kernel
/// will evaluate, in time order.
pub fn plan_channel_frames(
    samples: &Vec<i32>,
    silence_threshold: i32,
    chunk_samples: usize,
    overlap_samples: usize,
    frame_len: usize,
    hop_len: usize,
) -> (r: Result<Vec<usize>, AudioError>)
    requires
        silence_threshold >= 0,
        hop_len > 0,
    ensures
        !spec_has_audio(samples@, silence_threshold) ==> r is Ok && r->Ok_0@.len() == 0,
        spec_has_audio(samples@, silence_threshold) ==> ((r is Err) <==> (chunk_samples == 0
            && samples@.len() > 0)),
        r is Err ==> r->Err_0 == AudioError::ZeroChunkStride,
        spec_has_audio(samples@, silence_threshold) && r is Ok ==> r->Ok_0@
            == sequential_frame_positions(
            chunk_plan_seq((samples@.len() as usize), chunk_samples, overlap_samples),
            frame_len,
            hop_len,
        ),
{
    if !crate::demux::has_audio(samples, silence_threshold) {
        return Ok(Vec::new());
    }
    match chunk_plan(samples.len(), chunk_samples, overlap_samples) {
        Err(e) => Err(e),
        Ok(plan) => Ok(frame_positions_parallel(&plan, frame_len, hop_len)),
    }
}

} // verus!
