//! Splitting an interleaved sample stream into per-channel buffers, and the
//! silence gate that decides whether a channel carries any audio at all.
//!
//! Samples are the decoder's raw integers; interleaved index `i` belongs to
//! channel `i mod C`. Normalization to floating point is the caller's step
//! and does not change which channel a sample lands in.

use vstd::prelude::*;
use vstd::arithmetic::div_mod::{
    lemma_div_is_ordered, lemma_div_multiples_vanish, lemma_fundamental_div_mod,
    lemma_fundamental_div_mod_converse_div, lemma_mod_bound,
};
use crate::errors::AudioError;

verus! {

/// How many interleaved samples out of `total` land in channel `c` when
/// index `i` goes to channel `i mod channels`.
pub open spec fn channel_len(total: nat, channels: nat, c: nat) -> nat
    recommends
        channels > 0,
        c < channels,
{
    (((total + channels - 1 - c) as int) / (channels as int)) as nat
}

/// Whether sample `s` exceeds the silence threshold `thr` in magnitude.
pub open spec fn sample_exceeds(s: i32, thr: i32) -> bool {
    s > thr || s < -thr
}

/// Whether any sample of the channel exceeds the silence threshold.
pub open spec fn spec_has_audio(s: Seq<i32>, thr: i32) -> bool {
    exists|i: int| 0 <= i < s.len() && sample_exceeds(s[i], thr)
}

/// Checks the decoder's stream parameters once at startup: a stream with
/// zero channels or a zero sample rate cannot be analyzed.
pub fn validate_stream(sample_rate: u32, channel_count: u32) -> (r: Result<(), AudioError>)
    ensures
        r is Ok <==> (sample_rate > 0 && channel_count > 0),
        r is Err ==> r->Err_0 == AudioError::InvalidAudio,
{
    if sample_rate == 0 || channel_count == 0 {
        Err(AudioError::InvalidAudio)
    } else {
        Ok(())
    }
}

/// Splits an interleaved stream into `channel_count` independent channel
/// buffers: sample `j` of channel `c` is interleaved sample `j * channel_count
/// + c`. A stream with zero channels is refused.
pub fn demux(interleaved: &Vec<i32>, channel_count: usize) -> (r: Result<
    Vec<Vec<i32>>,
    AudioError,
>)
    ensures
        r is Ok <==> channel_count > 0,
        r is Err ==> r->Err_0 == AudioError::InvalidAudio,
        r is Ok ==> r->Ok_0@.len() == channel_count,
        r is Ok ==> forall|c: int|
            0 <= c < channel_count ==> (#[trigger] r->Ok_0@[c])@.len() == channel_len(
                interleaved@.len(),
                channel_count as nat,
                c as nat,
            ),
        r is Ok ==> forall|c: int, j: int|
            0 <= c < channel_count && 0 <= j < r->Ok_0@[c]@.len() ==> #[trigger] r->Ok_0@[c]@[j]
                == interleaved@[j * channel_count + c],
{
    if channel_count == 0 {
        return Err(AudioError::InvalidAudio);
    }
    let n = interleaved.len();
    let mut chans: Vec<Vec<i32>> = Vec::new();
    let mut c: usize = 0;
    while c < channel_count
        invariant
            channel_count > 0,
            c <= channel_count,
            n == interleaved@.len(),
            chans@.len() == c,
            forall|cc: int|
                0 <= cc < c ==> (#[trigger] chans@[cc])@.len() == channel_len(
                    n as nat,
                    channel_count as nat,
                    cc as nat,
                ),
            forall|cc: int, j: int|
                0 <= cc < c && 0 <= j < chans@[cc]@.len() ==> #[trigger] chans@[cc]@[j]
                    == interleaved@[j * channel_count + cc],
        decreases channel_count - c,
    {
        let mut buf: Vec<i32> = Vec::new();
        let mut idx: usize = c;
        proof {
            assert(buf@.len() * channel_count == 0) by (nonlinear_arith)
                requires
                    buf@.len() == 0,
            ;
        }
        while idx < n
            invariant_except_break
                channel_count > 0,
                c < channel_count,
                n == interleaved@.len(),
                idx == buf@.len() * channel_count + c,
                buf@.len() == 0 ==> idx == c,
                buf@.len() >= 1 ==> (buf@.len() - 1) * channel_count + c < n,
                forall|j: int|
                    0 <= j < buf@.len() ==> #[trigger] buf@[j] == interleaved@[j * channel_count
                        + c],
            ensures
                buf@.len() * channel_count + c >= n,
                buf@.len() >= 1 ==> (buf@.len() - 1) * channel_count + c < n,
                buf@.len() == 0 ==> c >= n,
                forall|j: int|
                    0 <= j < buf@.len() ==> #[trigger] buf@[j] == interleaved@[j * channel_count
                        + c],
            decreases n - idx,
        {
            let ghost k = buf@.len() as int;
            proof {
                assert((k + 1) * channel_count == k * channel_count + channel_count)
                    by (nonlinear_arith);
            }
            buf.push(interleaved[idx]);
            match idx.checked_add(channel_count) {
                Some(next) => {
                    if next >= n {
                        break ;
                    }
                    idx = next;
                },
                None => {
                    break ;
                },
            }
        }
        proof {
            let k = buf@.len() as int;
            let cc = channel_count as int;
            let m = n + cc - 1 - c;
            assert((k + 1) * cc == k * cc + cc) by (nonlinear_arith);
            if k >= 1 {
                assert(k * cc == (k - 1) * cc + cc) by (nonlinear_arith);
            } else {
                assert(k * cc == 0) by (nonlinear_arith)
                    requires
                        k == 0,
                ;
            }
            lemma_fundamental_div_mod_converse_div(m, cc, k, m - k * cc);
            assert(buf@.len() == channel_len(n as nat, channel_count as nat, c as nat));
        }
        chans.push(buf);
        c = c + 1;
    }
    Ok(chans)
}

/// Coverage law of the demultiplexer: interleaved sample `i` lands in
/// channel `i mod C` at position `i / C`, that position exists in the
/// channel's buffer, and it reads back the same interleaved index — so the
/// channel buffers partition the stream exactly once.
pub proof fn lemma_demux_covers(i: nat, total: nat, channels: nat)
    requires
        channels > 0,
        i < total,
    ensures
        i % channels < channels,
        i / channels < channel_len(total, channels, i % channels),
        (i / channels) * channels + (i % channels) == i,
{
    let d = channels as int;
    let q = i as int / d;
    let c = i as int % d;
    lemma_fundamental_div_mod(i as int, d);
    lemma_mod_bound(i as int, d);
    assert(d * q == q * d) by (nonlinear_arith);
    let m = total + d - 1 - c;
    assert((q + 1) * d == q * d + d) by (nonlinear_arith);
    assert((q + 1) * d <= m);
    lemma_div_is_ordered((q + 1) * d, m as int, d);
    assert(d * (q + 1) == (q + 1) * d) by (nonlinear_arith);
    lemma_div_multiples_vanish(q + 1, d);
}

/// Whether the channel carries any audio: true exactly when some sample
/// exceeds `threshold` in magnitude. A channel without audio is skipped by
/// the pipeline and contributes an empty result sequence.
pub fn has_audio(samples: &Vec<i32>, threshold: i32) -> (r: bool)
    requires
        threshold >= 0,
    ensures
        r == spec_has_audio(samples@, threshold),
{
    let n = samples.len();
    let mut i: usize = 0;
    while i < n
        invariant
            n == samples@.len(),
            i <= n,
            threshold >= 0,
            forall|j: int| 0 <= j < i ==> !sample_exceeds(samples@[j], threshold),
        decreases n - i,
    {
        let s = samples[i];
        if s > threshold || s < -threshold {
            assert(sample_exceeds(samples@[i as int], threshold));
            return true;
        }
        i = i + 1;
    }
    false
}

} // verus!
