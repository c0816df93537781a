//! Filling an interleaved output buffer from the engine.

use vstd::prelude::*;
use crate::poly::{mix, tick, Poly, PolyState};

verus! {

/// The engine `n` samples later.
pub open spec fn ticks(s: PolyState, n: nat) -> PolyState
    decreases n,
{
    if n == 0 {
        s
    } else {
        tick(ticks(s, (n - 1) as nat))
    }
}

/// The sample that the engine returns at its call number `k`, counted from
/// zero.
pub open spec fn sample_at(s: PolyState, k: nat) -> int {
    mix(ticks(s, k + 1).voices)
}

/// The frames of a buffer of `len` slots with `channels` slots to a frame;
/// slots left over at the end make one more, shorter frame.
pub open spec fn frames(len: nat, channels: nat) -> nat
    recommends
        channels > 0,
{
    ((len + channels - 1) / channels as int) as nat
}

/// Slot `i` lies in frame `k`, which starts at slot `k * channels`.
proof fn lemma_slot_in_frame(i: int, k: int, channels: int)
    requires
        channels > 0,
        k >= 0,
        k * channels <= i < k * channels + channels,
    ensures
        i / channels == k,
        i - i % channels == k * channels,
{
    vstd::arithmetic::div_mod::lemma_fundamental_div_mod_converse(i, channels, k, i - k * channels);
}

/// A buffer that ends inside or at the end of frame `k` has `k + 1` frames.
proof fn lemma_frames_upto(len: int, k: int, channels: int)
    requires
        channels > 0,
        k >= 0,
        k * channels < len <= k * channels + channels,
    ensures
        frames(len as nat, channels as nat) == k + 1,
{
    assert((k + 1) * channels == k * channels + channels) by (nonlinear_arith);
    lemma_slot_in_frame(len + channels - 1, k + 1, channels);
}

/// Fills `output`, frame by frame: for each frame the engine moves on by
/// one sample, `convert` turns that sample into the buffer's format once, and
/// the result goes into every slot of the frame.
pub fn write_data<T: Copy, F: Fn(i64) -> T>(
    output: &mut [T],
    channels: usize,
    poly: &mut Poly,
    convert: F,
)
    requires
        channels > 0,
        forall|sample: i64| convert.requires((sample,)),
    ensures
        final(output)@.len() == old(output)@.len(),
        final(poly)@ == ticks(old(poly)@, frames(old(output)@.len(), channels as nat)),
        forall|k: nat|
            k < frames(old(output)@.len(), channels as nat) ==> i64::MIN <= #[trigger] sample_at(
                old(poly)@,
                k,
            ) <= i64::MAX,
        forall|i: int|
            0 <= i < old(output)@.len() ==> convert.ensures(
                (sample_at(old(poly)@, (i / channels as int) as nat) as i64,),
                #[trigger] final(output)@[i],
            ),
        forall|i: int|
            0 <= i < old(output)@.len() ==> #[trigger] final(output)@[i] == final(output)@[i - i
                % channels as int],
{
    let len = output.len();
    let ghost mut done: nat = 0;
    proof {
        lemma_slot_in_frame(channels - 1, 0, channels as int);
    }
    let mut start: usize = 0;
    while start < len
        invariant
            channels > 0,
            len == output@.len(),
            start <= len,
            start == len || start == done * channels,
            done == frames(start as nat, channels as nat),
            poly@ == ticks(old(poly)@, done),
            forall|sample: i64| convert.requires((sample,)),
            forall|k: nat| k < done ==> i64::MIN <= #[trigger] sample_at(old(poly)@, k) <= i64::MAX,
            forall|i: int|
                0 <= i < start ==> convert.ensures(
                    (sample_at(old(poly)@, (i / channels as int) as nat) as i64,),
                    #[trigger] output@[i],
                ),
            forall|i: int| 0 <= i < start ==> #[trigger] output@[i] == output@[i - i % channels as int],
        decreases len - start,
    {
        let sample = poly.next_sample();
        let value = convert(sample);
        let end = if len - start < channels {
            len
        } else {
            start + channels
        };
        let ghost filled = output@;
        let mut i = start;
        while i < end
            invariant
                channels > 0,
                len == output@.len(),
                start < end <= len,
                end <= start + channels,
                start <= i <= end,
                forall|j: int| 0 <= j < start ==> output@[j] == filled[j],
                forall|j: int| start <= j < i ==> output@[j] == value,
            decreases end - i,
        {
            output[i] = value;
            i += 1;
        }
        proof {
            assert(sample == sample_at(old(poly)@, done));
            assert((done + 1) * channels == done * channels + channels) by (nonlinear_arith);
            assert forall|j: int| 0 <= j < end implies convert.ensures(
                (sample_at(old(poly)@, (j / channels as int) as nat) as i64,),
                #[trigger] output@[j],
            ) && output@[j] == output@[j - j % channels as int] by {
                if j < start {
                    assert(0 <= j - j % channels as int <= j) by (nonlinear_arith)
                        requires
                            0 <= j,
                            channels > 0,
                    ;
                    assert(filled[j] == filled[j - j % channels as int]);
                } else {
                    lemma_slot_in_frame(j, done as int, channels as int);
                }
            }
            lemma_frames_upto(end as int, done as int, channels as int);
            done = done + 1;
        }
        start = end;
    }
}

} // verus!
