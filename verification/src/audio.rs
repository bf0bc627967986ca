//! The audio side of the demo: samples that the synthesizer renders in blocks are
//! queued, then handed out one per output frame, copied to every channel.

use vstd::prelude::*;
use std::collections::VecDeque;

verus! {

broadcast use vstd::std_specs::vecdeque::group_vec_dequeue_axioms;

/// How far a call to `fill_frames` got.
#[derive(PartialEq, Eq, Structural, Clone, Copy, Debug)]
pub enum FillOutcome {
    /// Every frame of the buffer is written.
    Filled,
    /// The queue ran dry: frames before `frame` are written, `frame` and later are not.
    /// Queue another block and call again from `frame`.
    Starved { frame: usize },
}

/// `out` after frames `first .. end` are written from `queue`: every sample of frame
/// `f` (that is, positions `f * channels` to `f * channels + channels - 1`) holds queued
/// sample `f - first`; the other positions keep their contents.
pub open spec fn spec_fill<T>(out: Seq<T>, queue: Seq<T>, channels: int, first: int, end: int) -> Seq<T> {
    Seq::new(
        out.len(),
        |m: int|
            if first * channels <= m < end * channels {
                queue[m / channels - first]
            } else {
                out[m]
            },
    )
}

/// The frame before which a fill stopped, for a buffer of `frames` frames.
pub open spec fn fill_end(outcome: FillOutcome, frames: int) -> int {
    match outcome {
        FillOutcome::Filled => frames,
        FillOutcome::Starved { frame } => frame as int,
    }
}

/// The number of frames in an interleaved buffer of `len` samples, counting a trailing
/// partial frame.
pub open spec fn frame_count(len: usize, channels: usize) -> int {
    (len + channels - 1) / (channels as int)
}

/// The smaller of two integers.
pub open spec fn min(a: int, b: int) -> int {
    if a < b {
        a
    } else {
        b
    }
}

/// Facts about the frame count of a buffer of `len` samples.
proof fn lemma_frame_count(len: int, channels: int, frames: int)
    by (nonlinear_arith)
    requires
        channels > 0,
        len >= 0,
        frames == (len + channels - 1) / channels,
    ensures
        frames >= 0,
        frames * channels >= len,
        forall|f: int| 0 <= f < frames ==> #[trigger] (f * channels) < len,
{
    assert forall|f: int| 0 <= f < frames implies #[trigger] (f * channels) < len by {
        assert(f <= frames - 1);
        assert(f * channels <= (frames - 1) * channels);
    }
}

/// Writes frames of the interleaved buffer `out` (`channels` samples per frame, the last
/// frame possibly cut short) from `first_frame` on: each frame takes the next sample off
/// the front of `queue`, on every channel it has. Stops when the buffer is full, or before
/// the first frame for which the queue holds no sample.
pub fn fill_frames<T: Copy>(
    queue: &mut VecDeque<T>,
    out: &mut Vec<T>,
    channels: usize,
    first_frame: usize,
) -> (outcome: FillOutcome)
    requires
        channels > 0,
        first_frame * channels <= old(out).len(),
    ensures
        first_frame <= fill_end(outcome, frame_count(old(out).len(), channels)) <= frame_count(
            old(out).len(),
            channels,
        ),
        outcome is Starved <==> old(queue)@.len() < frame_count(old(out).len(), channels) - first_frame,
        fill_end(outcome, frame_count(old(out).len(), channels)) - first_frame == min(
            old(queue)@.len() as int,
            frame_count(old(out).len(), channels) - first_frame,
        ),
        final(queue)@ == old(queue)@.skip(
            fill_end(outcome, frame_count(old(out).len(), channels)) - first_frame,
        ),
        final(out)@ == spec_fill(
            old(out)@,
            old(queue)@,
            channels as int,
            first_frame as int,
            fill_end(outcome, frame_count(old(out).len(), channels)),
        ),
        final(out).len() == old(out).len(),
        forall|m: int|
            0 <= m < old(out).len() ==> #[trigger] final(out)@[m] == if first_frame * channels <= m
                < fill_end(outcome, frame_count(old(out).len(), channels)) * channels {
                old(queue)@[m / (channels as int) - first_frame]
            } else {
                old(out)@[m]
            },
{
    let len: usize = out.len();
    let whole: usize = len / channels;
    let frames: usize = if len % channels == 0 {
        whole
    } else {
        assert(whole < usize::MAX) by (nonlinear_arith)
            requires
                whole == len / channels,
                len % channels != 0,
                len <= usize::MAX,
                channels > 0,
        {
            if channels == 1 {
                assert(len % channels == 0);
            }
            assert(whole * channels <= len);
        }
        whole + 1
    };
    let ghost q0 = queue@;
    let ghost out0 = out@;
    proof {
        assert(frames == frame_count(len, channels)) by (nonlinear_arith)
            requires
                channels > 0,
                frames == if len % channels == 0 {
                    (len / channels) as int
                } else {
                    len / channels + 1
                },
        ;
        lemma_frame_count(len as int, channels as int, frames as int);
        assert(first_frame <= frames) by (nonlinear_arith)
            requires
                first_frame * channels <= len,
                frames * channels >= len,
                len >= 0,
                channels > 0,
                frames >= 0,
                forall|f: int| 0 <= f < frames ==> #[trigger] (f * channels) < len,
        {
            if first_frame > frames {
                assert(first_frame * channels >= (frames + 1) * channels);
            }
        }
    }
    let mut frame: usize = first_frame;
    while frame < frames
        invariant
            channels > 0,
            len == out0.len(),
            forall|f: int| 0 <= f < frames ==> #[trigger] (f * channels) < len,
            first_frame <= frame <= frames,
            frames == frame_count(old(out).len(), channels),
            out0 == old(out)@,
            q0 == old(queue)@,
            out@.len() == out0.len(),
            out0.len() <= usize::MAX,
            frame - first_frame <= q0.len(),
            queue@ == q0.skip(frame - first_frame),
            out@ == spec_fill(out0, q0, channels as int, first_frame as int, frame as int),
        decreases frames - frame,
    {
        if queue.len() == 0 {
            assert(q0.len() == frame - first_frame);
            assert(queue@ == q0.skip(q0.len() as int));
            return FillOutcome::Starved { frame };
        }
        assert(queue@.len() > 0);
        let sample = match queue.pop_front() {
            Some(s) => s,
            None => {
                return FillOutcome::Starved { frame };
            },
        };
        proof {
            assert((frame as int) * channels < len);
            assert(first_frame * channels <= frame * channels) by (nonlinear_arith)
                requires
                    first_frame <= frame,
            ;
            assert(frame * channels + channels == (frame + 1) * channels) by (nonlinear_arith);
        }
        let base: usize = frame * channels;
        let mut c: usize = 0;
        while c < channels && base + c < len
            invariant
                channels > 0,
                len == out0.len(),
                first_frame <= frame < frames,
                base == frame * channels,
                base < len,
                c <= channels,
                base + c <= len,
                out@.len() == out0.len(),
                out0.len() <= usize::MAX,
                first_frame * channels <= base,
                frame - first_frame < q0.len(),
                sample == q0[frame - first_frame],
                forall|m: int|
                    0 <= m < out0.len() ==> #[trigger] out@[m] == if first_frame * channels <= m
                        < base + c {
                        q0[m / (channels as int) - first_frame]
                    } else {
                        out0[m]
                    },
            decreases channels - c,
        {
            proof {
                let m = (base + c) as int;
                assert(m / (channels as int) == frame) by (nonlinear_arith)
                    requires
                        m == frame * channels + c,
                        c < channels,
                        channels > 0,
                ;
            }
            let ghost before = out@;
            out.set(base + c, sample);
            proof {
                let ch = channels as int;
                assert forall|m: int| 0 <= m < out0.len() implies #[trigger] out@[m] == if first_frame
                    * channels <= m < base + c + 1 {
                    q0[m / ch - first_frame]
                } else {
                    out0[m]
                } by {
                    if m != base + c {
                        assert(out@[m] == before[m]);
                    }
                }
            }
            c = c + 1;
        }
        proof {
            assert(base + c == (frame + 1) * channels || base + c == len);
            assert(base + c <= (frame + 1) * channels);
        }
        frame = frame + 1;
        assert(queue@ =~= q0.skip(frame - first_frame));
        assert(out@ =~= spec_fill(out0, q0, channels as int, first_frame as int, frame as int));
    }
    FillOutcome::Filled
}

/// Filling frames `first .. end` writes queued sample `f - first` to every channel `c` of
/// each frame `f` among them (position `f * channels + c`, where the buffer reaches it),
/// and leaves every position outside those frames as it was.
pub proof fn lemma_fill_sets_every_channel<T>(
    out: Seq<T>,
    queue: Seq<T>,
    channels: int,
    first: int,
    end: int,
    f: int,
    c: int,
)
    requires
        channels > 0,
        0 <= c < channels,
        0 <= f,
    ensures
        spec_fill(out, queue, channels, first, end).len() == out.len(),
        first <= f < end && f * channels + c < out.len() ==> spec_fill(
            out,
            queue,
            channels,
            first,
            end,
        )[f * channels + c] == queue[f - first],
        !(first <= f < end) && f * channels + c < out.len() ==> spec_fill(
            out,
            queue,
            channels,
            first,
            end,
        )[f * channels + c] == out[f * channels + c],
{
    let m = f * channels + c;
    assert(m / channels == f) by (nonlinear_arith)
        requires
            m == f * channels + c,
            0 <= c < channels,
            channels > 0,
    ;
    assert(f >= first ==> first * channels <= f * channels) by (nonlinear_arith)
        requires
            channels > 0,
    ;
    assert(f < end ==> (f + 1) * channels <= end * channels) by (nonlinear_arith)
        requires
            channels > 0,
    ;
    assert(f < first ==> (f + 1) * channels <= first * channels) by (nonlinear_arith)
        requires
            channels > 0,
    ;
    assert(f >= end ==> end * channels <= f * channels) by (nonlinear_arith)
        requires
            channels > 0,
    ;
    assert((f + 1) * channels == f * channels + channels) by (nonlinear_arith);
}

/// Where position `m` of an interleaved buffer lies relative to the start of frame `k`.
proof fn lemma_frame_of_position(m: int, channels: int, k: int)
    by (nonlinear_arith)
    requires
        channels > 0,
        m >= 0,
    ensures
        m >= k * channels ==> m / channels >= k,
        m < k * channels ==> m / channels < k,
{
}

/// A refill in the middle of a buffer is seamless: filling frames `first .. mid` from
/// `queue`, then frames `mid .. end` from what is left of it followed by a new `block`,
/// writes the same buffer as filling frames `first .. end` from `queue` and `block`
/// queued together (as long as there are samples for all those frames).
pub proof fn lemma_refill_is_seamless<T>(
    out: Seq<T>,
    queue: Seq<T>,
    block: Seq<T>,
    channels: int,
    first: int,
    mid: int,
    end: int,
)
    requires
        channels > 0,
        0 <= first <= mid <= end,
        mid - first <= queue.len(),
        end - first <= queue.len() + block.len(),
    ensures
        spec_fill(
            spec_fill(out, queue, channels, first, mid),
            queue.skip(mid - first) + block,
            channels,
            mid,
            end,
        ) == spec_fill(out, queue + block, channels, first, end),
{
    let lhs = spec_fill(
        spec_fill(out, queue, channels, first, mid),
        queue.skip(mid - first) + block,
        channels,
        mid,
        end,
    );
    let rhs = spec_fill(out, queue + block, channels, first, end);
    assert forall|m: int| 0 <= m < lhs.len() implies lhs[m] == rhs[m] by {
        lemma_frame_of_position(m, channels, first);
        lemma_frame_of_position(m, channels, mid);
        lemma_frame_of_position(m, channels, end);
        assert(first * channels <= mid * channels) by (nonlinear_arith)
            requires
                first <= mid,
                channels > 0,
        ;
        assert(mid * channels <= end * channels) by (nonlinear_arith)
            requires
                mid <= end,
                channels > 0,
        ;
        let q = m / channels;
        let rest = queue.skip(mid - first);
        if mid * channels <= m < end * channels {
            if q - first < queue.len() {
                assert(rest[q - mid] == queue[q - first]);
                assert((rest + block)[q - mid] == rest[q - mid]);
                assert((queue + block)[q - first] == queue[q - first]);
            } else {
                assert((rest + block)[q - mid] == block[q - mid - rest.len()]);
                assert((queue + block)[q - first] == block[q - first - queue.len()]);
            }
        } else if first * channels <= m < mid * channels {
            assert((queue + block)[q - first] == queue[q - first]);
        }
    }
    assert(lhs =~= rhs);
}

/// What one output callback does, as the program drives this module: fill the buffer
/// from `frame` on with `fill_frames`; each time it starves, `queue_block` the next of
/// `blocks` (the starved queue is empty, so the queue becomes that block) and fill on
/// from where it stopped. Gives the buffer, the queue and the number of blocks taken.
pub open spec fn spec_serve<T>(
    out: Seq<T>,
    queue: Seq<T>,
    blocks: Seq<Seq<T>>,
    channels: int,
    frame: int,
) -> (Seq<T>, Seq<T>, nat)
    decreases blocks.len(),
{
    let frames = (out.len() + channels - 1) / channels;
    if queue.len() >= frames - frame {
        (spec_fill(out, queue, channels, frame, frames), queue.skip(frames - frame), 0)
    } else {
        let filled = spec_fill(out, queue, channels, frame, frame + queue.len());
        if blocks.len() == 0 {
            (filled, Seq::empty(), 0)
        } else {
            let rest = spec_serve(filled, blocks[0], blocks.drop_first(), channels, frame + queue.len());
            (rest.0, rest.1, rest.2 + 1)
        }
    }
}

/// Taking the first `k + 1` blocks is taking the first one, then `k` of the others.
proof fn lemma_flatten_take<T>(blocks: Seq<Seq<T>>, k: int)
    requires
        0 <= k < blocks.len(),
    ensures
        blocks.take(k + 1).flatten() == blocks[0] + blocks.drop_first().take(k).flatten(),
{
    let t = blocks.take(k + 1);
    assert(t.first() == blocks[0]);
    assert(t.drop_first() =~= blocks.drop_first().take(k));
}

/// Over a callback with any number of refills, samples come out in order and none is
/// dropped: the buffer is filled from the queue followed by the blocks taken, in order,
/// one sample per frame, and what is left queued is the rest of those samples. This holds
/// when the queue and the blocks hold samples for every frame left.
pub proof fn lemma_serve_plays_in_order<T>(
    out: Seq<T>,
    queue: Seq<T>,
    blocks: Seq<Seq<T>>,
    channels: int,
    frame: int,
)
    requires
        channels > 0,
        0 <= frame <= (out.len() + channels - 1) / channels,
        queue.len() + blocks.flatten().len() >= (out.len() + channels - 1) / channels - frame,
    ensures
        ({
            let frames = (out.len() + channels - 1) / channels;
            let (filled, left, used) = spec_serve(out, queue, blocks, channels, frame);
            let played = queue + blocks.take(used as int).flatten();
            &&& used <= blocks.len()
            &&& played.len() >= frames - frame
            &&& filled == spec_fill(out, played, channels, frame, frames)
            &&& left == played.skip(frames - frame)
        }),
    decreases blocks.len(),
{
    let frames = (out.len() + channels - 1) / channels;
    if queue.len() >= frames - frame {
        assert(blocks.take(0) =~= Seq::<Seq<T>>::empty());
        assert(queue + Seq::<Seq<T>>::empty().flatten() =~= queue);
    } else {
        let mid = frame + queue.len();
        let filled = spec_fill(out, queue, channels, frame, mid);
        assert(blocks.len() > 0) by {
            if blocks.len() == 0 {
                assert(blocks.flatten() =~= Seq::<T>::empty());
            }
        }
        let b0 = blocks[0];
        let others = blocks.drop_first();
        assert(blocks.flatten() == b0 + others.flatten());
        lemma_serve_plays_in_order(filled, b0, others, channels, mid);
        let (f2, l2, k) = spec_serve(filled, b0, others, channels, mid);
        let tail = b0 + others.take(k as int).flatten();
        lemma_flatten_take(blocks, k as int);
        lemma_refill_is_seamless(out, queue, tail, channels, frame, mid, frames);
        assert(queue.skip(queue.len() as int) + tail =~= tail);
        assert((queue + tail).skip(frames - frame) =~= tail.skip(frames - mid));
    }
}

/// With blocks of `block_len` samples, the queue never holds a whole unplayed block: if
/// it holds fewer than `block_len` samples when a callback starts, it holds fewer when it
/// ends, whatever the buffer and however many refills the callback takes. So, across any
/// sequence of callbacks, the added latency stays below one block.
pub proof fn lemma_queue_stays_under_a_block<T>(
    out: Seq<T>,
    queue: Seq<T>,
    blocks: Seq<Seq<T>>,
    channels: int,
    frame: int,
    block_len: int,
)
    requires
        channels > 0,
        0 <= frame <= (out.len() + channels - 1) / channels,
        queue.len() < block_len,
        forall|j: int| 0 <= j < blocks.len() ==> #[trigger] blocks[j].len() == block_len,
    ensures
        spec_serve(out, queue, blocks, channels, frame).1.len() < block_len,
{
    lemma_serve_bound(out, queue, blocks, channels, frame, block_len);
}

/// The queue left by a callback is shorter than a block when the queue it starts from
/// is shorter than a block plus the frames still to fill.
proof fn lemma_serve_bound<T>(
    out: Seq<T>,
    queue: Seq<T>,
    blocks: Seq<Seq<T>>,
    channels: int,
    frame: int,
    block_len: int,
)
    requires
        channels > 0,
        0 <= frame <= (out.len() + channels - 1) / channels,
        block_len > 0,
        queue.len() < block_len + (out.len() + channels - 1) / channels - frame,
        forall|j: int| 0 <= j < blocks.len() ==> #[trigger] blocks[j].len() == block_len,
    ensures
        spec_serve(out, queue, blocks, channels, frame).1.len() < block_len,
    decreases blocks.len(),
{
    let frames = (out.len() + channels - 1) / channels;
    if queue.len() >= frames - frame {
    } else if blocks.len() == 0 {
    } else {
        let mid = frame + queue.len();
        let filled = spec_fill(out, queue, channels, frame, mid);
        assert(filled.len() == out.len());
        let others = blocks.drop_first();
        assert forall|j: int| 0 <= j < others.len() implies #[trigger] others[j].len() == block_len by {
            assert(others[j] == blocks[j + 1]);
        }
        assert(blocks[0].len() == block_len);
        lemma_serve_bound(filled, blocks[0], others, channels, mid, block_len);
    }
}

/// Appends a rendered block to the back of the queue.
pub fn queue_block<T: Copy>(queue: &mut VecDeque<T>, block: &[T])
    ensures
        final(queue)@ == old(queue)@ + block@,
{
    let mut i: usize = 0;
    while i < block.len()
        invariant
            i <= block.len(),
            queue@ == old(queue)@ + block@.take(i as int),
        decreases block.len() - i,
    {
        queue.push_back(block[i]);
        assert(block@.take(i + 1) =~= block@.take(i as int).push(block@[i as int]));
        i = i + 1;
    }
    assert(block@.take(block.len() as int) =~= block@);
}

/// The synthesizer's error report for a block: a first byte of zero means no error,
/// otherwise the bytes after it are the message.
pub fn block_error(report: &[u8]) -> (message: Option<Vec<u8>>)
    requires
        report.len() > 0,
    ensures
        message is None <==> report@[0] == 0,
        message matches Some(m) ==> m@ == report@.skip(1),
{
    if report[0] == 0 {
        return None;
    }
    let mut m: Vec<u8> = Vec::new();
    let mut i: usize = 1;
    while i < report.len()
        invariant
            1 <= i <= report.len(),
            m@ == report@.subrange(1, i as int),
        decreases report.len() - i,
    {
        m.push(report[i]);
        assert(report@.subrange(1, i + 1) =~= report@.subrange(1, i as int).push(report@[i as int]));
        i = i + 1;
    }
    assert(report@.subrange(1, report.len() as int) =~= report@.skip(1));
    Some(m)
}

} // verus!
