//! Dividing the frames of a run among workers.
//!
//! With fewer frames than workers a single worker renders them all.
//! Otherwise every worker gets a run of `ceil(frames / threads)` frames, one
//! run after the other from frame zero, and the last worker's run ends with
//! the last frame.

use crate::error::ConfigurationError;
use vstd::prelude::*;

verus! {

/// The frames from `start` up to, but not including, `end`. Where `end` is
/// not above `start` there are none.
#[derive(Clone, Copy, Debug, PartialEq, Eq, Structural)]
pub struct FrameRange {
    pub start: u64,
    pub end: u64,
}

impl FrameRange {
    /// The range holds `frame`.
    pub open spec fn holds(self, frame: int) -> bool {
        self.start <= frame < self.end
    }
}

/// The number of frames in a worker's run: `frames / threads`, rounded up.
pub open spec fn chunk_size(frames: nat, threads: nat) -> nat {
    ((frames + threads - 1) / (threads as int)) as nat
}

/// The run of worker `i` of `threads` when every worker has one.
pub open spec fn chunk(frames: nat, threads: nat, i: int) -> FrameRange {
    FrameRange {
        start: (chunk_size(frames, threads) * i) as u64,
        end: if i == threads - 1 {
            frames as u64
        } else {
            (chunk_size(frames, threads) * (i + 1)) as u64
        },
    }
}

/// The runs of all workers, in order.
pub open spec fn plan(frames: nat, threads: nat) -> Seq<FrameRange> {
    if frames < threads {
        seq![FrameRange { start: 0, end: frames as u64 }]
    } else {
        Seq::new(threads, |i: int| chunk(frames, threads, i))
    }
}

/// The run length is the least number of frames per worker with which the
/// workers together reach every frame.
pub proof fn lemma_chunk_size_is_ceiling(frames: nat, threads: nat)
    requires
        threads > 0,
    ensures
        chunk_size(frames, threads) * threads >= frames,
        frames > 0 ==> (chunk_size(frames, threads) - 1) * threads < frames,
        frames >= threads ==> 1 <= chunk_size(frames, threads) <= frames,
{
    let t = threads as int;
    let a = frames + t - 1;
    let c = a / t;
    assert(a == t * c + a % t && 0 <= a % t < t) by (nonlinear_arith)
        requires
            t > 0,
            c == a / t,
    ;
    assert(c * t == t * c) by (nonlinear_arith);
    assert((c - 1) * t == c * t - t) by (nonlinear_arith);
    assert(c >= 0) by (nonlinear_arith)
        requires
            a >= 0,
            t > 0,
            c == a / t,
    ;
    if frames >= threads {
        assert(c >= 1) by (nonlinear_arith)
            requires
                c * t >= frames,
                frames >= t,
                t > 0,
        ;
        assert(c <= frames) by (nonlinear_arith)
            requires
                (c - 1) * t < frames,
                t >= 1,
                c >= 1,
        ;
    }
}

/// Every bound of a plan fits the frame counters of the machine.
proof fn lemma_chunk_fits(frames: nat, threads: nat, i: int)
    requires
        0 < threads <= frames <= u32::MAX,
        0 <= i <= threads,
    ensures
        0 <= chunk_size(frames, threads) * i <= u64::MAX,
        i < threads ==> chunk_size(frames, threads) * i <= chunk_size(frames, threads) * (i + 1),
{
    lemma_chunk_size_is_ceiling(frames, threads);
    let c = chunk_size(frames, threads) as int;
    assert(0 <= c * i <= u32::MAX * u32::MAX) by (nonlinear_arith)
        requires
            0 <= c <= u32::MAX,
            0 <= i <= u32::MAX,
    ;
    assert(c * i <= c * (i + 1)) by (nonlinear_arith)
        requires
            0 <= c,
    ;
}

/// In a plan each run starts where the one before it ends, the first starts
/// at frame zero and the last ends with the last frame.
pub proof fn lemma_plan_contiguous(frames: nat, threads: nat)
    requires
        0 < threads,
        frames <= u32::MAX,
        threads <= u32::MAX,
    ensures
        plan(frames, threads).len() >= 1,
        plan(frames, threads)[0].start == 0,
        plan(frames, threads).last().end == frames,
        forall|i: int|
            0 <= i < plan(frames, threads).len() - 1 ==> (#[trigger] plan(frames, threads)[i]).end
                == plan(frames, threads)[i + 1].start,
{
    if frames >= threads {
        let c = chunk_size(frames, threads) as int;
        assert(c * 0 == 0);
        assert forall|i: int| 0 <= i < plan(frames, threads).len() - 1 implies (#[trigger] plan(
            frames,
            threads,
        )[i]).end == plan(frames, threads)[i + 1].start by {
            lemma_chunk_fits(frames, threads, i + 1);
        }
    }
}

/// The runs of a plan come in ascending order without overlap: every frame
/// of an earlier run is below every frame of a later one. So no frame is
/// rendered twice, and the frames of the runs, taken run by run, ascend.
pub proof fn lemma_plan_ascends(frames: nat, threads: nat, i: int, j: int, f: int, g: int)
    requires
        0 < threads,
        frames <= u32::MAX,
        threads <= u32::MAX,
        0 <= i < j < plan(frames, threads).len(),
        plan(frames, threads)[i].holds(f),
        plan(frames, threads)[j].holds(g),
    ensures
        f < g,
{
    let c = chunk_size(frames, threads) as int;
    lemma_chunk_fits(frames, threads, i);
    lemma_chunk_fits(frames, threads, i + 1);
    lemma_chunk_fits(frames, threads, j);
    assert(c * (i + 1) <= c * j) by (nonlinear_arith)
        requires
            0 <= c,
            i + 1 <= j,
    ;
}

/// Where the last run does not start beyond the last frame, the plan is a
/// partition of the frames: every run stays within the animation, and every
/// frame of the animation lies in a run.
pub proof fn lemma_plan_covers(frames: nat, threads: nat, f: int)
    requires
        0 < threads,
        frames <= u32::MAX,
        threads <= u32::MAX,
        frames >= threads ==> chunk_size(frames, threads) * (threads - 1) <= frames,
    ensures
        forall|i: int|
            0 <= i < plan(frames, threads).len() && (#[trigger] plan(frames, threads)[i]).holds(f)
                ==> 0 <= f < frames,
        0 <= f < frames ==> exists|i: int|
            0 <= i < plan(frames, threads).len() && (#[trigger] plan(frames, threads)[i]).holds(f),
{
    if frames < threads {
        if 0 <= f < frames {
            assert(plan(frames, threads)[0].holds(f));
        }
    } else {
        let c = chunk_size(frames, threads) as int;
        let t = threads as int;
        lemma_chunk_size_is_ceiling(frames, threads);
        assert forall|i: int|
            0 <= i < plan(frames, threads).len() && (#[trigger] plan(frames, threads)[i]).holds(
                f,
            ) implies 0 <= f < frames by {
            lemma_chunk_fits(frames, threads, i);
            lemma_chunk_fits(frames, threads, i + 1);
            if i < t - 1 {
                assert(c * (i + 1) <= c * (t - 1)) by (nonlinear_arith)
                    requires
                        0 <= c,
                        i + 1 <= t - 1,
                ;
            }
        }
        if 0 <= f < frames {
            let q = f / c;
            assert(f == c * q + f % c && 0 <= f % c < c && 0 <= q) by (nonlinear_arith)
                requires
                    c > 0,
                    q == f / c,
                    0 <= f,
            ;
            assert(c * (q + 1) == c * q + c) by (nonlinear_arith);
            if q >= t - 1 {
                assert(c * (t - 1) <= c * q) by (nonlinear_arith)
                    requires
                        0 <= c,
                        t - 1 <= q,
                ;
                lemma_chunk_fits(frames, threads, t - 1);
                assert(plan(frames, threads)[t - 1].holds(f));
            } else {
                lemma_chunk_fits(frames, threads, q);
                lemma_chunk_fits(frames, threads, q + 1);
                assert(plan(frames, threads)[q].holds(f));
            }
        }
    }
}

/// The runs that `threads` workers render `frames` frames in, or
/// `NoThreads` where there is no worker.
pub fn schedule(frames: u32, threads: u32) -> (runs: Result<Vec<FrameRange>, ConfigurationError>)
    ensures
        runs is Ok <==> threads > 0,
        runs matches Err(e) ==> e == ConfigurationError::NoThreads,
        runs matches Ok(v) ==> v@ == plan(frames as nat, threads as nat),
{
    if threads == 0 {
        return Err(ConfigurationError::NoThreads);
    }
    let mut runs: Vec<FrameRange> = Vec::new();
    if frames < threads {
        runs.push(FrameRange { start: 0, end: frames as u64 });
        assert(runs@ =~= plan(frames as nat, threads as nat));
        return Ok(runs);
    }
    let size: u64 = (frames as u64 + threads as u64 - 1) / (threads as u64);
    let mut i: u32 = 0;
    while i < threads
        invariant
            0 < threads <= frames,
            i <= threads,
            size == chunk_size(frames as nat, threads as nat),
            runs.len() == i,
            forall|j: int| 0 <= j < i ==> runs[j] == chunk(frames as nat, threads as nat, j),
        decreases threads - i,
    {
        proof {
            lemma_chunk_fits(frames as nat, threads as nat, i as int);
            lemma_chunk_fits(frames as nat, threads as nat, i as int + 1);
        }
        let start: u64 = size * (i as u64);
        let end: u64 = if i == threads - 1 {
            frames as u64
        } else {
            size * (i as u64 + 1)
        };
        runs.push(FrameRange { start, end });
        i = i + 1;
    }
    assert(runs@ =~= plan(frames as nat, threads as nat));
    Ok(runs)
}

} // verus!
