//! The angles at which the waves of a pattern are turned.
//!
//! An angle is kept as an exact fraction of a half turn. The angles of a
//! frame are given in one of three ways: as a count of waves that are spread
//! evenly, as proportions that are added up, or as percentages.

use crate::animation::{
    lemma_stage_bounds, numbers_of, parse_stages, position, stage_from, stage_to, Keyframe,
    KeyframeText,
};
use crate::error::ConfigurationError;
use crate::fraction::Fraction;
use crate::numeral::{is_whole, parse_whole, whole_value};
use crate::text::{lemma_split_nonempty, parse_list, split};
use vstd::prelude::*;
use vstd::string::*;

verus! {

/// How the angles of one frame are given.
#[derive(Debug)]
pub enum AngleSpec {
    /// The number of waves, which is not zero; they are spread evenly over
    /// the half turn.
    Count(u32),
    /// A weight for each wave. The half turn is divided in proportion to the
    /// weights, and each wave stands at the end of its share.
    Proportional(Vec<Keyframe>),
    /// For each wave, its angle as a percentage of the half turn.
    Percent(Vec<Keyframe>),
}

/// What an [`AngleSpec`] holds, as text.
pub enum AngleSpecText {
    Count(u32),
    Proportional(Seq<KeyframeText>),
    Percent(Seq<KeyframeText>),
}

impl View for AngleSpec {
    type V = AngleSpecText;

    open spec fn view(&self) -> AngleSpecText {
        match self {
            AngleSpec::Count(n) => AngleSpecText::Count(*n),
            AngleSpec::Proportional(v) => AngleSpecText::Proportional(v.deep_view()),
            AngleSpec::Percent(v) => AngleSpecText::Percent(v.deep_view()),
        }
    }
}

/// The angles of `n` waves spread evenly over the half turn: wave `k`
/// stands at `k / n` of it.
pub open spec fn equal_partition(n: nat) -> Seq<Fraction> {
    Seq::new(n, |k: int| Fraction { num: k as u64, den: n as u64 })
}

/// The even spread of `n` waves has `n` angles; the first is zero; each is
/// greater than the one before, and the step between neighbours is the same
/// everywhere, one `n`-th of the half turn; the last is below the half turn.
pub proof fn lemma_equal_partition(n: nat)
    requires
        0 < n <= u64::MAX,
    ensures
        equal_partition(n).len() == n,
        equal_partition(n)[0].is_zero(),
        equal_partition(n)[n - 1].below_one(),
        forall|k: int| 0 <= k < n ==> (#[trigger] equal_partition(n)[k]).is_proper(),
        forall|k: int|
            0 <= k < n - 1 ==> (#[trigger] equal_partition(n)[k]).less_than(
                equal_partition(n)[k + 1],
            ),
        forall|k: int|
            0 <= k < n - 1 ==> equal_partition(n)[k + 1].den == n && (#[trigger] equal_partition(
                n,
            )[k]).den == n && equal_partition(n)[k + 1].num - equal_partition(n)[k].num == 1,
{
    assert forall|k: int| 0 <= k < n - 1 implies (#[trigger] equal_partition(n)[k]).less_than(
        equal_partition(n)[k + 1],
    ) by {
        assert(k * n < (k + 1) * n) by (nonlinear_arith)
            requires
                0 < n,
        ;
    }
}

/// The angles of `n` waves spread evenly over the half turn, or `NoWaves`
/// for a count of zero.
pub fn angles(n: usize) -> (set: Result<Vec<Fraction>, ConfigurationError>)
    ensures
        set is Ok <==> n > 0,
        set matches Err(e) ==> e == ConfigurationError::NoWaves,
        set matches Ok(v) ==> v@ == equal_partition(n as nat),
{
    if n == 0 {
        return Err(ConfigurationError::NoWaves);
    }
    let mut set: Vec<Fraction> = Vec::new();
    let mut k: usize = 0;
    while k < n
        invariant
            k <= n,
            set.len() == k,
            forall|j: int| 0 <= j < k ==> set[j] == (Fraction { num: j as u64, den: n as u64 }),
        decreases n - k,
    {
        set.push(Fraction { num: k as u64, den: n as u64 });
        k = k + 1;
    }
    assert(set@ =~= equal_partition(n as nat));
    Ok(set)
}

/// Every piece is a whole number that a 32-bit counter holds.
pub open spec fn all_whole(pieces: Seq<Seq<char>>) -> bool {
    forall|i: int| 0 <= i < pieces.len() ==> is_whole(#[trigger] pieces[i])
}

/// The count in a transition from the count `from` to the count `to` of
/// which `step` parts in `frames` are done: the whole part of
/// `from + step / frames * (to - from)`.
pub open spec fn count_between(from: nat, to: nat, step: nat, frames: nat) -> nat {
    (((frames - step) * from + step * to) / (frames as int)) as nat
}

/// The number of waves that `s` gives at `frame` of `frames`, or the reason
/// why it gives none. A count is written like any animated value, as one
/// number or as stages with dashes between them, but each of its numbers has
/// to be a whole number; between two stages the count is the whole part of
/// the value on the straight line from one to the other.
pub open spec fn count_of(s: Seq<char>, frame: u32, frames: u32) -> Result<
    u32,
    ConfigurationError,
> {
    let stages = split(s, '-');
    let k = stages.len() as int;
    if numbers_of(stages) is None {
        Err(ConfigurationError::NotANumber)
    } else if !all_whole(stages) {
        Err(ConfigurationError::NotACount)
    } else if k < 2 {
        Ok(whole_value(stages[0]) as u32)
    } else if frames == 0 {
        Err(ConfigurationError::NoFrames)
    } else if frame > frames {
        Err(ConfigurationError::FrameOutOfRange)
    } else {
        Ok(
            count_between(
                whole_value(stages[stage_from(frame as int, frames as int, k)]),
                whole_value(stages[stage_to(frame as int, frames as int, k)]),
                (position(frame as int, k) % (frames as int)) as nat,
                frames as nat,
            ) as u32,
        )
    }
}

/// The count in a transition is no less than the smaller and no more than
/// the larger of the two counts that it lies between, and on a stage it is
/// the count of that stage.
pub proof fn lemma_count_between(from: nat, to: nat, step: nat, frames: nat)
    requires
        step < frames,
    ensures
        from <= to ==> from <= count_between(from, to, step, frames) <= to,
        to <= from ==> to <= count_between(from, to, step, frames) <= from,
        step == 0 ==> count_between(from, to, step, frames) == from,
{
    let f = frames as int;
    let rest = f - step;
    let total = rest * from + step * to;
    let q = total / f;
    assert(total == f * q + total % f && 0 <= total % f < f) by (nonlinear_arith)
        requires
            f > 0,
            q == total / f,
    ;
    let low = if from <= to {
        from
    } else {
        to
    };
    let high = if from <= to {
        to
    } else {
        from
    };
    assert(f * low <= total <= f * high) by (nonlinear_arith)
        requires
            total == rest * from + step * to,
            rest + step == f,
            0 <= rest,
            0 <= step,
            low <= from <= high,
            low <= to <= high,
    ;
    assert(low <= q <= high) by (nonlinear_arith)
        requires
            f * low <= total <= f * high,
            total == f * q + total % f,
            0 <= total % f < f,
            f > 0,
    ;
    if step == 0 {
        assert(total == f * from) by (nonlinear_arith)
            requires
                total == rest * from + step * to,
                step == 0,
                rest == f,
        ;
        assert(q == from) by (nonlinear_arith)
            requires
                total == f * from,
                total == f * q + total % f,
                0 <= total % f < f,
                f > 0,
        ;
    }
}

/// Reads the number of waves at `frame` of an animation of `frames` frames.
pub fn parse_count(string: &String, frame: u32, frames: u32) -> (count: Result<
    u32,
    ConfigurationError,
>)
    ensures
        count == count_of(string@, frame, frames),
{
    let pieces = parse_list(string, '-');
    proof {
        lemma_split_nonempty(string@, '-');
    }
    match parse_stages(&pieces) {
        Ok(_) => {},
        Err(e) => {
            return Err(e);
        },
    }
    let ghost texts = pieces.deep_view();
    let mut stages: Vec<u32> = Vec::new();
    let mut i: usize = 0;
    while i < pieces.len()
        invariant
            texts == pieces.deep_view(),
            texts == split(string@, '-'),
            numbers_of(texts) is Some,
            i <= pieces.len(),
            stages.len() == i,
            forall|j: int| 0 <= j < i ==> is_whole(#[trigger] texts[j]),
            forall|j: int| 0 <= j < i ==> stages[j] == whole_value(#[trigger] texts[j]),
        decreases pieces.len() - i,
    {
        assert(texts[i as int] == pieces[i as int]@);
        match parse_whole(pieces[i].as_str()) {
            Some(n) => {
                stages.push(n);
            },
            None => {
                assert(!is_whole(texts[i as int]));
                return Err(ConfigurationError::NotACount);
            },
        }
        i = i + 1;
    }
    let k = stages.len();
    if k < 2 {
        return Ok(stages[0]);
    }
    if frames == 0 {
        return Err(ConfigurationError::NoFrames);
    }
    if frame > frames {
        return Err(ConfigurationError::FrameOutOfRange);
    }
    proof {
        lemma_stage_bounds(frame as int, frames as int, k as int);
    }
    let span: u128 = (k - 1) as u128;
    assert(frame * span <= u32::MAX * usize::MAX) by (nonlinear_arith)
        requires
            0 <= frame <= u32::MAX,
            0 <= span <= usize::MAX,
    ;
    let place: u128 = frame as u128 * span;
    let from: usize = (place / frames as u128) as usize;
    let step: u128 = place % frames as u128;
    let to: usize = if step == 0 {
        from
    } else {
        from + 1
    };
    let a: u128 = stages[from] as u128;
    let b: u128 = stages[to] as u128;
    let rest: u128 = frames as u128 - step;
    proof {
        assert(rest * a <= u32::MAX * u32::MAX && step * b <= u32::MAX * u32::MAX)
            by (nonlinear_arith)
            requires
                0 <= rest <= u32::MAX,
                0 <= step <= u32::MAX,
                0 <= a <= u32::MAX,
                0 <= b <= u32::MAX,
        ;
        lemma_count_between(a as nat, b as nat, step as nat, frames as nat);
    }
    let total: u128 = rest * a + step * b;
    Ok((total / frames as u128) as u32)
}

} // verus!
