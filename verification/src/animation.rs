//! Values that change over the frames of an animation.
//!
//! A value is written as one number, which holds for every frame, or as
//! several stages with dashes between them. With `k` stages the frames are
//! divided into `k - 1` equal transitions, and within a transition the value
//! moves in a straight line from one stage to the next.

use crate::error::ConfigurationError;
use crate::fraction::Fraction;
use crate::number::{number_of, parse_number, Number, NumberText};
use crate::text::{lemma_split_nonempty, parse_list, split};
use vstd::prelude::*;

verus! {

/// A value at one frame: `from + progress * (to - from)`.
#[derive(Debug)]
pub struct Keyframe {
    /// The stage that the value is leaving.
    pub from: Number,
    /// The stage that the value is heading for.
    pub to: Number,
    /// How far along the way the value is.
    pub progress: Fraction,
}

/// What a [`Keyframe`] holds, as text.
pub struct KeyframeText {
    pub from: NumberText,
    pub to: NumberText,
    pub progress: Fraction,
}

impl View for Keyframe {
    type V = KeyframeText;

    open spec fn view(&self) -> KeyframeText {
        KeyframeText { from: self.from@, to: self.to@, progress: self.progress }
    }
}

impl DeepView for Keyframe {
    type V = KeyframeText;

    open spec fn deep_view(&self) -> KeyframeText {
        self@
    }
}

/// The numbers that the pieces stand for, if every piece stands for one.
pub open spec fn numbers_of(pieces: Seq<Seq<char>>) -> Option<Seq<NumberText>> {
    if forall|i: int| 0 <= i < pieces.len() ==> (#[trigger] number_of(pieces[i])) is Some {
        Some(Seq::new(pieces.len(), |i: int| number_of(pieces[i])->0))
    } else {
        None
    }
}

/// How far `frame` is into an animation of `frames` frames with `stages`
/// stages, counted in units of which each transition has `frames`.
pub open spec fn position(frame: int, stages: int) -> int {
    frame * (stages - 1)
}

/// The stage that the value is leaving at `frame`.
pub open spec fn stage_from(frame: int, frames: int, stages: int) -> int {
    position(frame, stages) / frames
}

/// The stage that the value is heading for at `frame`: the one that it is
/// leaving when the frame falls exactly on it, else the one after.
pub open spec fn stage_to(frame: int, frames: int, stages: int) -> int {
    if position(frame, stages) % frames == 0 {
        stage_from(frame, frames, stages)
    } else {
        stage_from(frame, frames, stages) + 1
    }
}

/// The part of the current transition that is done at `frame`.
pub open spec fn stage_progress(frame: int, frames: int, stages: int) -> Fraction {
    Fraction { num: (position(frame, stages) % frames) as u64, den: frames as u64 }
}

/// The value that `s` gives at `frame` of `frames`, or the reason why it
/// gives none.
pub open spec fn keyframe_of(s: Seq<char>, frame: u32, frames: u32) -> Result<
    KeyframeText,
    ConfigurationError,
> {
    match numbers_of(split(s, '-')) {
        None => Err(ConfigurationError::NotANumber),
        Some(stages) => {
            let k = stages.len() as int;
            if k < 2 {
                Ok(
                    KeyframeText {
                        from: stages[0],
                        to: stages[0],
                        progress: Fraction { num: 0, den: 1 },
                    },
                )
            } else if frames == 0 {
                Err(ConfigurationError::NoFrames)
            } else if frame > frames {
                Err(ConfigurationError::FrameOutOfRange)
            } else {
                Ok(
                    KeyframeText {
                        from: stages[stage_from(frame as int, frames as int, k)],
                        to: stages[stage_to(frame as int, frames as int, k)],
                        progress: stage_progress(frame as int, frames as int, k),
                    },
                )
            }
        },
    }
}

/// The values that the entries give at `frame` of `frames`, in order, or the
/// reason why the first entry that gives none does so.
pub open spec fn keyframes_of(entries: Seq<Seq<char>>, frame: u32, frames: u32) -> Result<
    Seq<KeyframeText>,
    ConfigurationError,
>
    decreases entries.len(),
{
    if entries.len() == 0 {
        Ok(Seq::empty())
    } else {
        match keyframes_of(entries.drop_last(), frame, frames) {
            Err(e) => Err(e),
            Ok(values) => match keyframe_of(entries.last(), frame, frames) {
                Err(e) => Err(e),
                Ok(value) => Ok(values.push(value)),
            },
        }
    }
}

/// Once the entries up to and including `at` give no values, no longer run
/// of entries does, and the reason stays that of the shorter run.
pub proof fn lemma_keyframes_fail(entries: Seq<Seq<char>>, at: int, frame: u32, frames: u32)
    requires
        0 <= at < entries.len(),
        keyframes_of(entries.take(at + 1), frame, frames) is Err,
    ensures
        keyframes_of(entries, frame, frames) == keyframes_of(entries.take(at + 1), frame, frames),
    decreases entries.len(),
{
    if at + 1 == entries.len() {
        assert(entries.take(at + 1) == entries);
    } else {
        let shorter = entries.drop_last();
        assert(shorter.take(at + 1) == entries.take(at + 1));
        lemma_keyframes_fail(shorter, at, frame, frames);
    }
}

/// A value that the text gives has a progress that is a proper fraction
/// below one.
pub proof fn lemma_keyframe_progress(s: Seq<char>, frame: u32, frames: u32)
    requires
        keyframe_of(s, frame, frames) is Ok,
    ensures
        (keyframe_of(s, frame, frames)->Ok_0).progress.is_proper(),
        (keyframe_of(s, frame, frames)->Ok_0).progress.below_one(),
{
    let stages = numbers_of(split(s, '-'))->0;
    if stages.len() >= 2 {
        lemma_stage_bounds(frame as int, frames as int, stages.len() as int);
    }
}

/// Whether the text gives a value does not depend on which frame of the
/// animation is asked for: for two frames that are both within it, either
/// both get a value or both are refused for the same reason.
pub proof fn lemma_keyframe_for_every_frame(s: Seq<char>, first: u32, second: u32, frames: u32)
    requires
        first <= frames,
        second <= frames,
    ensures
        keyframe_of(s, first, frames) is Ok <==> keyframe_of(s, second, frames) is Ok,
        keyframe_of(s, first, frames) is Err ==> keyframe_of(s, second, frames) == keyframe_of(
            s,
            first,
            frames,
        ),
{
}

/// What holds of one animated value holds of a list of them.
pub proof fn lemma_keyframes_for_every_frame(
    entries: Seq<Seq<char>>,
    first: u32,
    second: u32,
    frames: u32,
)
    requires
        first <= frames,
        second <= frames,
    ensures
        keyframes_of(entries, first, frames) is Ok <==> keyframes_of(entries, second, frames)
            is Ok,
        keyframes_of(entries, first, frames) matches Err(e) ==> keyframes_of(
            entries,
            second,
            frames,
        ) == Err::<Seq<KeyframeText>, ConfigurationError>(e),
        keyframes_of(entries, first, frames) matches Ok(v) ==> v.len() == entries.len(),
    decreases entries.len(),
{
    if entries.len() > 0 {
        lemma_keyframes_for_every_frame(entries.drop_last(), first, second, frames);
        lemma_keyframe_for_every_frame(entries.last(), first, second, frames);
    }
}

/// Within the animation the two stages of a frame exist and are the same or
/// neighbours, and the progress is a proper fraction below one.
pub proof fn lemma_stage_bounds(frame: int, frames: int, stages: int)
    requires
        0 <= frame <= frames,
        0 < frames,
        2 <= stages,
    ensures
        0 <= stage_from(frame, frames, stages) <= stage_to(frame, frames, stages) <= stages - 1,
        stage_to(frame, frames, stages) <= stage_from(frame, frames, stages) + 1,
        0 <= position(frame, stages) % frames < frames,
{
    let span = stages - 1;
    let p = position(frame, stages);
    assert(0 <= p <= frames * span) by (nonlinear_arith)
        requires
            p == frame * span,
            0 <= frame <= frames,
            0 < span,
    ;
    assert(p == frames * (p / frames) + p % frames && 0 <= p % frames < frames) by (nonlinear_arith)
        requires
            0 < frames,
    ;
    let q = p / frames;
    assert(0 <= q) by (nonlinear_arith)
        requires
            0 <= p,
            0 < frames,
            q == p / frames,
    ;
    assert(q <= span && (p % frames != 0 ==> q < span)) by (nonlinear_arith)
        requires
            p == frames * q + p % frames,
            0 <= p % frames < frames,
            p <= frames * span,
            0 < frames,
    ;
}

/// The first frame sits exactly on the first stage, and the frame one past
/// the last sits exactly on the last stage.
pub proof fn lemma_stage_ends(frames: int, stages: int)
    requires
        0 < frames,
        2 <= stages,
    ensures
        stage_from(0, frames, stages) == 0,
        stage_to(0, frames, stages) == 0,
        stage_progress(0, frames, stages).num == 0,
        stage_from(frames, frames, stages) == stages - 1,
        stage_to(frames, frames, stages) == stages - 1,
        stage_progress(frames, frames, stages).num == 0,
{
    let span = stages - 1;
    assert(0 * span == 0);
    assert(0int / frames == 0 && 0int % frames == 0) by (nonlinear_arith)
        requires
            0 < frames,
    ;
    assert((frames * span) / frames == span && (frames * span) % frames == 0) by (nonlinear_arith)
        requires
            0 < frames,
            0 < span,
    ;
}

/// A frame that divides the animation exactly sits on a stage: where
/// `frame * (stages - 1) == index * frames`, the value is stage `index`.
pub proof fn lemma_stage_exact(frame: int, frames: int, stages: int, index: int)
    requires
        0 < frames,
        2 <= stages,
        0 <= index,
        position(frame, stages) == index * frames,
    ensures
        stage_from(frame, frames, stages) == index,
        stage_to(frame, frames, stages) == index,
        stage_progress(frame, frames, stages).num == 0,
{
    assert((index * frames) / frames == index && (index * frames) % frames == 0)
        by (nonlinear_arith)
        requires
            0 < frames,
            0 <= index,
    ;
}

/// Reads every piece as a number.
pub(crate) fn parse_stages(pieces: &Vec<String>) -> (stages: Result<Vec<Number>, ConfigurationError>)
    ensures
        match stages {
            Ok(v) => numbers_of(pieces.deep_view()) == Some(v.deep_view()),
            Err(e) => e == ConfigurationError::NotANumber && numbers_of(pieces.deep_view())
                is None,
        },
{
    let mut stages: Vec<Number> = Vec::new();
    let mut i: usize = 0;
    while i < pieces.len()
        invariant
            i <= pieces.len(),
            stages.len() == i,
            forall|j: int| 0 <= j < i ==> number_of(#[trigger] pieces.deep_view()[j]) == Some(stages[j]@),
        decreases pieces.len() - i,
    {
        assert(pieces.deep_view()[i as int] == pieces[i as int]@);
        match parse_number(&pieces[i]) {
            Ok(n) => {
                stages.push(n);
            },
            Err(e) => {
                assert(number_of(pieces.deep_view()[i as int]) is None);
                return Err(e);
            },
        }
        i = i + 1;
    }
    proof {
        let texts = pieces.deep_view();
        assert forall|j: int| 0 <= j < texts.len() implies (#[trigger] number_of(texts[j])) is Some by {
            assert(number_of(texts[j]) == Some(stages[j]@));
        }
        assert(stages.deep_view() =~= Seq::new(texts.len(), |j: int| number_of(texts[j])->0)) by {
            assert forall|j: int| 0 <= j < stages.len() implies stages.deep_view()[j]
                == number_of(texts[j])->0 by {
                assert(number_of(texts[j]) == Some(stages[j]@));
            }
        }
    }
    Ok(stages)
}

/// The value that `string` gives at `frame` of an animation of `frames`
/// frames.
///
/// A single number holds for every frame. Stages with dashes between them
/// are walked through in equal transitions; they need at least one frame,
/// and a frame no later than the end of the animation.
pub fn parse_animation(string: &String, frame: u32, frames: u32) -> (keyframe: Result<
    Keyframe,
    ConfigurationError,
>)
    ensures
        match keyframe {
            Ok(k) => keyframe_of(string@, frame, frames) == Ok::<
                KeyframeText,
                ConfigurationError,
            >(k@),
            Err(e) => keyframe_of(string@, frame, frames) == Err::<
                KeyframeText,
                ConfigurationError,
            >(e),
        },
{
    let pieces = parse_list(string, '-');
    proof {
        lemma_split_nonempty(string@, '-');
    }
    let stages = match parse_stages(&pieces) {
        Ok(stages) => stages,
        Err(e) => {
            return Err(e);
        },
    };
    assert(stages.deep_view().len() == pieces.deep_view().len());
    let k = stages.len();
    assert(forall|i: int| 0 <= i < k ==> stages.deep_view()[i] == (#[trigger] stages[i])@);
    if k < 2 {
        return Ok(
            Keyframe {
                from: stages[0].duplicate(),
                to: stages[0].duplicate(),
                progress: Fraction { num: 0, den: 1 },
            },
        );
    }
    if frames == 0 {
        return Err(ConfigurationError::NoFrames);
    }
    if frame > frames {
        return Err(ConfigurationError::FrameOutOfRange);
    }
    proof {
        lemma_stage_bounds(frame as int, frames as int, k as int);
    }
    let span: u128 = (k - 1) as u128;
    assert(frame * span <= u32::MAX * usize::MAX) by (nonlinear_arith)
        requires
            0 <= frame <= u32::MAX,
            0 <= span <= usize::MAX,
    ;
    let place: u128 = frame as u128 * span;
    let from: usize = (place / frames as u128) as usize;
    let step: u64 = (place % frames as u128) as u64;
    let to: usize = if step == 0 {
        from
    } else {
        from + 1
    };
    Ok(
        Keyframe {
            from: stages[from].duplicate(),
            to: stages[to].duplicate(),
            progress: Fraction { num: step, den: frames as u64 },
        },
    )
}

} // verus!
