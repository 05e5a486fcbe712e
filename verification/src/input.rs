//! From the options of a run to what each frame is rendered with.

use crate::angles::{count_of, parse_count, AngleSpec, AngleSpecText};
use crate::animation::{
    keyframe_of, keyframes_of, lemma_keyframe_for_every_frame, lemma_keyframes_fail,
    lemma_keyframes_for_every_frame, parse_animation, Keyframe, KeyframeText,
};
use crate::color::{
    all_numerals, palette_of, Greyscale, Palette, PaletteText, Sawtooth, TwoTone,
};
use crate::error::ConfigurationError;
use crate::numeral::{is_numeral, Numeral};
use crate::output::{Image, ImageText};
use crate::schedule::{plan, schedule, FrameRange};
use crate::text::{parse_list, same_text, split};
use vstd::prelude::*;
use vstd::string::*;

verus! {

/// The options of a run, as they were given.
#[derive(Clone, Debug)]
pub struct Opts {
    /// Image width in pixels.
    pub width: u32,
    /// Image height in pixels.
    pub height: u32,
    /// The angles between the waves: one count, or proportions with commas
    /// between them, each of which may be stages with dashes between them.
    pub angles: String,
    /// Scaling factor; lower is more zoomed in.
    pub scale: u32,
    /// The name of the colorizer, then its parameters with commas between
    /// them.
    pub colorizer: Vec<String>,
    /// Number of frames to generate.
    pub frames: u32,
    /// Output path.
    pub output: String,
    /// Output format.
    pub image_format: String,
    /// Horizontal viewport offset in pixels.
    pub x_offset: u32,
    /// Vertical viewport offset in pixels.
    pub y_offset: u32,
    /// Number of workers to render on.
    pub threads: u32,
    /// Whether the angles are percentages rather than proportions.
    pub percent: bool,
    /// Number of phases that the waves go through, possibly in stages.
    pub speed: String,
}

/// How `s` gives the angles at `frame` of `frames`, or the reason why it
/// does not. The entries have commas between them. A single entry that is
/// no percentage is the number of waves, which must not be zero. Otherwise
/// each entry is read as an animated value, and the entries are percentages
/// or proportions.
pub open spec fn angle_spec_of(s: Seq<char>, frame: u32, frames: u32, percent: bool) -> Result<
    AngleSpecText,
    ConfigurationError,
> {
    let entries = split(s, ',');
    if !percent && entries.len() == 1 {
        match count_of(entries[0], frame, frames) {
            Err(e) => Err(e),
            Ok(count) => if count == 0 {
                Err(ConfigurationError::NoWaves)
            } else {
                Ok(AngleSpecText::Count(count))
            },
        }
    } else {
        match keyframes_of(entries, frame, frames) {
            Err(e) => Err(e),
            Ok(values) => if percent {
                Ok(AngleSpecText::Percent(values))
            } else {
                Ok(AngleSpecText::Proportional(values))
            },
        }
    }
}

/// Reads the angles of one frame.
pub fn parse_angles(angles_string: &String, frame: u32, frames: u32, percent: bool) -> (angles:
    Result<AngleSpec, ConfigurationError>)
    ensures
        match angles {
            Ok(a) => angle_spec_of(angles_string@, frame, frames, percent) == Ok::<
                AngleSpecText,
                ConfigurationError,
            >(a@),
            Err(e) => angle_spec_of(angles_string@, frame, frames, percent) == Err::<
                AngleSpecText,
                ConfigurationError,
            >(e),
        },
{
    let entries = parse_list(angles_string, ',');
    let ghost texts = entries.deep_view();
    if !percent && entries.len() == 1 {
        assert(texts[0] == entries[0]@);
        return match parse_count(&entries[0], frame, frames) {
            Err(e) => Err(e),
            Ok(count) => if count == 0 {
                Err(ConfigurationError::NoWaves)
            } else {
                Ok(AngleSpec::Count(count))
            },
        };
    }
    let mut values: Vec<Keyframe> = Vec::new();
    let mut i: usize = 0;
    assert(texts.take(0) == Seq::<Seq<char>>::empty());
    assert(values.deep_view() == Seq::<KeyframeText>::empty());
    while i < entries.len()
        invariant
            texts == entries.deep_view(),
            texts == split(angles_string@, ','),
            percent || entries.len() != 1,
            i <= entries.len(),
            keyframes_of(texts.take(i as int), frame, frames) == Ok::<
                Seq<KeyframeText>,
                ConfigurationError,
            >(values.deep_view()),
        decreases entries.len() - i,
    {
        proof {
            assert(texts[i as int] == entries[i as int]@);
            assert(texts.take(i as int + 1).drop_last() == texts.take(i as int));
            assert(texts.take(i as int + 1).last() == texts[i as int]);
        }
        let ghost done = values.deep_view();
        match parse_animation(&entries[i], frame, frames) {
            Ok(k) => {
                values.push(k);
                assert(values.deep_view() == done.push(k@));
            },
            Err(e) => {
                proof {
                    lemma_keyframes_fail(texts, i as int, frame, frames);
                }
                return Err(e);
            },
        }
        i = i + 1;
    }
    assert(texts.take(i as int) == texts);
    if percent {
        Ok(AngleSpec::Percent(values))
    } else {
        Ok(AngleSpec::Proportional(values))
    }
}

/// What frame `frame` of a run with these options is rendered from, or the
/// reason why the run cannot be rendered. An image needs a width, a height
/// and a scaling factor above zero, and a run at least one frame; the speed
/// is read before the angles.
pub open spec fn image_of(opts: Opts, frame: u32) -> Result<ImageText, ConfigurationError> {
    if opts.width == 0 || opts.height == 0 {
        Err(ConfigurationError::EmptyImage)
    } else if opts.scale == 0 {
        Err(ConfigurationError::ZeroScale)
    } else if opts.frames == 0 {
        Err(ConfigurationError::NoFrames)
    } else {
        match keyframe_of(opts.speed@, frame, opts.frames) {
            Err(e) => Err(e),
            Ok(phases) => match angle_spec_of(opts.angles@, frame, opts.frames, opts.percent) {
                Err(e) => Err(e),
                Ok(angles) => Ok(
                    ImageText {
                        phases,
                        frame,
                        frames: opts.frames,
                        scale: opts.scale,
                        width: opts.width,
                        height: opts.height,
                        x_offset: opts.x_offset,
                        y_offset: opts.y_offset,
                        angles,
                    },
                ),
            },
        }
    }
}

/// But for the number of waves, whether a frame can be rendered does not
/// depend on the frame: of two frames that are both within the animation,
/// where one is refused for another reason than `NoWaves` the other is
/// refused for the same reason, and where one has what it is rendered from
/// the other has so too or has no waves.
pub proof fn lemma_image_for_every_frame(opts: Opts, first: u32, second: u32)
    requires
        first <= opts.frames,
        second <= opts.frames,
    ensures
        image_of(opts, first) matches Err(e) ==> (e != ConfigurationError::NoWaves ==> image_of(
            opts,
            second,
        ) == Err::<ImageText, ConfigurationError>(e)),
        image_of(opts, first) is Ok ==> image_of(opts, second) is Ok || image_of(opts, second)
            == Err::<ImageText, ConfigurationError>(ConfigurationError::NoWaves),
{
    lemma_keyframe_for_every_frame(opts.speed@, first, second, opts.frames);
    lemma_keyframe_for_every_frame(opts.speed@, second, first, opts.frames);
    lemma_keyframes_for_every_frame(split(opts.angles@, ','), first, second, opts.frames);
    lemma_keyframes_for_every_frame(split(opts.angles@, ','), second, first, opts.frames);
}

/// Works out what frame `frame` is rendered from.
pub fn parse_image(opts: &Opts, frame: u32) -> (image: Result<Image, ConfigurationError>)
    ensures
        match image {
            Ok(i) => image_of(*opts, frame) == Ok::<ImageText, ConfigurationError>(i@),
            Err(e) => image_of(*opts, frame) == Err::<ImageText, ConfigurationError>(e),
        },
{
    if opts.width == 0 || opts.height == 0 {
        return Err(ConfigurationError::EmptyImage);
    }
    if opts.scale == 0 {
        return Err(ConfigurationError::ZeroScale);
    }
    if opts.frames == 0 {
        return Err(ConfigurationError::NoFrames);
    }
    let phases = match parse_animation(&opts.speed, frame, opts.frames) {
        Ok(phases) => phases,
        Err(e) => {
            return Err(e);
        },
    };
    let angles = match parse_angles(&opts.angles, frame, opts.frames, opts.percent) {
        Ok(angles) => angles,
        Err(e) => {
            return Err(e);
        },
    };
    Ok(
        Image {
            phases,
            frame,
            frames: opts.frames,
            scale: opts.scale,
            width: opts.width,
            height: opts.height,
            x_offset: opts.x_offset,
            y_offset: opts.y_offset,
            angles,
        },
    )
}

/// The reason why the first of the frames `0` to `count - 1` that cannot be
/// rendered cannot be, if there is such a frame.
pub open spec fn first_refusal(opts: Opts, count: nat) -> Option<ConfigurationError>
    decreases count,
{
    if count == 0 {
        None
    } else {
        match first_refusal(opts, (count - 1) as nat) {
            Some(e) => Some(e),
            None => match image_of(opts, (count - 1) as u32) {
                Err(e) => Some(e),
                Ok(_) => None,
            },
        }
    }
}

/// How the frames of a run are divided among its workers, or the reason why
/// the run cannot be rendered: what is wrong with the colorizer, else
/// `NoThreads` where there is no worker, else what is wrong with the first
/// frame that cannot be rendered. A run without frames is refused for what
/// is wrong with its first frame.
pub open spec fn run_of(opts: Opts) -> Result<Seq<FrameRange>, ConfigurationError> {
    match palette_of(opts.colorizer.deep_view()) {
        Err(e) => Err(e),
        Ok(_) => if opts.threads == 0 {
            Err(ConfigurationError::NoThreads)
        } else {
            match first_refusal(
                opts,
                if opts.frames == 0 {
                    1nat
                } else {
                    opts.frames as nat
                },
            ) {
                Some(e) => Err(e),
                None => Ok(plan(opts.frames as nat, opts.threads as nat)),
            }
        },
    }
}

/// Where none of the first `count` frames is refused, each of them has what
/// it is rendered from.
pub proof fn lemma_no_refusal(opts: Opts, count: nat, frame: u32)
    requires
        first_refusal(opts, count) is None,
        frame < count,
    ensures
        image_of(opts, frame) is Ok,
    decreases count,
{
    if frame < count - 1 {
        lemma_no_refusal(opts, (count - 1) as nat, frame);
    }
}

/// A run that is prepared has a colorizer, a worker, at least one frame,
/// and for every frame of the animation what the frame is rendered from; in
/// particular no frame is without waves.
pub proof fn lemma_prepared_run_renders(opts: Opts, frame: u32)
    requires
        run_of(opts) is Ok,
        frame < opts.frames,
    ensures
        palette_of(opts.colorizer.deep_view()) is Ok,
        opts.threads > 0,
        image_of(opts, frame) is Ok,
        (image_of(opts, frame)->Ok_0).angles matches AngleSpecText::Count(n) ==> n > 0,
{
    lemma_no_refusal(opts, opts.frames as nat, frame);
}

/// Checks the options of a run before anything is rendered, frame by frame,
/// and divides the frames among the workers.
pub fn prepare(opts: &Opts) -> (runs: Result<Vec<FrameRange>, ConfigurationError>)
    ensures
        match runs {
            Ok(v) => run_of(*opts) == Ok::<Seq<FrameRange>, ConfigurationError>(v@),
            Err(e) => run_of(*opts) == Err::<Seq<FrameRange>, ConfigurationError>(e),
        },
{
    match get_colorizer(opts) {
        Ok(_) => {},
        Err(e) => {
            return Err(e);
        },
    }
    let runs = match schedule(opts.frames, opts.threads) {
        Ok(runs) => runs,
        Err(e) => {
            return Err(e);
        },
    };
    let count: u32 = if opts.frames == 0 {
        1
    } else {
        opts.frames
    };
    let mut frame: u32 = 0;
    while frame < count
        invariant
            frame <= count,
            count == if opts.frames == 0 {
                1u32
            } else {
                opts.frames
            },
            palette_of(opts.colorizer.deep_view()) is Ok,
            opts.threads > 0,
            first_refusal(*opts, frame as nat) is None,
        decreases count - frame,
    {
        match parse_image(opts, frame) {
            Ok(_) => {},
            Err(e) => {
                proof {
                    assert(first_refusal(*opts, frame as nat + 1) == Some(e));
                    lemma_refusal_stays(*opts, frame as nat + 1, count as nat);
                }
                return Err(e);
            },
        }
        frame = frame + 1;
    }
    Ok(runs)
}

/// Once one of the first frames is refused, the first refusal among more
/// frames is the same.
pub proof fn lemma_refusal_stays(opts: Opts, fewer: nat, more: nat)
    requires
        fewer <= more,
        first_refusal(opts, fewer) is Some,
    ensures
        first_refusal(opts, more) == first_refusal(opts, fewer),
    decreases more,
{
    if fewer < more {
        lemma_refusal_stays(opts, fewer, (more - 1) as nat);
    }
}

/// Reads every piece as a numeral.
fn parse_numerals(pieces: &Vec<String>) -> (numerals: Option<Vec<Numeral>>)
    ensures
        numerals is Some <==> all_numerals(pieces.deep_view()),
        numerals matches Some(v) ==> v.deep_view() == pieces.deep_view(),
{
    let mut numerals: Vec<Numeral> = Vec::new();
    let mut i: usize = 0;
    while i < pieces.len()
        invariant
            i <= pieces.len(),
            numerals.len() == i,
            forall|j: int| 0 <= j < i ==> is_numeral(#[trigger] pieces.deep_view()[j]),
            forall|j: int| 0 <= j < i ==> (#[trigger] numerals[j])@ == pieces.deep_view()[j],
        decreases pieces.len() - i,
    {
        assert(pieces.deep_view()[i as int] == pieces[i as int]@);
        match Numeral::parse(pieces[i].as_str()) {
            Some(n) => {
                numerals.push(n);
            },
            None => {
                assert(!is_numeral(pieces.deep_view()[i as int]));
                return None;
            },
        }
        i = i + 1;
    }
    assert(numerals.deep_view() =~= pieces.deep_view());
    Some(numerals)
}

/// The colorizer that the options select.
pub fn get_colorizer(opts: &Opts) -> (palette: Result<Palette, ConfigurationError>)
    ensures
        match palette {
            Ok(p) => palette_of(opts.colorizer.deep_view()) == Ok::<
                PaletteText,
                ConfigurationError,
            >(p@),
            Err(e) => palette_of(opts.colorizer.deep_view()) == Err::<
                PaletteText,
                ConfigurationError,
            >(e),
        },
{
    if opts.colorizer.len() < 2 {
        return Err(ConfigurationError::MissingColorizer);
    }
    let ghost values = opts.colorizer.deep_view();
    assert(values[0] == opts.colorizer[0]@);
    assert(values[1] == opts.colorizer[1]@);
    let name = opts.colorizer[0].as_str();
    let sawtooth = same_text(name, "sawtooth");
    let greyscale = same_text(name, "greyscale");
    let twotone = same_text(name, "twotone");
    if !sawtooth && !greyscale && !twotone {
        return Err(ConfigurationError::UnknownColorizer);
    }
    let pieces = parse_list(&opts.colorizer[1], ',');
    let params = match parse_numerals(&pieces) {
        Some(params) => params,
        None => {
            return Err(ConfigurationError::NotANumber);
        },
    };
    assert(forall|i: int|
        0 <= i < params.len() ==> (#[trigger] params[i])@ == params.deep_view()[i]);
    if sawtooth {
        if params.len() != 4 {
            return Err(ConfigurationError::WrongArity);
        }
        let sawtooth = Sawtooth {
            red: params[0].duplicate(),
            green: params[1].duplicate(),
            blue: params[2].duplicate(),
            scalar: params[3].duplicate(),
        };
        assert(seq![sawtooth.red@, sawtooth.green@, sawtooth.blue@, sawtooth.scalar@]
            =~= params.deep_view());
        Ok(Palette::Sawtooth(sawtooth))
    } else if greyscale {
        if params.len() != 1 {
            return Err(ConfigurationError::WrongArity);
        }
        let greyscale = Greyscale { brightness: params[0].duplicate() };
        assert(seq![greyscale.brightness@] =~= params.deep_view());
        Ok(Palette::Greyscale(greyscale))
    } else {
        if params.len() != 6 {
            return Err(ConfigurationError::WrongArity);
        }
        let twotone = TwoTone {
            red1: params[0].duplicate(),
            green1: params[1].duplicate(),
            blue1: params[2].duplicate(),
            red2: params[3].duplicate(),
            green2: params[4].duplicate(),
            blue2: params[5].duplicate(),
        };
        assert(seq![
            twotone.red1@,
            twotone.green1@,
            twotone.blue1@,
            twotone.red2@,
            twotone.green2@,
            twotone.blue2@,
        ] =~= params.deep_view());
        Ok(Palette::TwoTone(twotone))
    }
}

} // verus!
