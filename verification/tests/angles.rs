use quasicrystals::angles::{angles, AngleSpec};
use quasicrystals::animation::Keyframe;
use quasicrystals::error::ConfigurationError;
use quasicrystals::fraction::Fraction;
use quasicrystals::angles::parse_count;
use quasicrystals::input::parse_angles;
use quasicrystals::number::Number;
use std::f64::consts::PI;

fn spec(text: &str, frame: u32, frames: u32, percent: bool) -> Result<AngleSpec, ConfigurationError> {
    parse_angles(&text.to_string(), frame, frames, percent)
}

fn number_value(number: &Number) -> f64 {
    match number {
        Number::Plain(n) => n.as_str().parse::<f64>().unwrap(),
        Number::Ratio(n, d) => {
            n.as_str().parse::<f64>().unwrap() / d.as_str().parse::<f64>().unwrap() * 100.0
        }
    }
}

fn value(keyframe: &Keyframe) -> f64 {
    let from = number_value(&keyframe.from);
    let to = number_value(&keyframe.to);
    from + keyframe.progress.num as f64 / keyframe.progress.den as f64 * (to - from)
}

fn radians(spec: &AngleSpec) -> Vec<f64> {
    match spec {
        AngleSpec::Count(count) => angles(*count as usize)
            .unwrap()
            .iter()
            .map(|part| part.num as f64 * (PI / part.den as f64))
            .collect(),
        AngleSpec::Proportional(weights) => {
            let sum: f64 = weights.iter().map(value).sum();
            let mut total = 0.0;
            let mut result = Vec::new();
            for weight in weights {
                total += value(weight) * (PI / sum);
                result.push(total);
            }
            result
        }
        AngleSpec::Percent(percents) => percents.iter().map(|p| value(p) / 100.0 * PI).collect(),
    }
}

fn close(a: &[f64], b: &[f64]) -> bool {
    a.len() == b.len() && a.iter().zip(b).all(|(x, y)| (x - y).abs() < 1e-12)
}

#[test]
fn four_waves_spread_evenly() {
    assert_eq!(
        angles(4).unwrap(),
        vec![
            Fraction { num: 0, den: 4 },
            Fraction { num: 1, den: 4 },
            Fraction { num: 2, den: 4 },
            Fraction { num: 3, den: 4 },
        ]
    );
}

#[test]
fn one_wave_stands_at_zero() {
    assert_eq!(angles(1).unwrap(), vec![Fraction { num: 0, den: 1 }]);
}

#[test]
fn an_even_spread_ascends_in_equal_steps_below_the_half_turn() {
    for n in 1..50usize {
        let set = angles(n).unwrap();
        assert_eq!(set.len(), n);
        assert_eq!(set[0].num, 0);
        assert!(set[n - 1].num < set[n - 1].den);
        for k in 0..n {
            assert_eq!(set[k].den, n as u64);
            assert_eq!(set[k].num, k as u64);
        }
        for k in 1..n {
            assert!(set[k - 1].num * set[k].den < set[k].num * set[k - 1].den);
            assert_eq!(set[k].num - set[k - 1].num, 1);
        }
    }
}

#[test]
fn no_waves_are_refused() {
    assert_eq!(angles(0), Err(ConfigurationError::NoWaves));
}

fn count(text: &str, frame: u32, frames: u32) -> Result<u32, ConfigurationError> {
    parse_count(&text.to_string(), frame, frames)
}

#[test]
fn one_entry_is_a_count() {
    match spec("7", 0, 1, false).unwrap() {
        AngleSpec::Count(count) => assert_eq!(count, 7),
        other => panic!("{:?}", other),
    }
}

#[test]
fn a_count_of_zero_is_refused() {
    assert_eq!(spec("0", 0, 1, false).err(), Some(ConfigurationError::NoWaves));
    assert_eq!(spec("000", 3, 10, false).err(), Some(ConfigurationError::NoWaves));
    assert_eq!(count("0", 0, 1), Ok(0));
}

#[test]
fn an_animated_count_that_passes_through_zero_is_refused_there() {
    assert_eq!(spec("0-5", 0, 10, false).err(), Some(ConfigurationError::NoWaves));
    assert_eq!(spec("0-5", 1, 10, false).err(), Some(ConfigurationError::NoWaves));
    assert!(matches!(spec("0-5", 2, 10, false), Ok(AngleSpec::Count(1))));
    assert!(matches!(spec("5-0", 8, 10, false), Ok(AngleSpec::Count(1))));
    assert_eq!(spec("5-0", 9, 10, false).err(), Some(ConfigurationError::NoWaves));
}

#[test]
fn a_count_is_a_whole_number() {
    for text in ["2.5", "1/2", "+7", "inf", "1e2", "7.0", "3-7.5", "4294967296"] {
        assert_eq!(
            spec(text, 0, 10, false).err(),
            Some(ConfigurationError::NotACount),
            "{}",
            text
        );
    }
    for text in ["", "x", "3-x", "3--7", "-7"] {
        assert_eq!(
            spec(text, 0, 10, false).err(),
            Some(ConfigurationError::NotANumber),
            "{}",
            text
        );
    }
    assert_eq!(spec("2.5-x", 0, 10, false).err(), Some(ConfigurationError::NotANumber));
}

#[test]
fn a_count_moves_in_a_straight_line_between_its_stages() {
    // from 3 to 7 over four frames: 3, 4, 5, 6, and 7 at the end
    let expected = [3, 4, 5, 6, 7];
    for frame in 0..=4 {
        assert_eq!(count("3-7", frame, 4), Ok(expected[frame as usize]));
    }
    // from 7 down to 3 over eight frames, whole parts of 7, 6.5, 6, ...
    let expected = [7, 6, 6, 5, 5, 4, 4, 3, 3];
    for frame in 0..=8 {
        assert_eq!(count("7-3", frame, 8), Ok(expected[frame as usize]));
    }
    // three stages over ten frames
    assert_eq!(count("0-50-100", 0, 10), Ok(0));
    assert_eq!(count("0-50-100", 5, 10), Ok(50));
    assert_eq!(count("0-50-100", 9, 10), Ok(90));
    assert_eq!(count("0-50-100", 10, 10), Ok(100));
    assert_eq!(count("1-2", 1, 3), Ok(1));
    assert_eq!(count("1-2", 2, 3), Ok(1));
    assert_eq!(count("1-2", 3, 3), Ok(2));
}

#[test]
fn a_count_lies_between_its_stages() {
    for frames in 1..20u32 {
        for frame in 0..=frames {
            let n = count("3-11-5", frame, frames).unwrap();
            assert!((3..=11).contains(&n));
        }
        assert_eq!(count("3-11-5", 0, frames), Ok(3));
        assert_eq!(count("3-11-5", frames, frames), Ok(5));
    }
}

#[test]
fn a_single_count_holds_for_every_frame() {
    for (frame, frames) in [(0, 1), (9, 10), (50, 10), (3, 0)] {
        assert_eq!(count("12", frame, frames), Ok(12));
    }
}

#[test]
fn staged_counts_need_frames_within_the_animation() {
    assert_eq!(count("3-7", 0, 0), Err(ConfigurationError::NoFrames));
    assert_eq!(count("3-7", 11, 10), Err(ConfigurationError::FrameOutOfRange));
    assert_eq!(count("3-x", 11, 10), Err(ConfigurationError::NotANumber));
    assert_eq!(count("3-7.5", 11, 10), Err(ConfigurationError::NotACount));
}

#[test]
fn the_largest_counts_do_not_overflow() {
    assert_eq!(
        count("4294967295-4294967295", u32::MAX - 1, u32::MAX),
        Ok(u32::MAX)
    );
    assert_eq!(count("0-4294967295", u32::MAX - 1, u32::MAX), Ok(u32::MAX - 1));
}

#[test]
fn a_count_of_two_gives_zero_and_a_quarter_turn() {
    let set = radians(&spec("2", 0, 1, false).unwrap());
    assert!(close(&set, &[0.0, PI / 2.0]));
}

#[test]
fn several_entries_are_proportions() {
    match spec("1,2", 0, 1, false).unwrap() {
        AngleSpec::Proportional(weights) => {
            assert_eq!(weights.len(), 2);
            assert_eq!(value(&weights[0]), 1.0);
            assert_eq!(value(&weights[1]), 2.0);
        }
        other => panic!("{:?}", other),
    }
}

#[test]
fn equal_proportions_give_the_quarter_and_the_half_turn() {
    let set = radians(&spec("1,1", 0, 1, false).unwrap());
    assert!(close(&set, &[PI / 2.0, PI]));
}

#[test]
fn proportions_are_added_up() {
    let set = radians(&spec("1,2,1", 0, 1, false).unwrap());
    assert!(close(&set, &[PI / 4.0, 3.0 * PI / 4.0, PI]));
}

#[test]
fn percentages_are_taken_one_by_one() {
    match spec("50,1/6", 0, 1, true).unwrap() {
        AngleSpec::Percent(percents) => assert_eq!(percents.len(), 2),
        other => panic!("{:?}", other),
    }
    let set = radians(&spec("50,25,1/4", 0, 1, true).unwrap());
    assert!(close(&set, &[PI / 2.0, PI / 4.0, PI / 4.0]));
}

#[test]
fn one_percentage_is_no_count() {
    match spec("50", 0, 1, true).unwrap() {
        AngleSpec::Percent(percents) => {
            assert_eq!(percents.len(), 1);
            assert_eq!(value(&percents[0]), 50.0);
        }
        other => panic!("{:?}", other),
    }
}

#[test]
fn each_entry_is_animated_on_its_own() {
    match spec("0-5-10,10-5-0", 3, 4, false).unwrap() {
        AngleSpec::Proportional(weights) => {
            assert_eq!(weights.len(), 2);
            assert_eq!(weights[0].progress, Fraction { num: 2, den: 4 });
            assert_eq!(value(&weights[0]), 7.5);
            assert_eq!(value(&weights[1]), 2.5);
        }
        other => panic!("{:?}", other),
    }
    match spec("1,0-4", 1, 2, false).unwrap() {
        AngleSpec::Proportional(weights) => {
            assert_eq!(value(&weights[0]), 1.0);
            assert_eq!(weights[0].progress, Fraction { num: 0, den: 1 });
            assert_eq!(value(&weights[1]), 2.0);
        }
        other => panic!("{:?}", other),
    }
}

#[test]
fn an_animated_count() {
    match spec("3-7", 1, 2, false).unwrap() {
        AngleSpec::Count(count) => assert_eq!(count, 5),
        other => panic!("{:?}", other),
    }
}

#[test]
fn the_first_bad_entry_decides_the_error() {
    assert_eq!(spec("", 0, 1, true).err(), Some(ConfigurationError::NotANumber));
    assert_eq!(spec("1,,2", 0, 1, false).err(), Some(ConfigurationError::NotANumber));
    assert_eq!(spec("1,x", 0, 1, true).err(), Some(ConfigurationError::NotANumber));
    assert_eq!(spec("0-1,x", 5, 4, false).err(), Some(ConfigurationError::FrameOutOfRange));
    assert_eq!(spec("x,0-1", 5, 4, false).err(), Some(ConfigurationError::NotANumber));
    assert_eq!(spec("1,0-1", 0, 0, false).err(), Some(ConfigurationError::NoFrames));
}
