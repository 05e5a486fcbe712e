use quasicrystals::color::{Palette, Sawtooth};
use quasicrystals::error::ConfigurationError;
use quasicrystals::input::{get_colorizer, Opts};

fn opts(colorizer: &[&str]) -> Opts {
    Opts {
        width: 4,
        height: 4,
        angles: "2".to_string(),
        scale: 1,
        colorizer: colorizer.iter().map(|s| s.to_string()).collect(),
        frames: 1,
        output: "./".to_string(),
        image_format: "jpg".to_string(),
        x_offset: 0,
        y_offset: 0,
        threads: 1,
        percent: false,
        speed: "1".to_string(),
    }
}

fn sawtooth_texts(s: &Sawtooth) -> [&str; 4] {
    [s.red.as_str(), s.green.as_str(), s.blue.as_str(), s.scalar.as_str()]
}

#[test]
fn sawtooth_takes_four_parameters() {
    match get_colorizer(&opts(&["sawtooth", "0.1,0.2,0.3,40"])).unwrap() {
        Palette::Sawtooth(s) => assert_eq!(sawtooth_texts(&s), ["0.1", "0.2", "0.3", "40"]),
        other => panic!("{:?}", other),
    }
}

#[test]
fn greyscale_takes_one_parameter() {
    match get_colorizer(&opts(&["greyscale", "127"])).unwrap() {
        Palette::Greyscale(g) => assert_eq!(g.brightness.as_str(), "127"),
        other => panic!("{:?}", other),
    }
}

#[test]
fn twotone_takes_six_parameters() {
    match get_colorizer(&opts(&["twotone", "1,2,3,4,5,6"])).unwrap() {
        Palette::TwoTone(t) => {
            assert_eq!(t.red1.as_str(), "1");
            assert_eq!(t.green1.as_str(), "2");
            assert_eq!(t.blue1.as_str(), "3");
            assert_eq!(t.red2.as_str(), "4");
            assert_eq!(t.green2.as_str(), "5");
            assert_eq!(t.blue2.as_str(), "6");
        }
        other => panic!("{:?}", other),
    }
}

#[test]
fn the_colorizer_of_a_run_without_one() {
    match get_colorizer(&opts(&["sawtooth", "0,0.25,0.5,51"])).unwrap() {
        Palette::Sawtooth(s) => assert_eq!(sawtooth_texts(&s), ["0", "0.25", "0.5", "51"]),
        other => panic!("{:?}", other),
    }
}

#[test]
fn another_name_is_refused() {
    for values in [
        ["rainbow", "1"],
        ["rainbow", "1,2,3"],
        ["", "1"],
        ["Sawtooth", "0,0.25,0.5,51"],
        ["two-tone", "1,2,3,4,5,6"],
        ["greyscale ", "127"],
    ] {
        assert_eq!(
            get_colorizer(&opts(&values)).err(),
            Some(ConfigurationError::UnknownColorizer),
            "{:?}",
            values
        );
    }
}

#[test]
fn an_unknown_name_is_reported_before_a_bad_parameter() {
    assert_eq!(
        get_colorizer(&opts(&["rainbow", "x"])).err(),
        Some(ConfigurationError::UnknownColorizer)
    );
    assert_eq!(
        get_colorizer(&opts(&["rainbow", ""])).err(),
        Some(ConfigurationError::UnknownColorizer)
    );
}

#[test]
fn further_values_are_not_looked_at() {
    match get_colorizer(&opts(&["greyscale", "0", "x", "y"])).unwrap() {
        Palette::Greyscale(g) => assert_eq!(g.brightness.as_str(), "0"),
        other => panic!("{:?}", other),
    }
}

#[test]
fn a_colorizer_needs_a_name_and_parameters() {
    assert_eq!(get_colorizer(&opts(&[])).err(), Some(ConfigurationError::MissingColorizer));
    assert_eq!(
        get_colorizer(&opts(&["greyscale"])).err(),
        Some(ConfigurationError::MissingColorizer)
    );
}

#[test]
fn the_number_of_parameters_has_to_fit() {
    for values in [
        ["sawtooth", "1,2,3"],
        ["sawtooth", "1"],
        ["sawtooth", "1,2,3,4,5"],
        ["greyscale", "1,2"],
        ["greyscale", "1,2,3,4"],
        ["twotone", "1,2,3,4,5"],
        ["twotone", "1,2,3,4,5,6,7"],
        ["twotone", "1"],
    ] {
        assert_eq!(
            get_colorizer(&opts(&values)).err(),
            Some(ConfigurationError::WrongArity),
            "{:?}",
            values
        );
    }
}

#[test]
fn every_parameter_has_to_be_a_numeral() {
    for values in [
        ["sawtooth", "1,2,3,x"],
        ["sawtooth", ""],
        ["greyscale", "bright"],
        ["greyscale", "1,"],
        ["twotone", "1,2,3,4,5,x"],
        ["twotone", ""],
        ["sawtooth", "1, 2,3,4"],
    ] {
        assert_eq!(
            get_colorizer(&opts(&values)).err(),
            Some(ConfigurationError::NotANumber),
            "{:?}",
            values
        );
    }
}

#[test]
fn a_bad_parameter_is_reported_before_a_wrong_count() {
    assert_eq!(
        get_colorizer(&opts(&["sawtooth", "1,x"])).err(),
        Some(ConfigurationError::NotANumber)
    );
}
