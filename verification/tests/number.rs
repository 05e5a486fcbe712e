use quasicrystals::error::ConfigurationError;
use quasicrystals::number::{parse_number, Number};

fn number(text: &str) -> Result<Number, ConfigurationError> {
    parse_number(&text.to_string())
}

fn value(number: &Number) -> f64 {
    match number {
        Number::Plain(n) => n.as_str().parse::<f64>().unwrap(),
        Number::Ratio(n, d) => {
            n.as_str().parse::<f64>().unwrap() / d.as_str().parse::<f64>().unwrap() * 100.0
        }
    }
}

#[test]
fn a_numeral_is_a_plain_number() {
    match number("50").unwrap() {
        Number::Plain(n) => assert_eq!(n.as_str(), "50"),
        other => panic!("{:?}", other),
    }
    match number("0.25").unwrap() {
        Number::Plain(n) => assert_eq!(n.as_str(), "0.25"),
        other => panic!("{:?}", other),
    }
}

#[test]
fn a_slash_makes_a_ratio() {
    match number("1/6").unwrap() {
        Number::Ratio(n, d) => {
            assert_eq!(n.as_str(), "1");
            assert_eq!(d.as_str(), "6");
        }
        other => panic!("{:?}", other),
    }
}

#[test]
fn a_ratio_is_read_in_percent() {
    assert_eq!(value(&number("1/2").unwrap()), 50.0);
    assert_eq!(value(&number("1/4").unwrap()), 25.0);
    assert_eq!(value(&number("3/4").unwrap()), 75.0);
    assert_eq!(value(&number("50").unwrap()), 50.0);
}

#[test]
fn a_ratio_is_made_of_its_first_two_parts() {
    match number("1/2/3").unwrap() {
        Number::Ratio(n, d) => {
            assert_eq!(n.as_str(), "1");
            assert_eq!(d.as_str(), "2");
        }
        other => panic!("{:?}", other),
    }
}

#[test]
fn every_part_of_a_ratio_has_to_be_a_numeral() {
    for text in ["1/x", "x/1", "/", "1/", "/1", "1/2/x", "1//2", "1/2/"] {
        assert_eq!(number(text).err(), Some(ConfigurationError::NotANumber), "{}", text);
    }
}

#[test]
fn text_that_is_no_numeral_is_no_number() {
    for text in ["", "abc", "1,2", " 1", "1-2"] {
        assert_eq!(number(text).err(), Some(ConfigurationError::NotANumber), "{}", text);
    }
}

#[test]
fn a_copy_of_a_number_holds_the_same_text() {
    match number("1/6").unwrap().duplicate() {
        Number::Ratio(n, d) => {
            assert_eq!(n.as_str(), "1");
            assert_eq!(d.as_str(), "6");
        }
        other => panic!("{:?}", other),
    }
    match number("7").unwrap().duplicate() {
        Number::Plain(n) => assert_eq!(n.as_str(), "7"),
        other => panic!("{:?}", other),
    }
}
