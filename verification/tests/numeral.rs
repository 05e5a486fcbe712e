use quasicrystals::numeral::{parse_whole, Numeral};

fn accepted(text: &str) -> bool {
    Numeral::parse(text).is_some()
}

#[test]
fn whole_numbers_are_numerals() {
    for text in ["0", "51", "127", "000", "4294967296"] {
        assert!(accepted(text), "{}", text);
    }
}

#[test]
fn numbers_with_a_point_are_numerals() {
    for text in ["0.25", "0.5", ".5", "5.", "12.75"] {
        assert!(accepted(text), "{}", text);
    }
}

#[test]
fn signs_and_exponents_are_numerals() {
    for text in ["+1", "-1", "-0.5", "1e5", "1E5", "1e+5", "1.5e-3", ".5e1", "5.e1", "-1e-1"] {
        assert!(accepted(text), "{}", text);
    }
}

#[test]
fn special_words_are_numerals_in_any_case() {
    for text in ["inf", "Inf", "INF", "infinity", "Infinity", "iNfInItY", "nan", "NaN", "+inf", "-nan"] {
        assert!(accepted(text), "{}", text);
    }
}

#[test]
fn other_text_is_no_numeral() {
    for text in [
        "", ".", "+", "-", "e5", "1e", "1e+", "1e-", "abc", " 1", "1 ", "1.2.3", "--1", "+-1",
        "infinit", "in", "na", "nane", "0x10", "1_000", "1,5", "1/2", "1e5.5", "1ee5", "..",
        "1.e", "°", "١",
    ] {
        assert!(!accepted(text), "{}", text);
    }
}

#[test]
fn a_numeral_keeps_its_text() {
    let numeral = Numeral::parse("0.25").unwrap();
    assert_eq!(numeral.as_str(), "0.25");
    assert_eq!(numeral.duplicate().as_str(), "0.25");
    let numeral = Numeral::parse("-Infinity").unwrap();
    assert_eq!(numeral.as_str(), "-Infinity");
}

fn agrees_on_all(alphabet: &[char], length: usize) {
    let mut indices = vec![0usize; length];
    loop {
        let text: String = indices.iter().map(|i| alphabet[*i]).collect();
        assert_eq!(accepted(&text), text.parse::<f64>().is_ok(), "{:?}", text);
        let mut place = 0;
        loop {
            if place == length {
                return;
            }
            indices[place] += 1;
            if indices[place] < alphabet.len() {
                break;
            }
            indices[place] = 0;
            place += 1;
        }
    }
}

#[test]
fn numerals_are_what_the_machine_reads_as_numbers_short_texts() {
    let alphabet = ['0', '7', '.', 'e', 'E', '+', '-', 'i', 'n', 'f', 'a', 'N', ' '];
    for length in 0..5 {
        agrees_on_all(&alphabet, length);
    }
}

#[test]
fn numerals_are_what_the_machine_reads_as_numbers_longer_texts() {
    let alphabet = ['1', '.', 'e', '-', '+'];
    for length in 5..8 {
        agrees_on_all(&alphabet, length);
    }
}

#[test]
fn numerals_are_what_the_machine_reads_as_numbers_words() {
    let alphabet = ['i', 'n', 'f', 't', 'y', 'a', 'I', 'N', '-'];
    for length in 2..5 {
        agrees_on_all(&alphabet, length);
    }
    for text in [
        "infinity", "INFINITY", "Infinity", "infinit", "infinityy", "+infinity", "-INFINITY",
        "infinite", "ınf", "İnf", "ｉnf",
    ] {
        assert_eq!(accepted(text), text.parse::<f64>().is_ok(), "{:?}", text);
    }
}

#[test]
fn whole_numbers_are_read() {
    assert_eq!(parse_whole("0"), Some(0));
    assert_eq!(parse_whole("7"), Some(7));
    assert_eq!(parse_whole("007"), Some(7));
    assert_eq!(parse_whole("1234567890"), Some(1234567890));
    assert_eq!(parse_whole("4294967295"), Some(u32::MAX));
    assert_eq!(parse_whole("00000000000000000000000000000042"), Some(42));
}

#[test]
fn whole_numbers_beyond_the_counter_are_not_read() {
    for text in ["4294967296", "4294967300", "42949672950", "99999999999999999999999999"] {
        assert_eq!(parse_whole(text), None, "{}", text);
    }
}

#[test]
fn only_digits_make_a_whole_number() {
    for text in ["", "+7", "-7", "7.0", "7.", "1e2", "1/2", " 7", "7 ", "inf", "x", "٧"] {
        assert_eq!(parse_whole(text), None, "{}", text);
    }
}

#[test]
fn whole_numbers_are_what_the_machine_reads_as_counters() {
    for text in ["0", "1", "10", "99", "0100", "4294967295", "4294967296", "", "12a", "a12"] {
        let expected = if text.chars().all(|c| c.is_ascii_digit()) {
            text.parse::<u32>().ok()
        } else {
            None
        };
        assert_eq!(parse_whole(text), expected, "{}", text);
    }
}
