use quasicrystals::text::{parse_list, same_text};

fn pieces(text: &str, sep: char) -> Vec<String> {
    parse_list(&text.to_string(), sep)
}

#[test]
fn splits_at_every_separator() {
    assert_eq!(pieces("1,2,3", ','), vec!["1", "2", "3"]);
    assert_eq!(pieces("0-5-10", '-'), vec!["0", "5", "10"]);
}

#[test]
fn text_without_separator_is_one_piece() {
    assert_eq!(pieces("sawtooth", ','), vec!["sawtooth"]);
}

#[test]
fn empty_text_is_one_empty_piece() {
    assert_eq!(pieces("", ','), vec![""]);
}

#[test]
fn separators_at_the_ends_give_empty_pieces() {
    assert_eq!(pieces(",a,", ','), vec!["", "a", ""]);
    assert_eq!(pieces(",,", ','), vec!["", "", ""]);
}

#[test]
fn only_the_given_separator_counts() {
    assert_eq!(pieces("0-5,10-5", ','), vec!["0-5", "10-5"]);
    assert_eq!(pieces("1/6", '/'), vec!["1", "6"]);
}

#[test]
fn characters_of_several_bytes_are_kept_whole() {
    assert_eq!(pieces("1,2 -> 0°, 240°", ','), vec!["1", "2 -> 0°", " 240°"]);
    assert_eq!(pieces("a°b°c", '°'), vec!["a", "b", "c"]);
}

#[test]
fn joining_the_pieces_gives_the_text_back() {
    for text in ["", ",", "a,b", ",a,,b,", "no separator", "1,2 -> 0°, 240°"] {
        let split = pieces(text, ',');
        assert_eq!(split.join(","), text);
        assert!(split.iter().all(|piece| !piece.contains(',')));
        assert_eq!(split.len(), text.matches(',').count() + 1);
    }
}

#[test]
fn splitting_agrees_with_the_standard_library() {
    for text in ["", "-", "0-5-10", "--", "10-5-0,0-5-10", "-1e-5"] {
        let expected: Vec<String> = text.split('-').map(|s| s.to_string()).collect();
        assert_eq!(pieces(text, '-'), expected);
    }
}

#[test]
fn same_text_compares_character_by_character() {
    assert!(same_text("gif", "gif"));
    assert!(same_text("", ""));
    assert!(!same_text("gif", "gi"));
    assert!(!same_text("gif", "git"));
    assert!(!same_text("gif", "GIF"));
    assert!(!same_text("", "gif"));
}
