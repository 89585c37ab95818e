use midi_mixer::preset::{parse_ids, ParseError, Preset, PresetComponents};

#[test]
fn parses_single_range() {
    let ids = parse_ids("3-11").unwrap();
    assert_eq!(ids, vec![3, 4, 5, 6, 7, 8, 9, 10, 11]);
}

#[test]
fn parses_mixed_list() {
    let ids = parse_ids("1,2,23-31,44-49,64,67").unwrap();
    let mut expected: Vec<u8> = vec![1, 2];
    expected.extend(23..=31);
    expected.extend(44..=49);
    expected.push(64);
    expected.push(67);
    assert_eq!(ids, expected);
}

#[test]
fn parses_multi_digit_single() {
    assert_eq!(parse_ids("64").unwrap(), vec![64]);
    assert_eq!(parse_ids("127").unwrap(), vec![127]);
    assert_eq!(parse_ids("0").unwrap(), vec![0]);
}

#[test]
fn parses_leading_zeros() {
    assert_eq!(parse_ids("03").unwrap(), vec![3]);
    assert_eq!(parse_ids("3-0005").unwrap(), vec![3, 4, 5]);
}

#[test]
fn keeps_duplicates_in_token_order() {
    assert_eq!(parse_ids("3,3-4,4").unwrap(), vec![3, 3, 4, 4]);
}

#[test]
fn degenerate_range_is_empty_not_error() {
    assert_eq!(parse_ids("5-3").unwrap(), vec![]);
    assert_eq!(parse_ids("1,5-3,2").unwrap(), vec![1, 2]);
}

#[test]
fn rejects_non_integer_token() {
    assert_eq!(parse_ids("abc"), Err(ParseError));
    assert_eq!(parse_ids("1,abc,3"), Err(ParseError));
    assert_eq!(parse_ids("1x"), Err(ParseError));
}

#[test]
fn rejects_out_of_range_id() {
    assert_eq!(parse_ids("128"), Err(ParseError));
    assert_eq!(parse_ids("1,300"), Err(ParseError));
    assert_eq!(parse_ids("120-128"), Err(ParseError));
    assert_eq!(parse_ids("99999999999999999999999999"), Err(ParseError));
}

#[test]
fn rejects_malformed_ranges() {
    assert_eq!(parse_ids("1-2-3"), Err(ParseError));
    assert_eq!(parse_ids("-3"), Err(ParseError));
    assert_eq!(parse_ids("3-"), Err(ParseError));
    assert_eq!(parse_ids("-"), Err(ParseError));
}

#[test]
fn rejects_empty_tokens() {
    assert_eq!(parse_ids(""), Err(ParseError));
    assert_eq!(parse_ids("1,,2"), Err(ParseError));
    assert_eq!(parse_ids(",1"), Err(ParseError));
    assert_eq!(parse_ids("1,"), Err(ParseError));
}

#[test]
fn rejects_whitespace() {
    // Tokens are not trimmed: a space makes the token invalid.
    assert_eq!(parse_ids("1, 2"), Err(ParseError));
}

#[test]
fn rejects_non_ascii_text() {
    assert_eq!(parse_ids("³"), Err(ParseError));
    assert_eq!(parse_ids("1,２"), Err(ParseError));
}

#[test]
fn preset_carries_three_descriptions() {
    let preset = Preset {
        components: PresetComponents {
            sliders: String::from("3-11"),
            buttons: String::from("1,2,23-31,44-49,64,67"),
            dials: String::from("12-22"),
        },
    };
    assert_eq!(parse_ids(&preset.components.sliders).unwrap().len(), 9);
    assert_eq!(parse_ids(&preset.components.buttons).unwrap().len(), 19);
    assert_eq!(parse_ids(&preset.components.dials).unwrap().len(), 11);
}
