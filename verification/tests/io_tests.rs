use pastel_core::{Color, ColorArgIterator, ColorError, ColorRequest, StdinRead};

fn chars_of(text: &str) -> Vec<char> {
    text.chars().collect()
}

fn string_of(chars: &[char]) -> String {
    chars.iter().collect()
}

#[test]
fn test_from_args_modes() {
    let it = ColorArgIterator::from_args(Some(vec!["red".to_string()]), true);
    assert!(matches!(
        it,
        Ok(ColorArgIterator::FromPositionalArguments(_, 0))
    ));

    let it = ColorArgIterator::from_args(None, false);
    assert!(matches!(it, Ok(ColorArgIterator::FromStdin)));

    let it = ColorArgIterator::from_args(None, true);
    assert!(matches!(it, Err(ColorError::ColorArgRequired)));
}

#[test]
fn test_positional_sequence_with_dash() {
    // the arguments red, -, blue with one stdin line yield red, green, blue
    let args = vec!["red".to_string(), "-".to_string(), "blue".to_string()];
    let mut it = ColorArgIterator::from_args(Some(args), true).unwrap();

    let req = it.next_request();
    let first = match req {
        ColorRequest::ParseArg(text) => {
            assert_eq!(text, "red");
            ColorArgIterator::color_from_parse(text, Some(Color::from_rgb(255, 0, 0))).unwrap()
        }
        _ => panic!("expected a parse request"),
    };
    assert_eq!(first, Color::from_rgb(255, 0, 0));

    // the dash consumes exactly one stdin line
    let req = it.next_request();
    assert!(matches!(req, ColorRequest::ReadStdin));
    let line = ColorArgIterator::line_from_stdin(StdinRead::Line(chars_of("#00ff00\n"))).unwrap();
    assert_eq!(string_of(&line), "#00ff00");
    let second =
        ColorArgIterator::color_from_parse(string_of(&line), Some(Color::from_rgb(0, 255, 0)))
            .unwrap();
    assert_eq!(second, Color::from_rgb(0, 255, 0));

    let req = it.next_request();
    let third = match req {
        ColorRequest::ParseArg(text) => {
            assert_eq!(text, "blue");
            ColorArgIterator::color_from_parse(text, Some(Color::from_rgb(0, 0, 255))).unwrap()
        }
        _ => panic!("expected a parse request"),
    };
    assert_eq!(third, Color::from_rgb(0, 0, 255));

    assert!(matches!(it.next_request(), ColorRequest::Done));
    assert!(matches!(it.next_request(), ColorRequest::Done));
}

#[test]
fn test_empty_stdin_ends_without_error() {
    let mut it = ColorArgIterator::from_args(None, false).unwrap();
    assert!(matches!(it.next_request(), ColorRequest::ReadStdin));
    let res = ColorArgIterator::line_from_stdin(StdinRead::Eof);
    assert!(matches!(res, Err(ColorError::CouldNotReadFromStdin)));
    let item = ColorArgIterator::absorb_stdin_end(Err(ColorError::CouldNotReadFromStdin));
    assert!(item.is_none());
}

#[test]
fn test_stdin_read_failure_is_invalid_input() {
    let res = ColorArgIterator::line_from_stdin(StdinRead::Failure);
    assert!(matches!(res, Err(ColorError::ColorInvalidUTF8)));
    // in stdin mode this error is yielded, not swallowed
    let item = ColorArgIterator::absorb_stdin_end(Err(ColorError::ColorInvalidUTF8));
    assert!(matches!(item, Some(Err(ColorError::ColorInvalidUTF8))));
}

#[test]
fn test_parse_failure_carries_text() {
    let res = ColorArgIterator::color_from_parse("no-such-color".to_string(), None);
    match res {
        Err(ColorError::ColorParseError(text)) => assert_eq!(text, "no-such-color"),
        _ => panic!("expected a parse error"),
    }
}

#[test]
fn test_lines_are_trimmed() {
    let line = ColorArgIterator::line_from_stdin(StdinRead::Line(chars_of("  red\t\n"))).unwrap();
    assert_eq!(string_of(&line), "red");
    let line = ColorArgIterator::line_from_stdin(StdinRead::Line(chars_of(" \t \n"))).unwrap();
    assert_eq!(string_of(&line), "");
    let line = ColorArgIterator::line_from_stdin(StdinRead::Line(chars_of("a b"))).unwrap();
    assert_eq!(string_of(&line), "a b");
}
