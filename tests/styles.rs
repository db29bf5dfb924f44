use tileyolo::{
    is_builtin_palette, parse_stops, parse_u8, style_stop_fields, NumberError, StopField,
    StyleError,
};

fn fields_of(text: &str) -> Vec<Vec<String>> {
    style_stop_fields(text)
        .into_iter()
        .map(|f| vec![f.value, f.red, f.green, f.blue, f.alpha])
        .collect()
}

#[test]
fn builtin_palettes_are_recognised() {
    for name in [
        "viridis",
        "magma",
        "plasma",
        "inferno",
        "turbo",
        "cubehelix_default",
        "rainbow",
        "spectral",
        "sinebow",
    ] {
        assert!(is_builtin_palette(name), "{name}");
    }
    assert!(!is_builtin_palette("Viridis"));
    assert!(!is_builtin_palette("default"));
    assert!(!is_builtin_palette(""));
}

#[test]
fn comments_directives_and_blank_lines_are_skipped() {
    let text = "# a comment\nINTERPOLATION:INTERPOLATED\n\n   \t\n0,215,25,28,255\n100,253,174,97,255\n";
    assert_eq!(
        fields_of(text),
        vec![
            vec!["0", "215", "25", "28", "255"],
            vec!["100", "253", "174", "97", "255"],
        ]
    );
}

#[test]
fn short_lines_are_skipped_and_extra_fields_ignored() {
    let text = "1,2,3,4\n5,6,7,8,9,label\n";
    assert_eq!(fields_of(text), vec![vec!["5", "6", "7", "8", "9"]]);
}

#[test]
fn windows_line_endings_and_a_last_line_without_newline() {
    let text = "0,1,2,3,4\r\n10,11,12,13,14";
    assert_eq!(
        fields_of(text),
        vec![vec!["0", "1", "2", "3", "4"], vec!["10", "11", "12", "13", "14"]]
    );
    assert!(fields_of("").is_empty());
}

#[test]
fn bytes_are_read_as_std_reads_them() {
    assert_eq!(parse_u8("0"), Ok(0));
    assert_eq!(parse_u8("255"), Ok(255));
    assert_eq!(parse_u8("+7"), Ok(7));
    assert_eq!(parse_u8("007"), Ok(7));
    assert_eq!(parse_u8(""), Err(NumberError::Empty));
    assert_eq!(parse_u8("+"), Err(NumberError::InvalidDigit));
    assert_eq!(parse_u8("-1"), Err(NumberError::InvalidDigit));
    assert_eq!(parse_u8(" 1"), Err(NumberError::InvalidDigit));
    assert_eq!(parse_u8("256"), Err(NumberError::TooLarge));
    assert_eq!(parse_u8("999x"), Err(NumberError::TooLarge));
    assert_eq!(parse_u8("1x9"), Err(NumberError::InvalidDigit));
    for (text, expected) in [("12", 12u8), ("+200", 200), ("25", 25)] {
        assert_eq!(parse_u8(text), text.parse::<u8>().map_err(|_| NumberError::Empty), "{text}");
        assert_eq!(parse_u8(text), Ok(expected));
    }
}

#[test]
fn stops_keep_file_order() {
    let rows = style_stop_fields("0,215,25,28,255\n50.5,1,2,3,4\n");
    let stops = parse_stops(&rows, &vec![true, true]).unwrap();
    assert_eq!(stops.len(), 2);
    assert_eq!(stops[1].value, "50.5");
    assert_eq!((stops[1].red, stops[1].green, stops[1].blue, stops[1].alpha), (1, 2, 3, 4));
    assert_eq!(stops[0].red, 215);
}

#[test]
fn a_bad_value_is_reported_first() {
    let rows = style_stop_fields("x,300,0,0,0\n");
    assert_eq!(
        parse_stops(&rows, &vec![false]).unwrap_err(),
        StyleError { field: StopField::Value, error: NumberError::InvalidFloat }
    );
    let rows = style_stop_fields(",1,2,3,4\n");
    assert_eq!(
        parse_stops(&rows, &vec![false]).unwrap_err(),
        StyleError { field: StopField::Value, error: NumberError::Empty }
    );
}

#[test]
fn the_first_bad_channel_is_reported() {
    let rows = style_stop_fields("1,2,3,4,5\n1,2,x,400,5\n");
    assert_eq!(
        parse_stops(&rows, &vec![true, true]).unwrap_err(),
        StyleError { field: StopField::Green, error: NumberError::InvalidDigit }
    );
    let rows = style_stop_fields("1,2,3,4,256\n");
    assert_eq!(
        parse_stops(&rows, &vec![true]).unwrap_err(),
        StyleError { field: StopField::Alpha, error: NumberError::TooLarge }
    );
    let rows = style_stop_fields("1,,3,4,5\n");
    assert_eq!(
        parse_stops(&rows, &vec![true]).unwrap_err(),
        StyleError { field: StopField::Red, error: NumberError::Empty }
    );
    let rows = style_stop_fields("1,1,3,b,5\n");
    assert_eq!(
        parse_stops(&rows, &vec![true]).unwrap_err(),
        StyleError { field: StopField::Blue, error: NumberError::InvalidDigit }
    );
}
