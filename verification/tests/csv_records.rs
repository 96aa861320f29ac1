use sample_range::csv::{
    direction, export_record, feet_inches, field, lines_of, parse_export, parse_row, Direction,
    FeetInches, CSV_COLUMNS,
};

fn strings(v: &[&str]) -> Vec<String> {
    v.iter().map(|s| s.to_string()).collect()
}

#[test]
fn parse_row_plain_fields() {
    assert_eq!(parse_row("a,b,c"), strings(&["a", "b", "c"]));
}

#[test]
fn parse_row_empty_line_has_no_fields() {
    assert_eq!(parse_row(""), Vec::<String>::new());
}

#[test]
fn parse_row_trailing_comma_adds_empty_field() {
    assert_eq!(parse_row("a,"), strings(&["a", ""]));
    assert_eq!(parse_row(","), strings(&["", ""]));
    assert_eq!(parse_row(",a"), strings(&["", "a"]));
}

#[test]
fn parse_row_quoted_fields() {
    assert_eq!(parse_row("\"a,b\",c"), strings(&["a,b", "c"]));
    assert_eq!(parse_row("\"say \"\"hi\"\"\",x"), strings(&["say \"hi\"", "x"]));
    assert_eq!(parse_row("\"\""), strings(&[""]));
}

#[test]
fn parse_row_unterminated_quote_runs_to_end() {
    assert_eq!(parse_row("\"abc,d"), strings(&["abc,d"]));
}

#[test]
fn parse_row_text_after_closing_quote_is_next_field() {
    assert_eq!(parse_row("\"ab\"cd,e"), strings(&["ab", "cd", "e"]));
}

#[test]
fn parse_row_keeps_non_ascii() {
    assert_eq!(parse_row("Müller,\"Lob° Wedge\""), strings(&["Müller", "Lob° Wedge"]));
}

#[test]
fn unquoted_row_roundtrip_on_example() {
    let line = "Mike, 108.1 ,,7.0,";
    let fields = parse_row(line);
    assert_eq!(fields.join(","), line);
}

#[test]
fn quoted_record_roundtrip_on_example() {
    let fields = strings(&["21' 0\"", "a,b", "", "\"\""]);
    let record: Vec<String> = fields
        .iter()
        .map(|f| format!("\"{}\"", f.replace('"', "\"\"")))
        .collect();
    assert_eq!(parse_row(&record.join(",")), fields);
}

#[test]
fn field_trims_and_defaults() {
    let v = strings(&["  a b \t", "x"]);
    assert_eq!(field(&v, 0), "a b");
    assert_eq!(field(&v, 1), "x");
    assert_eq!(field(&v, 5), "");
}

#[test]
fn field_trims_unicode_white_space() {
    let v = strings(&["\u{3000}\u{a0}7.5\u{2009}\n"]);
    assert_eq!(field(&v, 0), "7.5");
    assert_eq!(field(&v, 0), v[0].trim());
}

#[test]
fn lines_of_matches_std_lines() {
    for text in ["", "a", "a\n", "a\r\nb", "a\n\nb\n", "a\rb\r\n", "\n", "x\r"] {
        let expected: Vec<String> = text.lines().map(|l| l.to_string()).collect();
        assert_eq!(lines_of(text), expected, "text {:?}", text);
    }
}

fn export_text() -> String {
    let mut cols: Vec<String> = (0..CSV_COLUMNS).map(|i| format!("{}", i)).collect();
    cols[1] = "Mike".into();
    cols[2] = "\"2026-02-25; 11-12-15\"".into();
    cols[3] = "108.1".into();
    cols[4] = "\"21' 0\"\"\"".into();
    cols[8] = "3.8 R".into();
    cols[9] = "6.4 L".into();
    cols[37] = "Lob Wedge".into();
    cols[40] = "PushDraw".into();
    format!("header\r\n{}\r\n", cols.join(","))
}

#[test]
fn export_record_reads_second_line() {
    let values = export_record(&export_text()).unwrap();
    assert_eq!(values.len(), CSV_COLUMNS);
    assert_eq!(values[1], "Mike");
    assert_eq!(values[2], "2026-02-25; 11-12-15");
    assert_eq!(values[4], "21' 0\"");
}

#[test]
fn export_record_rejects_short_text() {
    assert!(export_record("only a header").is_none());
    assert!(export_record("").is_none());
    assert!(export_record("h\na,b,c").is_none());
}

#[test]
fn feet_inches_splits_columns() {
    let v = strings(&["21' 0\"", "  ", "345.4", "5'", "7' 3\"\" "]);
    assert_eq!(
        feet_inches(&v, 0),
        FeetInches::Split { feet: "21".into(), inches: "0".into() }
    );
    assert_eq!(feet_inches(&v, 1), FeetInches::Empty);
    assert_eq!(feet_inches(&v, 2), FeetInches::Whole("345.4".into()));
    assert_eq!(feet_inches(&v, 3), FeetInches::Split { feet: "5".into(), inches: "".into() });
    assert_eq!(feet_inches(&v, 4), FeetInches::Split { feet: "7".into(), inches: "3".into() });
    assert_eq!(feet_inches(&v, 9), FeetInches::Empty);
}

#[test]
fn direction_reads_side_markers() {
    let v = strings(&["3.8 R", "6.4 L", "-2.0", "", "R"]);
    assert_eq!(direction(&v, 0), Direction::Right("3.8".into()));
    assert_eq!(direction(&v, 1), Direction::Left("6.4".into()));
    assert_eq!(direction(&v, 2), Direction::Plain("-2.0".into()));
    assert_eq!(direction(&v, 3), Direction::Empty);
    assert_eq!(direction(&v, 4), Direction::Plain("R".into()));
}

#[test]
fn parse_export_maps_columns() {
    let e = parse_export(&export_text()).unwrap();
    assert_eq!(e.player, "Mike");
    assert_eq!(e.timestamp, "2026-02-25; 11-12-15");
    assert_eq!(e.carry_yds, "108.1");
    assert_eq!(e.roll_ft, FeetInches::Split { feet: "21".into(), inches: "0".into() });
    assert_eq!(e.roll_yds, "5");
    assert_eq!(e.lateral_yds, Direction::Right("3.8".into()));
    assert_eq!(e.curve_dist_yds, Direction::Left("6.4".into()));
    assert_eq!(e.roll_speed_mph, "13");
    assert_eq!(e.descent_v_deg, "33");
    assert_eq!(e.club, "Lob Wedge");
    assert_eq!(e.shot_type, "PushDraw");
    assert!(parse_export("header").is_none());
}
