use video_catalog::duration::{
    format_duration, normalize_durations, parse_iso8601_duration, parse_length, read_fields,
    try_parse_iso8601_duration, DurationFields, LengthTerm, LengthUnit,
};

fn minutes_of(length: &str) -> f64 {
    let mut total = 0.0;
    for term in parse_length(length) {
        if let Ok(value) = term.numeral.parse::<f64>() {
            match term.unit {
                LengthUnit::Minutes => total += value,
                LengthUnit::Seconds => total += value / 60.0,
            }
        }
    }
    total
}

fn term(unit: LengthUnit, numeral: &str) -> LengthTerm {
    LengthTerm { unit, numeral: numeral.to_string() }
}

#[test]
fn human_duration_of_hours_minutes_seconds() {
    assert_eq!(parse_iso8601_duration("PT1H2M3S"), "62m 3s");
}

#[test]
fn human_duration_of_seconds_only() {
    assert_eq!(parse_iso8601_duration("PT45S"), "45s");
}

#[test]
fn human_duration_of_no_fields() {
    assert_eq!(parse_iso8601_duration("PT"), "0s");
}

#[test]
fn human_duration_of_minutes_only_shows_zero_seconds() {
    assert_eq!(parse_iso8601_duration("PT5M"), "5m 0s");
}

#[test]
fn human_duration_folds_hours_into_minutes() {
    assert_eq!(parse_iso8601_duration("PT2H"), "120m 0s");
    assert_eq!(parse_iso8601_duration("PT10H59M59S"), "659m 59s");
}

#[test]
fn human_duration_of_zero_fields() {
    assert_eq!(parse_iso8601_duration("PT0H0M0S"), "0s");
    assert_eq!(parse_iso8601_duration("PT0M7S"), "7s");
}

#[test]
fn human_duration_of_malformed_text_is_zero() {
    assert_eq!(parse_iso8601_duration(""), "0s");
    assert_eq!(parse_iso8601_duration("ten minutes"), "0s");
    assert_eq!(parse_iso8601_duration("P1D"), "0s");
}

#[test]
fn human_duration_finds_the_pattern_inside_a_text() {
    assert_eq!(parse_iso8601_duration("P1DT2M"), "0s");
    assert_eq!(parse_iso8601_duration("xxPT2M4Syy"), "2m 4s");
}

#[test]
fn human_duration_takes_fields_in_order_only() {
    assert_eq!(parse_iso8601_duration("PT5S3M"), "5s");
    assert_eq!(parse_iso8601_duration("PT3M1H"), "3m 0s");
}

#[test]
fn human_duration_is_not_the_input() {
    assert_ne!(parse_iso8601_duration("PT45S"), "PT45S");
}

#[test]
fn try_parse_agrees_on_readable_fields() {
    assert_eq!(try_parse_iso8601_duration("PT1H2M3S"), Some("62m 3s".to_string()));
    assert_eq!(try_parse_iso8601_duration("nothing"), Some("0s".to_string()));
}

#[test]
fn try_parse_refuses_a_field_beyond_i64() {
    assert_eq!(
        try_parse_iso8601_duration("PT9223372036854775807S"),
        Some("9223372036854775807s".to_string())
    );
    assert_eq!(try_parse_iso8601_duration("PT9223372036854775808S"), None);
    assert_eq!(try_parse_iso8601_duration("PT99999999999999999999H1M"), None);
}

#[test]
fn try_parse_refuses_digits_that_are_not_ascii() {
    assert_eq!(try_parse_iso8601_duration("PT\u{0663}M"), None);
}

#[test]
fn folding_the_largest_hours_does_not_overflow() {
    assert_eq!(
        format_duration(i64::MAX, i64::MAX, 0),
        "562625694248141324227m 0s"
    );
}

#[test]
fn format_duration_exact_texts() {
    assert_eq!(format_duration(1, 2, 3), "62m 3s");
    assert_eq!(format_duration(0, 0, 0), "0s");
    assert_eq!(format_duration(0, 0, 45), "45s");
    assert_eq!(format_duration(0, 1, 0), "1m 0s");
    assert_eq!(format_duration(3, 0, 1000), "180m 1000s");
}

#[test]
fn format_duration_of_counts_below_zero() {
    assert_eq!(format_duration(-1, 5, -7), "5m -7s");
    assert_eq!(format_duration(0, -5, 7), "7s");
    assert_eq!(format_duration(1, -60, 7), "7s");
    assert_eq!(format_duration(0, 0, i64::MIN), "-9223372036854775808s");
}

#[test]
fn read_fields_takes_groups_one_to_three() {
    let captures = Some(vec![
        Some("PT1H3S".to_string()),
        Some("1".to_string()),
        None,
        Some("3".to_string()),
    ]);
    assert_eq!(read_fields(&captures), Some(DurationFields { hours: 1, minutes: 0, seconds: 3 }));
}

#[test]
fn read_fields_of_no_match_is_zero() {
    assert_eq!(read_fields(&None), Some(DurationFields { hours: 0, minutes: 0, seconds: 0 }));
    assert_eq!(
        read_fields(&Some(vec![Some("PT".to_string())])),
        Some(DurationFields { hours: 0, minutes: 0, seconds: 0 })
    );
}

#[test]
fn read_fields_refuses_what_is_no_numeral() {
    let signed = Some(vec![None, Some("+5".to_string()), None, None]);
    assert_eq!(read_fields(&signed), None);
    let empty = Some(vec![None, None, Some(String::new()), None]);
    assert_eq!(read_fields(&empty), None);
    let large = Some(vec![None, None, None, Some("9223372036854775808".to_string())]);
    assert_eq!(read_fields(&large), None);
}

#[test]
fn read_fields_accepts_leading_zeros() {
    let captures = Some(vec![None, Some("007".to_string()), Some("00".to_string()), None]);
    assert_eq!(read_fields(&captures), Some(DurationFields { hours: 7, minutes: 0, seconds: 0 }));
}

#[test]
fn normalize_durations_keeps_order() {
    let raw = vec!["PT1M".to_string(), "PT2S".to_string(), "junk".to_string()];
    assert_eq!(
        normalize_durations(&raw),
        Some(vec!["1m 0s".to_string(), "2s".to_string(), "0s".to_string()])
    );
    assert_eq!(normalize_durations(&Vec::new()), Some(Vec::new()));
}

#[test]
fn normalize_durations_refuses_an_unreadable_field() {
    let raw = vec!["PT1M".to_string(), "PT99999999999999999999S".to_string()];
    assert_eq!(normalize_durations(&raw), None);
}

#[test]
fn minutes_of_minutes_and_seconds() {
    assert!((minutes_of("62m 3s") - 62.05).abs() < 1e-9);
}

#[test]
fn minutes_of_seconds_only() {
    assert!((minutes_of("45s") - 0.75).abs() < 1e-9);
}

#[test]
fn minutes_of_empty_text() {
    assert_eq!(minutes_of(""), 0.0);
    assert_eq!(parse_length(""), Vec::new());
}

#[test]
fn human_form_reads_back_to_the_same_minutes() {
    let human = parse_iso8601_duration("PT1H2M30S");
    assert_eq!(human, "62m 30s");
    assert!((minutes_of(&human) - 62.5).abs() < 1e-9);
}

#[test]
fn parse_length_terms_of_the_human_form() {
    assert_eq!(
        parse_length("62m 3s"),
        vec![term(LengthUnit::Minutes, "62"), term(LengthUnit::Seconds, "3")]
    );
}

#[test]
fn parse_length_cuts_at_any_whitespace() {
    assert_eq!(
        parse_length("  1m\t2s\n3m\u{a0}4s\u{3000}"),
        vec![
            term(LengthUnit::Minutes, "1"),
            term(LengthUnit::Seconds, "2"),
            term(LengthUnit::Minutes, "3"),
            term(LengthUnit::Seconds, "4"),
        ]
    );
}

#[test]
fn parse_length_ignores_words_without_a_unit() {
    assert_eq!(parse_length("about 5m or 12 sec"), vec![term(LengthUnit::Minutes, "5")]);
}

#[test]
fn parse_length_strips_every_unit_letter_at_the_end() {
    assert_eq!(
        parse_length("5mm 7sss m xs"),
        vec![
            term(LengthUnit::Minutes, "5"),
            term(LengthUnit::Seconds, "7"),
            term(LengthUnit::Minutes, ""),
            term(LengthUnit::Seconds, "x"),
        ]
    );
}

#[test]
fn parse_length_keeps_the_other_unit_letter() {
    assert_eq!(
        parse_length("3sm 4ms"),
        vec![term(LengthUnit::Minutes, "3s"), term(LengthUnit::Seconds, "4m")]
    );
}

#[test]
fn minutes_skip_numerals_that_do_not_read() {
    assert!((minutes_of("xm 30s ym") - 0.5).abs() < 1e-9);
    assert!((minutes_of("1.5m") - 1.5).abs() < 1e-9);
}

#[test]
fn human_form_reads_back_as_its_terms() {
    assert_eq!(
        parse_length(&format_duration(1, 2, 3)),
        vec![term(LengthUnit::Minutes, "62"), term(LengthUnit::Seconds, "3")]
    );
    assert_eq!(parse_length(&format_duration(0, 0, 9)), vec![term(LengthUnit::Seconds, "9")]);
    assert_eq!(parse_length(&format_duration(0, 0, 0)), vec![term(LengthUnit::Seconds, "0")]);
}
