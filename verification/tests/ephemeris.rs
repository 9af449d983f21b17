use apollo18_renderer::ephemeris::{parse_timestamp, validate_hourly_records, EphemerisError};

const FIRST_HOUR_OF_2026: i64 = 1_767_225_600;

fn times(items: &[&str]) -> Vec<String> {
    items.iter().map(|item| item.to_string()).collect()
}

#[test]
fn nasa_times_parse_as_unix_timestamps() {
    assert_eq!(parse_timestamp("01 Jan 2026 00:00 UT"), Ok(FIRST_HOUR_OF_2026));
    assert_eq!(parse_timestamp("01 Jan 2026 01:00 UT"), Ok(FIRST_HOUR_OF_2026 + 3_600));
    assert_eq!(parse_timestamp("02 Jan 2026 00:00 UT"), Ok(FIRST_HOUR_OF_2026 + 86_400));
}

#[test]
fn nasa_times_must_fall_on_the_hour() {
    assert_eq!(
        parse_timestamp("01 Jan 2026 00:30 UT"),
        Err("time must fall on an exact hour")
    );
    assert_eq!(
        parse_timestamp("2026-01-01T00:00:00Z"),
        Err("time must use the NASA `DD Mon YYYY HH:00 UT` format")
    );
}

#[test]
fn validated_records_yield_the_first_timestamp() {
    let records = times(&["01 Jan 2026 00:00 UT", "01 Jan 2026 01:00 UT", "01 Jan 2026 02:00 UT"]);
    assert_eq!(validate_hourly_records(&records, &vec![None; 3]), Ok(FIRST_HOUR_OF_2026));
    let single = times(&["01 Jan 2026 00:00 UT"]);
    assert_eq!(validate_hourly_records(&single, &vec![None]), Ok(FIRST_HOUR_OF_2026));
}

#[test]
fn empty_record_lists_are_refused() {
    assert_eq!(validate_hourly_records(&Vec::new(), &Vec::new()), Err(EphemerisError::EmptyData));
}

#[test]
fn repeated_and_irregular_timestamps_are_refused() {
    let repeated = times(&["01 Jan 2026 00:00 UT", "01 Jan 2026 00:00 UT"]);
    assert_eq!(
        validate_hourly_records(&repeated, &vec![None; 2]),
        Err(EphemerisError::DuplicateTimestamp { index: 1 })
    );
    let skipped = times(&["01 Jan 2026 00:00 UT", "01 Jan 2026 01:00 UT", "01 Jan 2026 03:00 UT"]);
    assert_eq!(
        validate_hourly_records(&skipped, &vec![None; 3]),
        Err(EphemerisError::NonHourlyTimestamp { index: 2 })
    );
}

#[test]
fn the_first_invalid_record_is_reported_before_spacing() {
    let records = times(&["01 Jan 2026 05:00 UT", "01 Jan 2026 00:00 UT", "bad", "01 Jan 2026 07:00 UT"]);
    let problems = vec![None, Some("lunar latitude must be finite and between -90 and 90 degrees"), None, None];
    assert_eq!(
        validate_hourly_records(&records, &problems),
        Err(EphemerisError::InvalidRecord {
            index: 1,
            reason: "lunar latitude must be finite and between -90 and 90 degrees"
        })
    );
    assert_eq!(
        validate_hourly_records(&records, &vec![None; 4]),
        Err(EphemerisError::InvalidRecord {
            index: 2,
            reason: "time must use the NASA `DD Mon YYYY HH:00 UT` format"
        })
    );
}

#[test]
fn ephemeris_errors_describe_themselves() {
    assert_eq!(
        EphemerisError::InvalidJson("expected value".to_string()).to_string(),
        "invalid NASA lunar ephemeris JSON: expected value"
    );
    assert_eq!(EphemerisError::EmptyData.to_string(), "NASA lunar ephemeris has no hourly records");
    assert_eq!(
        EphemerisError::InvalidRecord { index: 12, reason: "time must fall on an exact hour" }
            .to_string(),
        "invalid NASA lunar ephemeris record 12: time must fall on an exact hour"
    );
    assert_eq!(
        EphemerisError::DuplicateTimestamp { index: 3 }.to_string(),
        "duplicate NASA lunar ephemeris timestamp at record 3"
    );
    assert_eq!(
        EphemerisError::NonHourlyTimestamp { index: 40 }.to_string(),
        "NASA lunar ephemeris record 40 is not the next hourly sample"
    );
}

fn record_times(source: &[u8]) -> Vec<String> {
    let records: serde_json::Value = serde_json::from_slice(source).expect("source should be JSON");
    records
        .as_array()
        .expect("records should form an array")
        .iter()
        .map(|record| record["time"].as_str().expect("time should be text").to_string())
        .collect()
}

fn validate_json_times(source: &[u8]) -> Result<i64, EphemerisError> {
    let times = record_times(source);
    let problems = vec![None; times.len()];
    validate_hourly_records(&times, &problems)
}

#[test]
fn accepts_single_record() {
    let source = br#"[
        {"time":"01 Jan 2026 00:00 UT","subsolar":{"lon":0.0,"lat":0.0},"subearth":{"lon":0.0,"lat":0.0},"posangle":0.0}
    ]"#;

    let result = validate_json_times(source);

    assert!(result.is_ok());
}

#[test]
fn rejects_empty_data() {
    let source = br#"[]"#;

    let result = validate_json_times(source);

    assert!(matches!(result, Err(EphemerisError::EmptyData)));
}

#[test]
fn rejects_duplicate_timestamps() {
    let source = br#"[
        {"time":"01 Jan 2026 00:00 UT","subsolar":{"lon":0.0,"lat":0.0},"subearth":{"lon":0.0,"lat":0.0},"posangle":0.0},
        {"time":"01 Jan 2026 00:00 UT","subsolar":{"lon":1.0,"lat":1.0},"subearth":{"lon":1.0,"lat":1.0},"posangle":0.0}
    ]"#;

    let result = validate_json_times(source);

    assert!(matches!(result, Err(EphemerisError::DuplicateTimestamp { index: 1 })));
}

#[test]
fn rejects_non_hourly_timestamps() {
    let source = br#"[
        {"time":"01 Jan 2026 00:00 UT","subsolar":{"lon":0.0,"lat":0.0},"subearth":{"lon":0.0,"lat":0.0},"posangle":0.0},
        {"time":"01 Jan 2026 02:00 UT","subsolar":{"lon":1.0,"lat":1.0},"subearth":{"lon":1.0,"lat":1.0},"posangle":0.0}
    ]"#;

    let result = validate_json_times(source);

    assert!(matches!(result, Err(EphemerisError::NonHourlyTimestamp { index: 1 })));
}
