use sat_tracker::tle::{element_record, is_elements_file, launch_year, not_updated};

#[test]
fn refresh_after_an_hour_or_without_record() {
    assert!(not_updated(None));
    assert!(!not_updated(Some(0)));
    assert!(!not_updated(Some(3_600_000_000_000)));
    assert!(not_updated(Some(3_600_000_000_001)));
    assert!(!not_updated(Some(-5)));
}

#[test]
fn json_entries_are_recognised() {
    assert!(is_elements_file("\"/opt/app/satellites/25544.json\""));
    assert!(!is_elements_file("\"/opt/app/satellites/time.txt\""));
}

#[test]
fn record_is_cut_after_the_first_brace() {
    assert_eq!(element_record("{\n  \"a\": 1\n}\n}"), "{\n  \"a\": 1\n}");
    assert_eq!(element_record("}"), "}");
    assert_eq!(element_record("{}"), "{}");
}

#[test]
fn record_cut_counts_bytes_as_chars() {
    // the offset of `}` is 3 bytes, taken as 3 characters, plus one
    assert_eq!(element_record("é{}xyz"), "é{}x");
}

#[test]
fn launch_year_is_the_designator_prefix() {
    assert_eq!(launch_year("1998-067A"), "1998");
    assert_eq!(launch_year("2024"), "2024");
    assert_eq!(launch_year("é12x"), "é12");
}
