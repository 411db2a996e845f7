use database_manager::night::{month_prefix_bytes, night_in_month, Night, SleepsInRangeInput};

#[test]
fn parses_a_night() {
    let n = Night::from_string(String::from("2022-11-24")).unwrap();
    assert_eq!((n.year, n.month, n.day), (2022, 11, 24));
    assert_eq!(n.date, "2022-11-24");
}

#[test]
fn rejects_malformed_nights() {
    assert!(Night::from_string(String::from("2022-11")).is_none());
    assert!(Night::from_string(String::from("2022-11-24-1")).is_none());
    assert!(Night::from_string(String::from("2022--24")).is_none());
    assert!(Night::from_string(String::from("2022-1x-24")).is_none());
    assert!(Night::from_string(String::from("")).is_none());
    assert!(Night::from_string(String::from("2022-256-01")).is_none());
    assert!(Night::from_string(String::from("70000-01-01")).is_none());
}

#[test]
fn range_compares_whole_dates() {
    let n = Night::from_string(String::from("2022-11-24")).unwrap();
    let start = SleepsInRangeInput { month: 11, year: 2022, day: Some(20) };
    let end = SleepsInRangeInput { month: 12, year: 2022, day: Some(23) };
    assert!(n.in_date_range(&start, &end));
    let late_start = SleepsInRangeInput { month: 11, year: 2022, day: Some(25) };
    assert!(!n.in_date_range(&late_start, &end));
    let early_end = SleepsInRangeInput { month: 11, year: 2022, day: Some(23) };
    assert!(!n.in_date_range(&start, &early_end));
    let open_end = SleepsInRangeInput { month: 11, year: 2022, day: None };
    assert!(n.in_date_range(&late_start, &open_end));
    let next_year = SleepsInRangeInput { month: 11, year: 2023, day: None };
    assert!(!n.in_date_range(&next_year, &next_year));
}

#[test]
fn range_spans_a_new_year() {
    let dec = Night::from_string(String::from("2022-12-15")).unwrap();
    let start = SleepsInRangeInput { month: 11, year: 2022, day: None };
    let end = SleepsInRangeInput { month: 2, year: 2023, day: None };
    assert!(dec.in_date_range(&start, &end));
    let jan = Night::from_string(String::from("2023-01-31")).unwrap();
    assert!(jan.in_date_range(&start, &end));
    let mar = Night::from_string(String::from("2023-03-01")).unwrap();
    assert!(!mar.in_date_range(&start, &end));
    let oct = Night::from_string(String::from("2022-10-31")).unwrap();
    assert!(!oct.in_date_range(&start, &end));
}

#[test]
fn month_prefix_is_padded() {
    assert_eq!(month_prefix_bytes(1, 2022), b"2022-01".to_vec());
    assert_eq!(month_prefix_bytes(11, 2022), b"2022-11".to_vec());
    assert!(night_in_month("2022-11-24", 11, 2022));
    assert!(!night_in_month("2022-11-24", 1, 2022));
    assert!(!night_in_month("2022-11-24", 11, 2023));
}
