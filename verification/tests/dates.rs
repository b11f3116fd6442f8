use bis::date::{Date, DateError};

#[test]
fn encode_pads_to_fixed_width() {
    let d = Date::new(987, 6, 5).expect("valid");
    assert_eq!(d.encode(), "0987-06-05");
}

#[test]
fn encode_example_date() {
    let d = Date::new(2024, 8, 22).expect("valid");
    assert_eq!(d.encode(), "2024-08-22");
}

#[test]
fn decode_inverts_encode() {
    let samples = [
        (1965, 8, 1),
        (2024, 8, 22),
        (0, 1, 1),
        (9999, 12, 31),
        (2024, 2, 29),
        (2000, 2, 29),
    ];
    for (y, m, d) in samples {
        let date = Date::new(y, m, d).expect("valid");
        assert_eq!(Date::decode(&date.encode()), Ok(date));
    }
}

#[test]
fn decode_rejects_impossible_dates() {
    assert_eq!(Date::decode("2024-13-40"), Err(DateError::InvalidFormat));
    assert_eq!(Date::decode("2024-00-10"), Err(DateError::InvalidFormat));
    assert_eq!(Date::decode("2024-04-31"), Err(DateError::InvalidFormat));
    assert_eq!(Date::decode("2023-02-29"), Err(DateError::InvalidFormat));
    assert_eq!(Date::decode("1900-02-29"), Err(DateError::InvalidFormat));
}

#[test]
fn decode_rejects_malformed_text() {
    assert_eq!(Date::decode("not-a-date"), Err(DateError::InvalidFormat));
    assert_eq!(Date::decode(""), Err(DateError::InvalidFormat));
    assert_eq!(Date::decode("2024-8-22"), Err(DateError::InvalidFormat));
    assert_eq!(Date::decode("2024/08/22"), Err(DateError::InvalidFormat));
    assert_eq!(Date::decode("2024-08-223"), Err(DateError::InvalidFormat));
    assert_eq!(Date::decode("20x4-08-22"), Err(DateError::InvalidFormat));
}

#[test]
fn leap_year_rules_decide_february() {
    assert!(Date::new(2024, 2, 29).is_some());
    assert!(Date::new(2000, 2, 29).is_some());
    assert!(Date::new(1900, 2, 29).is_none());
    assert!(Date::new(2023, 2, 29).is_none());
}

#[test]
fn new_rejects_out_of_range_fields() {
    assert!(Date::new(-1, 1, 1).is_none());
    assert!(Date::new(10000, 1, 1).is_none());
    assert!(Date::new(2024, 0, 1).is_none());
    assert!(Date::new(2024, 13, 1).is_none());
    assert!(Date::new(2024, 1, 0).is_none());
    assert!(Date::new(2024, 1, 32).is_none());
}
