use sbs1::{parse, DateTime, SBS1Message};
use sbs1::message::parse_with_timestamp;

const FULL_RECORD: &str = "MSG,3,1,1,A1B2C3,1,2024/01/15,12:30:45,2024/01/15,12:30:45,UAL123,35000,450.5,180.0,40.7128,-74.0060,0,1200,0,0,0,0";

#[test]
fn rejects_non_msg_record() {
    assert!(parse("SEL,1,1,1,A1B2C3,1,,,,,,,,,,,,,,,").is_none());
    assert!(parse("STA,1,1,1,A1B2C3,1").is_none());
    assert!(parse("").is_none());
    assert!(parse("msg,3").is_none());
    assert!(parse("MSG2,3").is_none());
    assert!(parse(" MSG ,3").is_none());
}

#[test]
fn accepts_any_msg_record() {
    assert!(parse("MSG").is_some());
    assert!(parse("MSG,").is_some());
    assert!(parse("  MSG,garbage,everywhere,???  ").is_some());
    assert!(parse(FULL_RECORD).is_some());
}

#[test]
fn full_record_decodes_field_for_field() {
    let m = parse(FULL_RECORD).expect("record must decode");
    assert_eq!(m.message_type.as_deref(), Some("MSG"));
    assert_eq!(m.transmission_type, Some(3));
    assert_eq!(m.session_id.as_deref(), Some("1"));
    assert_eq!(m.aircraft_id.as_deref(), Some("1"));
    assert_eq!(m.icao24.as_deref(), Some("A1B2C3"));
    assert_eq!(m.flight_id.as_deref(), Some("1"));
    let expected = DateTime { year: 2024, month: 1, day: 15, hour: 12, minute: 30, second: 45 };
    assert_eq!(m.generated_date, Some(expected));
    assert_eq!(m.logged_date, Some(expected));
    assert_eq!(m.callsign.as_deref(), Some("UAL123"));
    assert_eq!(m.altitude, Some(35000));
    assert_eq!(m.ground_speed.as_deref(), Some("450.5"));
    assert_eq!(m.track.as_deref(), Some("180.0"));
    let lat: f32 = m.lat.as_deref().expect("lat present").parse().unwrap();
    let lon: f32 = m.lon.as_deref().expect("lon present").parse().unwrap();
    assert!((lat - 40.7128).abs() < 1e-4);
    assert!((lon - -74.0060).abs() < 1e-4);
    assert_eq!(m.vertical_rate, Some(0));
    assert_eq!(m.squawk, Some(1200));
    assert_eq!(m.alert, Some(false));
    assert_eq!(m.emergency, Some(false));
    assert_eq!(m.spi, Some(false));
    assert_eq!(m.on_ground, Some(false));
}

type FieldTuple = (
    (
        Option<String>,
        Option<i32>,
        Option<String>,
        Option<String>,
        Option<String>,
        Option<String>,
        Option<DateTime>,
        Option<DateTime>,
        Option<String>,
        Option<i32>,
    ),
    (
        Option<String>,
        Option<String>,
        Option<String>,
        Option<String>,
        Option<i32>,
        Option<i32>,
        Option<bool>,
        Option<bool>,
        Option<bool>,
        Option<bool>,
    ),
);

fn fields_except_timestamp(m: &SBS1Message) -> FieldTuple {
    (
        (
            m.message_type.clone(),
            m.transmission_type,
            m.session_id.clone(),
            m.aircraft_id.clone(),
            m.icao24.clone(),
            m.flight_id.clone(),
            m.generated_date,
            m.logged_date,
            m.callsign.clone(),
            m.altitude,
        ),
        (
            m.ground_speed.clone(),
            m.track.clone(),
            m.lat.clone(),
            m.lon.clone(),
            m.vertical_rate,
            m.squawk,
            m.alert,
            m.emergency,
            m.spi,
            m.on_ground,
        ),
    )
}

#[test]
fn decoding_twice_agrees_on_everything_but_timestamp() {
    let m1 = parse(FULL_RECORD).unwrap();
    let m2 = parse(FULL_RECORD).unwrap();
    assert_eq!(fields_except_timestamp(&m1), fields_except_timestamp(&m2));
    let m3 = parse_with_timestamp(FULL_RECORD, 1).unwrap();
    let m4 = parse_with_timestamp(FULL_RECORD, 2).unwrap();
    assert_eq!(fields_except_timestamp(&m3), fields_except_timestamp(&m4));
    assert_ne!(m3.timestamp, m4.timestamp);
}

#[test]
fn callsign_is_trimmed_and_blank_is_absent() {
    let m = parse("MSG,3,1,1,A1B2C3,1,,,,,UAL123  ,,,,,,,,,,,").unwrap();
    assert_eq!(m.callsign.as_deref(), Some("UAL123"));
    let m = parse("MSG,3,1,1,A1B2C3,1,,,,,    ,,,,,,,,,,,").unwrap();
    assert_eq!(m.callsign, None);
    let m = parse("MSG,3,1,1,A1B2C3,1,,,,,,,,,,,,,,,,").unwrap();
    assert_eq!(m.callsign, None);
}

#[test]
fn session_fields_keep_empty_strings() {
    // unlike the callsign, identifier fields keep an empty string as present
    let m = parse("MSG,,,,,,,,,,,,,,,,,,,,,").unwrap();
    assert_eq!(m.session_id.as_deref(), Some(""));
    assert_eq!(m.aircraft_id.as_deref(), Some(""));
    assert_eq!(m.icao24.as_deref(), Some(""));
    assert_eq!(m.flight_id.as_deref(), Some(""));
    // while a missing position is absent
    let m = parse("MSG,3").unwrap();
    assert_eq!(m.session_id, None);
    assert_eq!(m.icao24, None);
}

#[test]
fn coercion_failures_leave_fields_absent_without_rejecting() {
    let m = parse("MSG,zzz,1,1,A1B2C3,1,junk,junk,,,,not-an-int,not-a-float,,,,,,yes,,,").unwrap();
    assert_eq!(m.transmission_type, None);
    assert_eq!(m.generated_date, None);
    assert_eq!(m.altitude, None);
    assert_eq!(m.ground_speed, None);
    assert_eq!(m.alert, None);
    assert_eq!(m.icao24.as_deref(), Some("A1B2C3"));
}

#[test]
fn line_is_trimmed_before_splitting() {
    let m = parse("  MSG,3,1,1,A1B2C3,1,,,,,,,,,,,,,,,,\r\n").unwrap();
    assert_eq!(m.transmission_type, Some(3));
    assert_eq!(m.on_ground, None);
}

#[test]
fn timestamp_is_the_given_nanos_in_decimal() {
    let m = parse_with_timestamp("MSG", 1234567890123456789).unwrap();
    assert_eq!(m.timestamp, "1234567890123456789");
    let m = parse_with_timestamp("MSG", 0).unwrap();
    assert_eq!(m.timestamp, "0");
}

#[test]
fn timestamp_from_clock_is_decimal_digits() {
    let m = parse("MSG").unwrap();
    assert!(!m.timestamp.is_empty());
    assert!(m.timestamp.chars().all(|c| c.is_ascii_digit()));
    // no leading zero unless the value is zero itself
    if m.timestamp.len() > 1 {
        assert!(!m.timestamp.starts_with('0'));
    }
}
