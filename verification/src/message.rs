//! The decoded record and the line decoder.

use vstd::prelude::*;
use vstd::string::StringExecFns;
use crate::clock::current_nanos;
use crate::coerce::{
    bool_opt_of, float_text_of, int_opt_of, parse_bool, parse_float, parse_int, parse_string,
};
use crate::datetime::{date_time_of, parse_date_time, DateTime};
use crate::numfmt::{dec_str, u128_to_decimal};
use crate::text::{lemma_split_commas_nonempty, split_commas, split_commas_str, trim_str, trimmed};

verus! {

/// One decoded surveillance record. Every field but the timestamp is
/// optional: a position that is missing, empty (for typed fields) or fails
/// to coerce is absent. The timestamp is the wall-clock time of decoding in
/// decimal nanoseconds since the UNIX epoch; it comes from the clock, never
/// from the record. The four single-precision fields (`ground_speed`,
/// `track`, `lat`, `lon`) hold the field's text, kept only when it denotes
/// a floating-point value; the numeric reading belongs to serialization,
/// outside this library.
#[derive(Debug, Clone)]
pub struct SBS1Message {
    pub timestamp: String,
    pub message_type: Option<String>,
    pub transmission_type: Option<i32>,
    pub session_id: Option<String>,
    pub aircraft_id: Option<String>,
    pub icao24: Option<String>,
    pub flight_id: Option<String>,
    pub generated_date: Option<DateTime>,
    pub logged_date: Option<DateTime>,
    pub callsign: Option<String>,
    pub altitude: Option<i32>,
    pub ground_speed: Option<String>,
    pub track: Option<String>,
    pub lat: Option<String>,
    pub lon: Option<String>,
    pub vertical_rate: Option<i32>,
    pub squawk: Option<i32>,
    pub alert: Option<bool>,
    pub emergency: Option<bool>,
    pub spi: Option<bool>,
    pub on_ground: Option<bool>,
}

/// The comma-separated fields of a record line, after trimming the line.
pub open spec fn line_fields(line: Seq<char>) -> Seq<Seq<char>> {
    split_commas(trimmed(line))
}

/// The optional text at field position `i`.
pub open spec fn field_opt(fs: Seq<Seq<char>>, i: int) -> Option<Seq<char>> {
    if 0 <= i < fs.len() {
        Some(fs[i])
    } else {
        None
    }
}

/// A line is accepted exactly when its first field is the record marker
/// `MSG`; no other record kind is decoded.
pub open spec fn accepts(line: Seq<char>) -> bool {
    line_fields(line).len() > 0 && line_fields(line)[0] == "MSG"@
}

/// Callsign coercion: the text is trimmed, and a callsign that is empty or
/// blank after trimming is absent.
pub open spec fn callsign_of(o: Option<Seq<char>>) -> Option<Seq<char>> {
    match o {
        Some(s) => if trimmed(s).len() > 0 {
            Some(trimmed(s))
        } else {
            None
        },
        None => None,
    }
}

/// Every field of `m` except the timestamp holds exactly what the line
/// denotes at that field's fixed position.
pub open spec fn decoded_fields(m: SBS1Message, line: Seq<char>) -> bool {
    let fs = line_fields(line);
    &&& m.message_type.deep_view() == Some("MSG"@)
    &&& m.transmission_type == int_opt_of(field_opt(fs, 1))
    &&& m.session_id.deep_view() == field_opt(fs, 2)
    &&& m.aircraft_id.deep_view() == field_opt(fs, 3)
    &&& m.icao24.deep_view() == field_opt(fs, 4)
    &&& m.flight_id.deep_view() == field_opt(fs, 5)
    &&& m.generated_date == date_time_of(field_opt(fs, 6), field_opt(fs, 7))
    &&& m.logged_date == date_time_of(field_opt(fs, 8), field_opt(fs, 9))
    &&& m.callsign.deep_view() == callsign_of(field_opt(fs, 10))
    &&& m.altitude == int_opt_of(field_opt(fs, 11))
    &&& m.ground_speed.deep_view() == float_text_of(field_opt(fs, 12))
    &&& m.track.deep_view() == float_text_of(field_opt(fs, 13))
    &&& m.lat.deep_view() == float_text_of(field_opt(fs, 14))
    &&& m.lon.deep_view() == float_text_of(field_opt(fs, 15))
    &&& m.vertical_rate == int_opt_of(field_opt(fs, 16))
    &&& m.squawk == int_opt_of(field_opt(fs, 17))
    &&& m.alert == bool_opt_of(field_opt(fs, 18))
    &&& m.emergency == bool_opt_of(field_opt(fs, 19))
    &&& m.spi == bool_opt_of(field_opt(fs, 20))
    &&& m.on_ground == bool_opt_of(field_opt(fs, 21))
}

impl SBS1Message {
    /// A fresh message stamped with the given decode time, every other
    /// field absent.
    pub fn new(timestamp_nanos: u128) -> (m: SBS1Message)
        ensures
            m.timestamp@ == dec_str(timestamp_nanos as nat),
            m.message_type is None,
            m.transmission_type is None,
            m.session_id is None,
            m.aircraft_id is None,
            m.icao24 is None,
            m.flight_id is None,
            m.generated_date is None,
            m.logged_date is None,
            m.callsign is None,
            m.altitude is None,
            m.ground_speed is None,
            m.track is None,
            m.lat is None,
            m.lon is None,
            m.vertical_rate is None,
            m.squawk is None,
            m.alert is None,
            m.emergency is None,
            m.spi is None,
            m.on_ground is None,
    {
        SBS1Message {
            timestamp: u128_to_decimal(timestamp_nanos),
            message_type: None,
            transmission_type: None,
            session_id: None,
            aircraft_id: None,
            icao24: None,
            flight_id: None,
            generated_date: None,
            logged_date: None,
            callsign: None,
            altitude: None,
            ground_speed: None,
            track: None,
            lat: None,
            lon: None,
            vertical_rate: None,
            squawk: None,
            alert: None,
            emergency: None,
            spi: None,
            on_ground: None,
        }
    }
}

fn field_at<'a>(parts: &'a Vec<String>, i: usize) -> (r: Option<&'a str>)
    ensures
        r.deep_view() == field_opt(parts.deep_view(), i as int),
{
    if i < parts.len() {
        Some(parts[i].as_str())
    } else {
        None
    }
}

fn is_msg_marker(s: &str) -> (r: bool)
    ensures
        r == (s@ == "MSG"@),
{
    proof {
        reveal_strlit("MSG");
    }
    if s.unicode_len() == 3 {
        let r = s.get_char(0) == 'M' && s.get_char(1) == 'S' && s.get_char(2) == 'G';
        proof {
            if r {
                assert(s@ =~= "MSG"@);
            }
        }
        r
    } else {
        false
    }
}

fn parse_callsign(opt: Option<&str>) -> (r: Option<String>)
    ensures
        r.deep_view() == callsign_of(opt.deep_view()),
{
    match opt {
        Some(s) => {
            let t = trim_str(s);
            if t.unicode_len() > 0 {
                Some(String::from_str(t))
            } else {
                None
            }
        },
        None => None,
    }
}

/// Decodes one record line against the fixed field-position table, stamping
/// the message with the given decode time. The line is rejected exactly
/// when its first field is not `MSG`; once the marker matches, no field can
/// fail the decode — a field that cannot be coerced is simply absent.
pub fn parse_with_timestamp(msg: &str, timestamp_nanos: u128) -> (r: Option<SBS1Message>)
    ensures
        r is Some <==> accepts(msg@),
        r matches Some(m) ==> decoded_fields(m, msg@) && m.timestamp@ == dec_str(
            timestamp_nanos as nat,
        ),
{
    let t = trim_str(msg);
    let parts = split_commas_str(t);
    proof {
        lemma_split_commas_nonempty(t@);
        assert(parts.deep_view() == line_fields(msg@));
    }
    match field_at(&parts, 0) {
        None => {
            proof {
                assert(parts.deep_view().len() == 0);
            }
            None
        },
        Some(first) => {
            if is_msg_marker(first) {
                let mut m = SBS1Message::new(timestamp_nanos);
                m.message_type = Some(String::from_str("MSG"));
                m.transmission_type = parse_int(field_at(&parts, 1));
                m.session_id = parse_string(field_at(&parts, 2));
                m.aircraft_id = parse_string(field_at(&parts, 3));
                m.icao24 = parse_string(field_at(&parts, 4));
                m.flight_id = parse_string(field_at(&parts, 5));
                m.generated_date = parse_date_time(field_at(&parts, 6), field_at(&parts, 7));
                m.logged_date = parse_date_time(field_at(&parts, 8), field_at(&parts, 9));
                m.callsign = parse_callsign(field_at(&parts, 10));
                m.altitude = parse_int(field_at(&parts, 11));
                m.ground_speed = parse_float(field_at(&parts, 12));
                m.track = parse_float(field_at(&parts, 13));
                m.lat = parse_float(field_at(&parts, 14));
                m.lon = parse_float(field_at(&parts, 15));
                m.vertical_rate = parse_int(field_at(&parts, 16));
                m.squawk = parse_int(field_at(&parts, 17));
                m.alert = parse_bool(field_at(&parts, 18));
                m.emergency = parse_bool(field_at(&parts, 19));
                m.spi = parse_bool(field_at(&parts, 20));
                m.on_ground = parse_bool(field_at(&parts, 21));
                Some(m)
            } else {
                None
            }
        },
    }
}

/// Decodes one record line, stamping the message with the wall-clock time
/// of the call; the decoded fields depend on the line alone.
pub fn parse(msg: &str) -> (r: Option<SBS1Message>)
    ensures
        r is Some <==> accepts(msg@),
        r matches Some(m) ==> decoded_fields(m, msg@) && (exists|n: nat|
            m.timestamp@ == dec_str(n)),
{
    let now = current_nanos();
    let r = parse_with_timestamp(msg, now);
    proof {
        if r is Some {
            assert(r->Some_0.timestamp@ == dec_str(now as nat));
        }
    }
    r
}

/// Law: decoding is a function of the line alone. Two messages decoded from
/// the same line agree on every field except the timestamp.
pub proof fn lemma_decode_idempotent(line: Seq<char>, m1: SBS1Message, m2: SBS1Message)
    requires
        decoded_fields(m1, line),
        decoded_fields(m2, line),
    ensures
        m1.message_type.deep_view() == m2.message_type.deep_view(),
        m1.transmission_type == m2.transmission_type,
        m1.session_id.deep_view() == m2.session_id.deep_view(),
        m1.aircraft_id.deep_view() == m2.aircraft_id.deep_view(),
        m1.icao24.deep_view() == m2.icao24.deep_view(),
        m1.flight_id.deep_view() == m2.flight_id.deep_view(),
        m1.generated_date == m2.generated_date,
        m1.logged_date == m2.logged_date,
        m1.callsign.deep_view() == m2.callsign.deep_view(),
        m1.altitude == m2.altitude,
        m1.ground_speed.deep_view() == m2.ground_speed.deep_view(),
        m1.track.deep_view() == m2.track.deep_view(),
        m1.lat.deep_view() == m2.lat.deep_view(),
        m1.lon.deep_view() == m2.lon.deep_view(),
        m1.vertical_rate == m2.vertical_rate,
        m1.squawk == m2.squawk,
        m1.alert == m2.alert,
        m1.emergency == m2.emergency,
        m1.spi == m2.spi,
        m1.on_ground == m2.on_ground,
{
}

} // verus!
