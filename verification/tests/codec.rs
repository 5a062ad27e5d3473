use airflights::flights::{Airport, FlightData, Passenger, Seat, Tfs, Trip};
use airflights::wire::DecodeError;

fn s(x: &str) -> String {
    x.to_string()
}

fn full_query() -> Tfs {
    Tfs {
        data: vec![FlightData {
            date: s("2024-01-01"),
            from: Some(Airport { name: s("JFK") }),
            to: Some(Airport { name: s("LAX") }),
        }],
        seat: Seat::ECONOMY,
        passengers: vec![Passenger::ADULT],
        trip: Trip::ONE_WAY,
    }
}

#[test]
fn encode_empty_query_is_empty() {
    let t = Tfs::default();
    assert_eq!(t.encode(), Vec::<u8>::new());
    assert_eq!(t.get_size(), 0);
}

#[test]
fn encode_full_query_exact_bytes() {
    let expected: Vec<u8> = vec![
        26, 26, 18, 10, 50, 48, 50, 52, 45, 48, 49, 45, 48, 49, 106, 5, 18, 3, 74, 70, 75, 114, 5,
        18, 3, 76, 65, 88, 66, 1, 1, 152, 1, 2,
    ];
    assert_eq!(full_query().encode(), expected);
}

#[test]
fn encode_seat_record_exact() {
    let t = Tfs { seat: Seat::BUSINESS, ..Tfs::default() };
    assert_eq!(t.encode(), vec![72, 3]);
}

#[test]
fn encode_trip_record_exact() {
    let t = Tfs { trip: Trip::MULTI_CITY, ..Tfs::default() };
    assert_eq!(t.encode(), vec![152, 1, 3]);
}

#[test]
fn encode_packed_passengers_single_record() {
    let t = Tfs {
        passengers: vec![Passenger::ADULT, Passenger::CHILD, Passenger::ADULT],
        ..Tfs::default()
    };
    assert_eq!(t.encode(), vec![66, 3, 1, 2, 1]);
}

#[test]
fn encode_long_passenger_list_two_byte_length() {
    let t = Tfs { passengers: vec![Passenger::ADULT; 200], ..Tfs::default() };
    let b = t.encode();
    assert_eq!(b.len(), 203);
    assert_eq!(&b[..4], &[66, 200, 1, 1]);
}

#[test]
fn airport_encode_exact() {
    let a = Airport { name: s("JFK") };
    let mut out = Vec::new();
    a.write_message(&mut out);
    assert_eq!(out, vec![18, 3, 74, 70, 75]);
    assert_eq!(a.get_size(), 5);
}

#[test]
fn airport_empty_name_elided() {
    let a = Airport::default();
    let mut out = Vec::new();
    a.write_message(&mut out);
    assert_eq!(out, Vec::<u8>::new());
    assert_eq!(a.get_size(), 0);
}

#[test]
fn flight_get_size_matches_encoding() {
    let f = FlightData {
        date: s("2024-05-06"),
        from: Some(Airport { name: s("CDG") }),
        to: None,
    };
    let mut out = Vec::new();
    f.write_message(&mut out);
    assert_eq!(f.get_size(), out.len());
}

#[test]
fn decode_empty_buffer_yields_defaults() {
    let t = Tfs::from_reader(&[]).unwrap();
    assert_eq!(t, Tfs::default());
    assert_eq!(t.seat, Seat::ECONOMY);
    assert_eq!(t.trip, Trip::ROUND_TRIP);
    assert!(t.data.is_empty());
    assert!(t.passengers.is_empty());
}

#[test]
fn round_trip_full_query() {
    let t = full_query();
    let decoded = Tfs::from_reader(&t.encode()).unwrap();
    assert_eq!(decoded, t);
}

#[test]
fn round_trip_every_enum_variant() {
    for seat in [Seat::ECONOMY, Seat::PREMIUM_ECONOMY, Seat::BUSINESS, Seat::FIRST] {
        for trip in [Trip::ROUND_TRIP, Trip::ONE_WAY, Trip::MULTI_CITY] {
            for p in [
                Passenger::ADULT,
                Passenger::CHILD,
                Passenger::INFANT_IN_SEAT,
                Passenger::INFANT_ON_LAP,
            ] {
                let t = Tfs { data: vec![], seat, passengers: vec![p], trip };
                assert_eq!(Tfs::from_reader(&t.encode()).unwrap(), t);
            }
        }
    }
}

#[test]
fn round_trip_leg_counts_zero_to_four() {
    for n in 0..5 {
        let legs: Vec<FlightData> = (0..n)
            .map(|i| FlightData {
                date: format!("2024-01-0{}", i + 1),
                from: Some(Airport { name: s("AAA") }),
                to: Some(Airport { name: s("BBB") }),
            })
            .collect();
        let t = Tfs { data: legs, ..Tfs::default() };
        assert_eq!(Tfs::from_reader(&t.encode()).unwrap(), t);
    }
}

#[test]
fn leg_order_preserved() {
    let legs: Vec<FlightData> = ["A", "B", "C"]
        .iter()
        .map(|d| FlightData { date: s(d), from: None, to: None })
        .collect();
    let t = Tfs { data: legs, ..Tfs::default() };
    let b = t.encode();
    assert_eq!(b, vec![26, 3, 18, 1, 65, 26, 3, 18, 1, 66, 26, 3, 18, 1, 67]);
    let decoded = Tfs::from_reader(&b).unwrap();
    let dates: Vec<&str> = decoded.data.iter().map(|f| f.date.as_str()).collect();
    assert_eq!(dates, vec!["A", "B", "C"]);
}

#[test]
fn unknown_varint_field_skipped() {
    // Field 1 (not in the schema), wire type 0, value 5; then the date.
    let buf = [8u8, 5, 18, 10, 50, 48, 50, 52, 45, 48, 49, 45, 48, 49];
    let f = FlightData::from_reader(&buf).unwrap();
    assert_eq!(f.date, s("2024-01-01"));
    assert_eq!(f.from, None);
    assert_eq!(f.to, None);
}

#[test]
fn unknown_length_delimited_field_skipped() {
    // Field 15 (not in the schema), wire type 2, two payload bytes; then the date.
    let buf = [122u8, 2, 0xaa, 0xbb, 18, 1, 65];
    let f = FlightData::from_reader(&buf).unwrap();
    assert_eq!(f.date, s("A"));
}

#[test]
fn unknown_enum_values_decode_to_defaults() {
    let t = Tfs::from_reader(&[72, 99]).unwrap();
    assert_eq!(t.seat, Seat::ECONOMY);
    let t = Tfs::from_reader(&[152, 1, 7]).unwrap();
    assert_eq!(t.trip, Trip::ROUND_TRIP);
    let t = Tfs::from_reader(&[66, 1, 9]).unwrap();
    assert_eq!(t.passengers, vec![Passenger::ADULT]);
}

#[test]
fn later_packed_record_replaces_earlier() {
    let t = Tfs::from_reader(&[66, 1, 1, 66, 1, 2]).unwrap();
    assert_eq!(t.passengers, vec![Passenger::CHILD]);
}

#[test]
fn decode_truncated_varint_fails() {
    assert_eq!(Tfs::from_reader(&[0x80]), Err(DecodeError::MalformedInput));
}

#[test]
fn decode_length_past_end_fails() {
    assert_eq!(Tfs::from_reader(&[26, 5, 18]), Err(DecodeError::MalformedInput));
}

#[test]
fn decode_invalid_utf8_fails() {
    assert_eq!(FlightData::from_reader(&[18, 2, 0xc3, 0x28]), Err(DecodeError::MalformedInput));
    assert_eq!(Airport::from_reader(&[18, 1, 0xff]), Err(DecodeError::MalformedInput));
}

#[test]
fn decode_unsupported_wire_type_fails() {
    // Field 1 with wire type 3 is outside the grammar.
    assert_eq!(Tfs::from_reader(&[11]), Err(DecodeError::MalformedInput));
}

#[test]
fn enum_from_wire_values() {
    assert_eq!(Seat::from(1), Seat::ECONOMY);
    assert_eq!(Seat::from(4), Seat::FIRST);
    assert_eq!(Seat::from(99), Seat::ECONOMY);
    assert_eq!(Trip::from(2), Trip::ONE_WAY);
    assert_eq!(Trip::from(-1), Trip::ROUND_TRIP);
    assert_eq!(Passenger::from(3), Passenger::INFANT_IN_SEAT);
    assert_eq!(Passenger::from(0), Passenger::ADULT);
}

#[test]
fn nested_empty_airport_round_trips() {
    let t = Tfs {
        data: vec![FlightData {
            date: s(""),
            from: Some(Airport { name: s("") }),
            to: None,
        }],
        ..Tfs::default()
    };
    let b = t.encode();
    // One leg record whose payload is a single empty origin record.
    assert_eq!(b, vec![26, 2, 106, 0]);
    assert_eq!(Tfs::from_reader(&b).unwrap(), t);
}
