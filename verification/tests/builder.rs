use airflights::flights::Tfs as TfsMsg;
use airflights::flights::{Passenger, Seat, Trip};
use airflights::tfs::{make_tfs, BuildError};

fn s(x: &str) -> String {
    x.to_string()
}

fn leg(pairs: &[(&str, &str)]) -> Vec<(String, String)> {
    pairs.iter().map(|(k, v)| (s(k), s(v))).collect()
}

#[test]
fn build_full_query_exact_bytes() {
    let t = make_tfs(
        vec![leg(&[("date", "2024-01-01"), ("from", "JFK"), ("to", "LAX")])],
        s("economy"),
        vec![s("adult")],
        s("one_way"),
    )
    .unwrap();
    let expected: Vec<u8> = vec![
        26, 26, 18, 10, 50, 48, 50, 52, 45, 48, 49, 45, 48, 49, 106, 5, 18, 3, 74, 70, 75, 114, 5,
        18, 3, 76, 65, 88, 66, 1, 1, 152, 1, 2,
    ];
    assert_eq!(t.bytes(), &expected);
}

#[test]
fn build_decodes_back_to_typed_values() {
    let t = make_tfs(
        vec![leg(&[("date", "2024-02-03"), ("from", "SFO"), ("to", "NRT")])],
        s("premium_economy"),
        vec![s("adult"), s("infant_on_lap")],
        s("multi_city"),
    )
    .unwrap();
    let msg = TfsMsg::from_reader(t.bytes()).unwrap();
    assert_eq!(msg.data.len(), 1);
    assert_eq!(msg.data[0].date, s("2024-02-03"));
    assert_eq!(msg.data[0].from.as_ref().unwrap().name, s("SFO"));
    assert_eq!(msg.data[0].to.as_ref().unwrap().name, s("NRT"));
    assert_eq!(msg.seat, Seat::PREMIUM_ECONOMY);
    assert_eq!(msg.passengers, vec![Passenger::ADULT, Passenger::INFANT_ON_LAP]);
    assert_eq!(msg.trip, Trip::MULTI_CITY);
}

#[test]
fn packed_passengers_exact_record() {
    let t = make_tfs(
        vec![],
        s("economy"),
        vec![s("adult"), s("child"), s("adult")],
        s("round_trip"),
    )
    .unwrap();
    assert_eq!(t.bytes(), &vec![66u8, 3, 1, 2, 1]);
}

#[test]
fn default_fields_contribute_no_bytes() {
    let all_default = make_tfs(vec![], s("economy"), vec![], s("round_trip")).unwrap();
    assert_eq!(all_default.bytes().len(), 0);
    let with_seat = make_tfs(vec![], s("business"), vec![], s("round_trip")).unwrap();
    assert_eq!(with_seat.bytes().len(), 2);
    let one_leg = vec![leg(&[("date", "2024-01-01")])];
    let legs_only = make_tfs(one_leg.clone(), s("economy"), vec![], s("round_trip")).unwrap();
    let legs_and_trip = make_tfs(one_leg, s("economy"), vec![], s("one_way")).unwrap();
    assert_eq!(legs_and_trip.bytes().len(), legs_only.bytes().len() + 3);
    assert_eq!(&legs_and_trip.bytes()[..legs_only.bytes().len()], &legs_only.bytes()[..]);
}

#[test]
fn rejects_wrong_case_seat_name() {
    let r = make_tfs(
        vec![leg(&[("date", "2024-01-01"), ("from", "JFK"), ("to", "LAX")])],
        s("Economy"),
        vec![s("adult")],
        s("one_way"),
    );
    assert_eq!(
        r.err().unwrap(),
        BuildError::UnknownEnumValue { field: s("seat"), value: s("Economy") }
    );
}

#[test]
fn rejects_unknown_leg_key() {
    let r = make_tfs(
        vec![leg(&[("date", "2024-01-01"), ("origin", "JFK")])],
        s("economy"),
        vec![s("adult")],
        s("one_way"),
    );
    assert_eq!(r.err().unwrap(), BuildError::UnknownFieldName { name: s("origin") });
}

#[test]
fn rejects_unknown_passenger_name() {
    let r = make_tfs(vec![], s("economy"), vec![s("adult"), s("pet")], s("one_way"));
    assert_eq!(
        r.err().unwrap(),
        BuildError::UnknownEnumValue { field: s("passenger"), value: s("pet") }
    );
}

#[test]
fn rejects_unknown_trip_name() {
    let r = make_tfs(vec![], s("economy"), vec![], s("open_jaw"));
    assert_eq!(
        r.err().unwrap(),
        BuildError::UnknownEnumValue { field: s("trip"), value: s("open_jaw") }
    );
}

#[test]
fn bad_leg_key_reported_before_bad_seat() {
    let r = make_tfs(vec![leg(&[("when", "2024-01-01")])], s("Economy"), vec![], s("one_way"));
    assert_eq!(r.err().unwrap(), BuildError::UnknownFieldName { name: s("when") });
}

#[test]
fn later_duplicate_key_wins() {
    let t = make_tfs(
        vec![leg(&[("date", "2024-01-01"), ("date", "2024-09-09")])],
        s("economy"),
        vec![],
        s("round_trip"),
    )
    .unwrap();
    let msg = TfsMsg::from_reader(t.bytes()).unwrap();
    assert_eq!(msg.data[0].date, s("2024-09-09"));
}

#[test]
fn base64_text_exact() {
    let t = make_tfs(
        vec![],
        s("economy"),
        vec![s("adult"), s("child"), s("adult")],
        s("round_trip"),
    )
    .unwrap();
    assert_eq!(t.base64(), s("QgMBAgE="));
}

#[test]
fn base64_text_decodes_back_to_bytes() {
    let queries = vec![
        make_tfs(
            vec![leg(&[("date", "2024-01-01"), ("from", "JFK"), ("to", "LAX")])],
            s("economy"),
            vec![s("adult")],
            s("one_way"),
        )
        .unwrap(),
        make_tfs(vec![], s("first"), vec![s("child")], s("multi_city")).unwrap(),
        make_tfs(vec![], s("economy"), vec![], s("round_trip")).unwrap(),
    ];
    for t in queries {
        assert_eq!(&base64_light::base64_decode(&t.base64()), t.bytes());
    }
}

#[test]
fn base64_of_full_query_exact() {
    let t = make_tfs(
        vec![leg(&[("date", "2024-01-01"), ("from", "JFK"), ("to", "LAX")])],
        s("economy"),
        vec![s("adult")],
        s("one_way"),
    )
    .unwrap();
    assert_eq!(t.base64(), s("GhoSCjIwMjQtMDEtMDFqBRIDSkZLcgUSA0xBWEIBAZgBAg=="));
}

#[test]
fn debug_string_mentions_the_data() {
    let t = make_tfs(vec![], s("business"), vec![s("adult")], s("round_trip")).unwrap();
    let d = t.debug_string();
    assert!(d.contains("BUSINESS"));
    assert!(d.contains("bytes"));
}

#[test]
fn empty_leg_description_yields_default_leg() {
    let t = make_tfs(vec![leg(&[])], s("economy"), vec![], s("round_trip")).unwrap();
    let msg = TfsMsg::from_reader(t.bytes()).unwrap();
    assert_eq!(msg.data.len(), 1);
    assert_eq!(msg.data[0].date, s(""));
    assert_eq!(msg.data[0].from, None);
    assert_eq!(msg.data[0].to, None);
}
