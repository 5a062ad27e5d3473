//! The query builder: validates a loosely-typed query description against
//! the closed schema, assembles the typed query, and encodes it.
//!
//! A leg description is an ordered list of key/value pairs with keys limited
//! to `date`, `from` and `to`; seat, trip and passenger names are matched
//! case-sensitively against their closed enumerations.  Any other key or
//! name fails the whole build with a typed error.

use vstd::prelude::*;
use vstd::slice::slice_index_get;
use vstd::utf8::encode_utf8_decode_utf8;
use crate::flights;
use crate::flights::{
    Airport, FlightData, Seat, Trip, Passenger, AirportV, FlightDataV, TfsV, flight_v_default,
    tfs_enc,
};
use crate::b64::{base64_chars, encode_base64};

verus! {

/// A rejected build: either a leg description used a key outside the
/// schema, or a seat/trip/passenger name fell outside its closed
/// enumeration.
#[derive(Clone, Debug, PartialEq)]
pub enum BuildError {
    UnknownFieldName { name: String },
    UnknownEnumValue { field: String, value: String },
}

/// Mathematical model of a `BuildError`.
#[verifier::ext_equal]
pub enum BuildErrorV {
    UnknownFieldName { name: Seq<char> },
    UnknownEnumValue { field: Seq<char>, value: Seq<char> },
}

impl View for BuildError {
    type V = BuildErrorV;

    open spec fn view(&self) -> BuildErrorV {
        match self {
            BuildError::UnknownFieldName { name } => BuildErrorV::UnknownFieldName {
                name: name@,
            },
            BuildError::UnknownEnumValue { field, value } => BuildErrorV::UnknownEnumValue {
                field: field@,
                value: value@,
            },
        }
    }
}

/// The seat class a seat name denotes, if any; matching is exact and
/// case-sensitive.
pub open spec fn seat_of_name(s: Seq<char>) -> Option<Seat> {
    if s == "economy"@ {
        Some(Seat::ECONOMY)
    } else if s == "premium_economy"@ {
        Some(Seat::PREMIUM_ECONOMY)
    } else if s == "business"@ {
        Some(Seat::BUSINESS)
    } else if s == "first"@ {
        Some(Seat::FIRST)
    } else {
        None
    }
}

/// The trip type a trip name denotes, if any.
pub open spec fn trip_of_name(s: Seq<char>) -> Option<Trip> {
    if s == "round_trip"@ {
        Some(Trip::ROUND_TRIP)
    } else if s == "one_way"@ {
        Some(Trip::ONE_WAY)
    } else if s == "multi_city"@ {
        Some(Trip::MULTI_CITY)
    } else {
        None
    }
}

/// The passenger type a passenger name denotes, if any.
pub open spec fn passenger_of_name(s: Seq<char>) -> Option<Passenger> {
    if s == "adult"@ {
        Some(Passenger::ADULT)
    } else if s == "child"@ {
        Some(Passenger::CHILD)
    } else if s == "infant_in_seat"@ {
        Some(Passenger::INFANT_IN_SEAT)
    } else if s == "infant_on_lap"@ {
        Some(Passenger::INFANT_ON_LAP)
    } else {
        None
    }
}

/// Folds a leg description's key/value pairs into a leg, in order; the
/// first key outside {date, from, to} is the error.
pub open spec fn flight_build(pairs: Seq<(Seq<char>, Seq<char>)>, acc: FlightDataV) -> Result<
    FlightDataV,
    Seq<char>,
>
    decreases pairs.len(),
{
    if pairs.len() == 0 {
        Ok(acc)
    } else {
        let k = pairs[0].0;
        let v = pairs[0].1;
        if k == "date"@ {
            flight_build(pairs.skip(1), FlightDataV { date: v, ..acc })
        } else if k == "from"@ {
            flight_build(pairs.skip(1), FlightDataV { from: Some(AirportV { name: v }), ..acc })
        } else if k == "to"@ {
            flight_build(pairs.skip(1), FlightDataV { to: Some(AirportV { name: v }), ..acc })
        } else {
            Err(k)
        }
    }
}

/// Builds the leg list from the leg descriptions, in order; the first bad
/// key anywhere is the error.
pub open spec fn flights_build(legs: Seq<Seq<(Seq<char>, Seq<char>)>>) -> Result<
    Seq<FlightDataV>,
    Seq<char>,
>
    decreases legs.len(),
{
    if legs.len() == 0 {
        Ok(Seq::empty())
    } else {
        match flight_build(legs[0], flight_v_default()) {
            Err(k) => Err(k),
            Ok(f) => match flights_build(legs.skip(1)) {
                Err(k) => Err(k),
                Ok(rest) => Ok(seq![f] + rest),
            },
        }
    }
}

/// Builds the passenger list from the passenger names, in order; the first
/// unknown name is the error.
pub open spec fn passengers_build(names: Seq<Seq<char>>) -> Result<Seq<Passenger>, Seq<char>>
    decreases names.len(),
{
    if names.len() == 0 {
        Ok(Seq::empty())
    } else {
        match passenger_of_name(names[0]) {
            None => Err(names[0]),
            Some(p) => match passengers_build(names.skip(1)) {
                Err(k) => Err(k),
                Ok(rest) => Ok(seq![p] + rest),
            },
        }
    }
}

/// What a build returns: the query assembled from the description, or the
/// first error, checking legs first, then passengers, then the seat, then
/// the trip.
pub open spec fn make_tfs_spec(
    legs: Seq<Seq<(Seq<char>, Seq<char>)>>,
    seat: Seq<char>,
    passengers: Seq<Seq<char>>,
    trip: Seq<char>,
) -> Result<TfsV, BuildErrorV> {
    match flights_build(legs) {
        Err(k) => Err(BuildErrorV::UnknownFieldName { name: k }),
        Ok(fs) => match passengers_build(passengers) {
            Err(v) => Err(BuildErrorV::UnknownEnumValue { field: "passenger"@, value: v }),
            Ok(pp) => match seat_of_name(seat) {
                None => Err(BuildErrorV::UnknownEnumValue { field: "seat"@, value: seat }),
                Some(s) => match trip_of_name(trip) {
                    None => Err(BuildErrorV::UnknownEnumValue { field: "trip"@, value: trip }),
                    Some(tr) => Ok(TfsV { data: fs, seat: s, passengers: pp, trip: tr }),
                },
            },
        },
    }
}

/// Exact string comparison, decided on the UTF-8 bytes.
#[verifier::loop_isolation(false)]
fn str_eq(a: &str, b: &str) -> (r: bool)
    ensures
        r == (a@ == b@),
{
    proof {
        encode_utf8_decode_utf8(a@);
        encode_utf8_decode_utf8(b@);
    }
    let ab = a.as_bytes();
    let bb = b.as_bytes();
    if ab.len() != bb.len() {
        return false;
    }
    let n = ab.len();
    let mut i: usize = 0;
    while i < n
        invariant
            i <= n,
            forall|q: int| 0 <= q < i ==> ab@[q] == bb@[q],
        decreases n - i,
    {
        if *slice_index_get(ab, i) != *slice_index_get(bb, i) {
            return false;
        }
        i = i + 1;
    }
    proof {
        assert(ab@ =~= bb@);
    }
    true
}

/// The result of a successful build: the typed query and its encoded
/// bytes, tied together by construction.
pub struct Tfs {
    data: flights::Tfs,
    bytes: Vec<u8>,
}

impl View for Tfs {
    type V = TfsV;

    closed spec fn view(&self) -> TfsV {
        self.data@
    }
}

impl Tfs {
    /// The buffer always holds exactly the encoding of the query.
    #[verifier::type_invariant]
    spec fn type_inv(self) -> bool {
        self.bytes@ == tfs_enc(self.data@)
    }

    /// The raw wire-format encoding of the query.
    pub fn bytes(&self) -> (r: &Vec<u8>)
        ensures
            r@ == tfs_enc(self@),
    {
        proof {
            use_type_invariant(self);
        }
        &self.bytes
    }

    /// The standard base64 rendering of the encoded bytes.
    pub fn base64(&self) -> (r: String)
        ensures
            r@ == base64_chars(tfs_enc(self@)),
    {
        proof {
            use_type_invariant(self);
        }
        encode_base64(&self.bytes)
    }

    /// Relies on std's formatting machinery for a human-readable dump of
    /// the typed query and its bytes; the format is unspecified and for
    /// diagnostics only.
    #[verifier::external_body]
    pub fn debug_string(&self) -> String {
        format!("Tfs(data={:?}, bytes={:?})", self.data, self.bytes)
    }
}

/// Validates a query description and builds the encoded query.
///
/// The description is an ordered list of leg descriptions (key/value
/// pairs), a seat-class name, an ordered list of passenger-type names, and
/// a trip-type name.  Returns the encoded query exactly when every key and
/// every name is in its closed set, and the first offending key or name
/// otherwise.
#[verifier::loop_isolation(false)]
#[verifier::rlimit(60)]
pub fn make_tfs(
    flights_data: Vec<Vec<(String, String)>>,
    seat_data: String,
    passengers_data: Vec<String>,
    trip_data: String,
) -> (r: Result<Tfs, BuildError>)
    ensures
        match r {
            Ok(t) => make_tfs_spec(
                flights_data.deep_view(),
                seat_data@,
                passengers_data.deep_view(),
                trip_data@,
            ) == Ok::<TfsV, BuildErrorV>(t@),
            Err(e) => make_tfs_spec(
                flights_data.deep_view(),
                seat_data@,
                passengers_data.deep_view(),
                trip_data@,
            ) == Err::<TfsV, BuildErrorV>(e@),
        },
{
    let ghost lv = flights_data.deep_view();
    let ghost pv = passengers_data.deep_view();
    // Legs.
    let mut flights_vec: Vec<FlightData> = Vec::new();
    proof {
        assert(lv.skip(0) =~= lv);
    }
    let mut i: usize = 0;
    while i < flights_data.len()
        invariant
            i <= flights_data.len(),
            match flights_build(lv.skip(i as int)) {
                Ok(rest) => flights_build(lv) == Ok::<Seq<FlightDataV>, Seq<char>>(
                    flights_vec@.map_values(|f: FlightData| f@) + rest,
                ),
                Err(k) => flights_build(lv) == Err::<Seq<FlightDataV>, Seq<char>>(k),
            },
        decreases flights_data.len() - i,
    {
        let ghost fv0 = flights_vec@.map_values(|f: FlightData| f@);
        let leg: &Vec<(String, String)> = &flights_data[i];
        let ghost pairs = lv[i as int];
        proof {
            assert(pairs == leg.deep_view());
            assert(pairs.skip(0) =~= pairs);
        }
        let mut fd = FlightData::default();
        let mut j: usize = 0;
        while j < leg.len()
            invariant
                j <= leg.len(),
                flight_build(pairs.skip(j as int), fd@) == flight_build(pairs, flight_v_default()),
            decreases leg.len() - j,
        {
            let pair: &(String, String) = &leg[j];
            proof {
                assert(pairs[j as int] == (pair.0@, pair.1@));
                assert(pairs.skip(j as int)[0] == pairs[j as int]);
                assert(pairs.skip(j as int).skip(1) =~= pairs.skip(j as int + 1));
            }
            if str_eq(pair.0.as_str(), "date") {
                fd.date = pair.1.clone();
            } else if str_eq(pair.0.as_str(), "from") {
                fd.from = Some(Airport { name: pair.1.clone() });
            } else if str_eq(pair.0.as_str(), "to") {
                fd.to = Some(Airport { name: pair.1.clone() });
            } else {
                proof {
                    assert(flight_build(pairs, flight_v_default()) == Err::<FlightDataV, Seq<char>>(
                        pair.0@,
                    ));
                    assert(lv.skip(i as int)[0] == pairs);
                    assert(flights_build(lv.skip(i as int)) == Err::<Seq<FlightDataV>, Seq<char>>(
                        pair.0@,
                    ));
                }
                return Err(BuildError::UnknownFieldName { name: pair.0.clone() });
            }
            j = j + 1;
        }
        proof {
            assert(pairs.skip(j as int) =~= Seq::<(Seq<char>, Seq<char>)>::empty());
            assert(flight_build(pairs, flight_v_default()) == Ok::<FlightDataV, Seq<char>>(fd@));
            assert(lv.skip(i as int)[0] == pairs);
            assert(lv.skip(i as int).skip(1) =~= lv.skip(i as int + 1));
        }
        flights_vec.push(fd);
        proof {
            assert(flights_vec@.map_values(|f: FlightData| f@) =~= fv0.push(fd@));
            match flights_build(lv.skip(i as int + 1)) {
                Ok(rest) => {
                    assert(fv0.push(fd@) + rest =~= fv0 + (seq![fd@] + rest));
                },
                Err(_) => {},
            }
        }
        i = i + 1;
    }
    let ghost fv = flights_vec@.map_values(|f: FlightData| f@);
    proof {
        assert(lv.skip(i as int) =~= Seq::<Seq<(Seq<char>, Seq<char>)>>::empty());
        assert(fv + Seq::<FlightDataV>::empty() =~= fv);
        assert(flights_build(lv) == Ok::<Seq<FlightDataV>, Seq<char>>(fv));
    }
    // Passengers.
    let mut passengers: Vec<Passenger> = Vec::new();
    proof {
        assert(pv.skip(0) =~= pv);
    }
    let mut m: usize = 0;
    while m < passengers_data.len()
        invariant
            m <= passengers_data.len(),
            match passengers_build(pv.skip(m as int)) {
                Ok(rest) => passengers_build(pv) == Ok::<Seq<Passenger>, Seq<char>>(
                    passengers@ + rest,
                ),
                Err(k) => passengers_build(pv) == Err::<Seq<Passenger>, Seq<char>>(k),
            },
        decreases passengers_data.len() - m,
    {
        let ghost ps0 = passengers@;
        let name: &String = &passengers_data[m];
        proof {
            assert(pv[m as int] == name@);
            assert(pv.skip(m as int)[0] == pv[m as int]);
            assert(pv.skip(m as int).skip(1) =~= pv.skip(m as int + 1));
        }
        if str_eq(name.as_str(), "adult") {
            passengers.push(Passenger::ADULT);
        } else if str_eq(name.as_str(), "child") {
            passengers.push(Passenger::CHILD);
        } else if str_eq(name.as_str(), "infant_in_seat") {
            passengers.push(Passenger::INFANT_IN_SEAT);
        } else if str_eq(name.as_str(), "infant_on_lap") {
            passengers.push(Passenger::INFANT_ON_LAP);
        } else {
            return Err(
                BuildError::UnknownEnumValue { field: "passenger".to_owned(), value: name.clone() },
            );
        }
        proof {
            match passengers_build(pv.skip(m as int + 1)) {
                Ok(rest) => {
                    assert(passengers@ + rest =~= ps0 + (seq![passengers@[ps0.len() as int]]
                        + rest));
                },
                Err(_) => {},
            }
        }
        m = m + 1;
    }
    proof {
        assert(pv.skip(m as int) =~= Seq::<Seq<char>>::empty());
        assert(passengers@ + Seq::<Passenger>::empty() =~= passengers@);
        assert(passengers_build(pv) == Ok::<Seq<Passenger>, Seq<char>>(passengers@));
    }
    // Seat.
    let seat = if str_eq(seat_data.as_str(), "economy") {
        Seat::ECONOMY
    } else if str_eq(seat_data.as_str(), "premium_economy") {
        Seat::PREMIUM_ECONOMY
    } else if str_eq(seat_data.as_str(), "business") {
        Seat::BUSINESS
    } else if str_eq(seat_data.as_str(), "first") {
        Seat::FIRST
    } else {
        return Err(BuildError::UnknownEnumValue { field: "seat".to_owned(), value: seat_data });
    };
    // Trip.
    let trip = if str_eq(trip_data.as_str(), "round_trip") {
        Trip::ROUND_TRIP
    } else if str_eq(trip_data.as_str(), "one_way") {
        Trip::ONE_WAY
    } else if str_eq(trip_data.as_str(), "multi_city") {
        Trip::MULTI_CITY
    } else {
        return Err(BuildError::UnknownEnumValue { field: "trip".to_owned(), value: trip_data });
    };
    // Assemble and encode.
    let msg = flights::Tfs { data: flights_vec, seat, passengers, trip };
    proof {
        assert(msg@ =~= TfsV { data: fv, seat: seat, passengers: msg.passengers@, trip: trip });
    }
    let bytes = msg.encode();
    let t = Tfs { data: msg, bytes };
    Ok(t)
}

} // verus!
