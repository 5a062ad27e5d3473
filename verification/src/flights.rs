//! The fixed message types of the flight-search schema and their binary
//! codec.
//!
//! Field numbers and wire types are an external compatibility contract; a
//! third party consumes the exact byte layout.  The tags that appear below
//! are `(field_number << 3) | wire_type` with wire type 0 (varint) or 2
//! (length-delimited):
//!
//! * `Airport`: `name` = field 2, tag 18.
//! * `FlightData`: `date` = field 2, tag 18; `from` = field 13, tag 106;
//!   `to` = field 14, tag 114.
//! * `Tfs`: `data` (legs) = field 3, tag 26; `passengers` = field 8 packed,
//!   tag 66; `seat` = field 9, tag 72; `trip` = field 19, tag 152.
//!
//! A field holding its default value (empty string, absent airport, default
//! enum value, empty passenger list) is never written.

use vstd::prelude::*;
use vstd::string::StrSliceExecFns;
use vstd::utf8::{encode_utf8, decode_utf8, valid_utf8};
use vstd::slice::slice_subrange;
use crate::wire::{
    DecodeError, varint_enc, varint_parse, lendel_parse, unknown_parse, write_varint, read_varint,
    read_lendel, skip_unknown, bytes_to_string, lemma_varint_parse_bounds,
    lemma_lendel_parse_bounds, lemma_unknown_parse_bounds, lemma_varint_enc_len,
    lemma_varint_round_trip, lemma_lendel_round_trip,
};
use vstd::utf8::{encode_utf8_valid_utf8, encode_utf8_decode_utf8};

verus! {

/// Seat class of the whole query.  The schema default is `ECONOMY`.
#[allow(non_camel_case_types)]
#[derive(Clone, Copy, Debug, PartialEq, Eq, Structural)]
pub enum Seat {
    ECONOMY,
    PREMIUM_ECONOMY,
    BUSINESS,
    FIRST,
}

/// Trip type of the whole query.  The schema default is `ROUND_TRIP`.
#[allow(non_camel_case_types)]
#[derive(Clone, Copy, Debug, PartialEq, Eq, Structural)]
pub enum Trip {
    ROUND_TRIP,
    ONE_WAY,
    MULTI_CITY,
}

/// One passenger of the query.  The schema default is `ADULT`.
#[allow(non_camel_case_types)]
#[derive(Clone, Copy, Debug, PartialEq, Eq, Structural)]
pub enum Passenger {
    ADULT,
    CHILD,
    INFANT_IN_SEAT,
    INFANT_ON_LAP,
}

/// The wire value of a seat class.
pub open spec fn seat_num(s: Seat) -> u64 {
    match s {
        Seat::ECONOMY => 1,
        Seat::PREMIUM_ECONOMY => 2,
        Seat::BUSINESS => 3,
        Seat::FIRST => 4,
    }
}

/// The seat class a decoded wire value maps to; values outside the
/// enumeration fall back to the schema default.
pub open spec fn seat_of_i32(i: i32) -> Seat {
    if i == 1 {
        Seat::ECONOMY
    } else if i == 2 {
        Seat::PREMIUM_ECONOMY
    } else if i == 3 {
        Seat::BUSINESS
    } else if i == 4 {
        Seat::FIRST
    } else {
        Seat::ECONOMY
    }
}

/// The wire value of a trip type.
pub open spec fn trip_num(t: Trip) -> u64 {
    match t {
        Trip::ROUND_TRIP => 1,
        Trip::ONE_WAY => 2,
        Trip::MULTI_CITY => 3,
    }
}

/// The trip type a decoded wire value maps to; values outside the
/// enumeration fall back to the schema default.
pub open spec fn trip_of_i32(i: i32) -> Trip {
    if i == 1 {
        Trip::ROUND_TRIP
    } else if i == 2 {
        Trip::ONE_WAY
    } else if i == 3 {
        Trip::MULTI_CITY
    } else {
        Trip::ROUND_TRIP
    }
}

/// The wire value of a passenger type.
pub open spec fn passenger_num(p: Passenger) -> u64 {
    match p {
        Passenger::ADULT => 1,
        Passenger::CHILD => 2,
        Passenger::INFANT_IN_SEAT => 3,
        Passenger::INFANT_ON_LAP => 4,
    }
}

/// The passenger type a decoded wire value maps to; values outside the
/// enumeration fall back to the schema default.
pub open spec fn passenger_of_i32(i: i32) -> Passenger {
    if i == 1 {
        Passenger::ADULT
    } else if i == 2 {
        Passenger::CHILD
    } else if i == 3 {
        Passenger::INFANT_IN_SEAT
    } else if i == 4 {
        Passenger::INFANT_ON_LAP
    } else {
        Passenger::ADULT
    }
}

impl Seat {
    /// Maps a decoded wire value to a seat class, defaulting on unknown
    /// values.
    pub fn from(i: i32) -> (r: Seat)
        ensures
            r == seat_of_i32(i),
    {
        if i == 1 {
            Seat::ECONOMY
        } else if i == 2 {
            Seat::PREMIUM_ECONOMY
        } else if i == 3 {
            Seat::BUSINESS
        } else if i == 4 {
            Seat::FIRST
        } else {
            Seat::ECONOMY
        }
    }

    /// The wire value of this seat class.
    pub fn num(&self) -> (r: u64)
        ensures
            r == seat_num(*self),
    {
        match self {
            Seat::ECONOMY => 1,
            Seat::PREMIUM_ECONOMY => 2,
            Seat::BUSINESS => 3,
            Seat::FIRST => 4,
        }
    }
}

impl Default for Seat {
    fn default() -> (r: Seat)
        ensures
            r == Seat::ECONOMY,
    {
        Seat::ECONOMY
    }
}

impl Trip {
    /// Maps a decoded wire value to a trip type, defaulting on unknown
    /// values.
    pub fn from(i: i32) -> (r: Trip)
        ensures
            r == trip_of_i32(i),
    {
        if i == 1 {
            Trip::ROUND_TRIP
        } else if i == 2 {
            Trip::ONE_WAY
        } else if i == 3 {
            Trip::MULTI_CITY
        } else {
            Trip::ROUND_TRIP
        }
    }

    /// The wire value of this trip type.
    pub fn num(&self) -> (r: u64)
        ensures
            r == trip_num(*self),
    {
        match self {
            Trip::ROUND_TRIP => 1,
            Trip::ONE_WAY => 2,
            Trip::MULTI_CITY => 3,
        }
    }
}

impl Default for Trip {
    fn default() -> (r: Trip)
        ensures
            r == Trip::ROUND_TRIP,
    {
        Trip::ROUND_TRIP
    }
}

impl Passenger {
    /// Maps a decoded wire value to a passenger type, defaulting on unknown
    /// values.
    pub fn from(i: i32) -> (r: Passenger)
        ensures
            r == passenger_of_i32(i),
    {
        if i == 1 {
            Passenger::ADULT
        } else if i == 2 {
            Passenger::CHILD
        } else if i == 3 {
            Passenger::INFANT_IN_SEAT
        } else if i == 4 {
            Passenger::INFANT_ON_LAP
        } else {
            Passenger::ADULT
        }
    }

    /// The wire value of this passenger type.
    pub fn num(&self) -> (r: u64)
        ensures
            r == passenger_num(*self),
    {
        match self {
            Passenger::ADULT => 1,
            Passenger::CHILD => 2,
            Passenger::INFANT_IN_SEAT => 3,
            Passenger::INFANT_ON_LAP => 4,
        }
    }
}

impl Default for Passenger {
    fn default() -> (r: Passenger)
        ensures
            r == Passenger::ADULT,
    {
        Passenger::ADULT
    }
}

/// An airport reference: an IATA-style code string.
#[derive(Clone, Debug, PartialEq)]
pub struct Airport {
    pub name: String,
}

/// Mathematical model of an `Airport`.
#[verifier::ext_equal]
pub struct AirportV {
    pub name: Seq<char>,
}

impl View for Airport {
    type V = AirportV;

    open spec fn view(&self) -> AirportV {
        AirportV { name: self.name@ }
    }
}

/// One leg of the itinerary: a travel date and optional origin and
/// destination airports.
#[derive(Clone, Debug, PartialEq)]
pub struct FlightData {
    pub date: String,
    pub from: Option<Airport>,
    pub to: Option<Airport>,
}

/// Mathematical model of a `FlightData`.
#[verifier::ext_equal]
pub struct FlightDataV {
    pub date: Seq<char>,
    pub from: Option<AirportV>,
    pub to: Option<AirportV>,
}

impl View for FlightData {
    type V = FlightDataV;

    open spec fn view(&self) -> FlightDataV {
        FlightDataV {
            date: self.date@,
            from: match self.from {
                Some(a) => Some(a@),
                None => None,
            },
            to: match self.to {
                Some(a) => Some(a@),
                None => None,
            },
        }
    }
}

/// The whole search query: ordered legs, seat class, ordered passenger
/// list, and trip type.
#[derive(Clone, Debug, PartialEq)]
pub struct Tfs {
    pub data: Vec<FlightData>,
    pub seat: Seat,
    pub passengers: Vec<Passenger>,
    pub trip: Trip,
}

/// Mathematical model of a `Tfs`.
#[verifier::ext_equal]
pub struct TfsV {
    pub data: Seq<FlightDataV>,
    pub seat: Seat,
    pub passengers: Seq<Passenger>,
    pub trip: Trip,
}

impl View for Tfs {
    type V = TfsV;

    open spec fn view(&self) -> TfsV {
        TfsV {
            data: self.data@.map_values(|f: FlightData| f@),
            seat: self.seat,
            passengers: self.passengers@,
            trip: self.trip,
        }
    }
}

/// The model of the empty airport.
pub open spec fn airport_v_default() -> AirportV {
    AirportV { name: Seq::empty() }
}

/// The model of the empty leg.
pub open spec fn flight_v_default() -> FlightDataV {
    FlightDataV { date: Seq::empty(), from: None, to: None }
}

/// The model of the empty query: no legs, economy seat, no passengers,
/// round trip.
pub open spec fn tfs_v_default() -> TfsV {
    TfsV { data: Seq::empty(), seat: Seat::ECONOMY, passengers: Seq::empty(), trip: Trip::ROUND_TRIP }
}

impl Default for Airport {
    fn default() -> (r: Airport)
        ensures
            r@ == airport_v_default(),
    {
        let r = Airport { name: String::new() };
        proof {
            assert(r@ =~= airport_v_default());
        }
        r
    }
}

impl Default for FlightData {
    fn default() -> (r: FlightData)
        ensures
            r@ == flight_v_default(),
    {
        let r = FlightData { date: String::new(), from: None, to: None };
        proof {
            assert(r@ =~= flight_v_default());
        }
        r
    }
}

impl Default for Tfs {
    fn default() -> (r: Tfs)
        ensures
            r@ == tfs_v_default(),
    {
        let r = Tfs {
            data: Vec::new(),
            seat: Seat::ECONOMY,
            passengers: Vec::new(),
            trip: Trip::ROUND_TRIP,
        };
        proof {
            assert(r@.data =~= tfs_v_default().data);
            assert(r@ =~= tfs_v_default());
        }
        r
    }
}

/// A record with tag `tag` whose payload is length-prefixed.
pub open spec fn lendel_enc(tag: u64, payload: Seq<u8>) -> Seq<u8> {
    varint_enc(tag) + varint_enc(payload.len() as u64) + payload
}

/// The encoding of an airport: its code under tag 18, omitted when empty.
pub open spec fn airport_enc(a: AirportV) -> Seq<u8> {
    if a.name.len() == 0 {
        Seq::empty()
    } else {
        lendel_enc(18, encode_utf8(a.name))
    }
}

/// The encoding of an optional nested airport under the given tag.
pub open spec fn opt_airport_enc(o: Option<AirportV>, tag: u64) -> Seq<u8> {
    match o {
        None => Seq::empty(),
        Some(a) => lendel_enc(tag, airport_enc(a)),
    }
}

/// The encoding of one leg: date (tag 18), origin (tag 106), destination
/// (tag 114), each omitted at its default.
pub open spec fn flight_enc(f: FlightDataV) -> Seq<u8> {
    (if f.date.len() == 0 {
        Seq::<u8>::empty()
    } else {
        lendel_enc(18, encode_utf8(f.date))
    }) + opt_airport_enc(f.from, 106) + opt_airport_enc(f.to, 114)
}

/// The encoding of the leg list: one tag-26 record per leg, in order.
pub open spec fn legs_enc(legs: Seq<FlightDataV>) -> Seq<u8>
    decreases legs.len(),
{
    if legs.len() == 0 {
        Seq::empty()
    } else {
        lendel_enc(26, flight_enc(legs[0])) + legs_enc(legs.skip(1))
    }
}

/// The packed payload of the passenger list: the concatenated varints of
/// the passengers' wire values, in order.
pub open spec fn passengers_payload(ps: Seq<Passenger>) -> Seq<u8>
    decreases ps.len(),
{
    if ps.len() == 0 {
        Seq::empty()
    } else {
        varint_enc(passenger_num(ps[0])) + passengers_payload(ps.skip(1))
    }
}

/// The encoding of a whole query: legs, then seat (tag 72, omitted at
/// default), then the packed passenger list (tag 66, omitted when empty),
/// then trip (tag 152, omitted at default).
pub open spec fn tfs_enc(t: TfsV) -> Seq<u8> {
    legs_enc(t.data) + (if t.seat == Seat::ECONOMY {
        Seq::<u8>::empty()
    } else {
        varint_enc(72) + varint_enc(seat_num(t.seat))
    }) + (if t.passengers.len() == 0 {
        Seq::<u8>::empty()
    } else {
        lendel_enc(66, passengers_payload(t.passengers))
    }) + (if t.trip == Trip::ROUND_TRIP {
        Seq::<u8>::empty()
    } else {
        varint_enc(152) + varint_enc(trip_num(t.trip))
    })
}

/// One decoding step over an airport message: the buffer is a sequence of
/// records; a tag-18 record sets the code from its UTF-8 payload, any other
/// record is skipped.  `None` means the buffer is malformed.
pub open spec fn airport_dec(bytes: Seq<u8>, acc: AirportV) -> Option<AirportV>
    decreases bytes.len() via airport_dec_decreases
{
    if bytes.len() == 0 {
        Some(acc)
    } else {
        match varint_parse(bytes) {
            None => None,
            Some((tag, n)) => {
                let rest = bytes.skip(n);
                if tag == 18 {
                    match lendel_parse(rest) {
                        None => None,
                        Some((payload, m)) => {
                            if valid_utf8(payload) {
                                airport_dec(rest.skip(m), AirportV { name: decode_utf8(payload) })
                            } else {
                                None
                            }
                        },
                    }
                } else {
                    match unknown_parse(tag, rest) {
                        None => None,
                        Some(m) => airport_dec(rest.skip(m), acc),
                    }
                }
            },
        }
    }
}

#[via_fn]
proof fn airport_dec_decreases(bytes: Seq<u8>, acc: AirportV) {
    lemma_record_step_shrinks(bytes);
}

/// After a successful tag parse, every record body parse at the remainder
/// consumes at least one more byte; used for termination of the decoders.
proof fn lemma_record_step_shrinks(bytes: Seq<u8>)
    ensures
        varint_parse(bytes) matches Some(p) ==> {
            let rest = bytes.skip(p.1);
            &&& 1 <= p.1 <= bytes.len()
            &&& (lendel_parse(rest) matches Some(q) ==> 1 <= q.1 <= rest.len())
            &&& (varint_parse(rest) matches Some(q) ==> 1 <= q.1 <= rest.len())
            &&& (unknown_parse(p.0, rest) matches Some(m) ==> 1 <= m <= rest.len())
        },
{
    lemma_varint_parse_bounds(bytes);
    if let Some((tag0, n)) = varint_parse(bytes) {
        let rest = bytes.skip(n);
        lemma_lendel_parse_bounds(rest);
        lemma_varint_parse_bounds(rest);
        lemma_unknown_parse_bounds(tag0, rest);
    }
}

/// One decoding step over a leg message: tag 18 sets the date, tag 106 the
/// origin airport, tag 114 the destination airport; any other record is
/// skipped.  `None` means the buffer is malformed.
pub open spec fn flight_dec(bytes: Seq<u8>, acc: FlightDataV) -> Option<FlightDataV>
    decreases bytes.len() via flight_dec_decreases
{
    if bytes.len() == 0 {
        Some(acc)
    } else {
        match varint_parse(bytes) {
            None => None,
            Some((tag, n)) => {
                let rest = bytes.skip(n);
                if tag == 18 {
                    match lendel_parse(rest) {
                        None => None,
                        Some((payload, m)) => {
                            if valid_utf8(payload) {
                                flight_dec(
                                    rest.skip(m),
                                    FlightDataV { date: decode_utf8(payload), ..acc },
                                )
                            } else {
                                None
                            }
                        },
                    }
                } else if tag == 106 {
                    match lendel_parse(rest) {
                        None => None,
                        Some((payload, m)) => match airport_dec(payload, airport_v_default()) {
                            None => None,
                            Some(a) => flight_dec(
                                rest.skip(m),
                                FlightDataV { from: Some(a), ..acc },
                            ),
                        },
                    }
                } else if tag == 114 {
                    match lendel_parse(rest) {
                        None => None,
                        Some((payload, m)) => match airport_dec(payload, airport_v_default()) {
                            None => None,
                            Some(a) => flight_dec(rest.skip(m), FlightDataV { to: Some(a), ..acc }),
                        },
                    }
                } else {
                    match unknown_parse(tag, rest) {
                        None => None,
                        Some(m) => flight_dec(rest.skip(m), acc),
                    }
                }
            },
        }
    }
}

#[via_fn]
proof fn flight_dec_decreases(bytes: Seq<u8>, acc: FlightDataV) {
    lemma_record_step_shrinks(bytes);
}

/// Parses the packed passenger payload: a sequence of varints, each mapped
/// to a passenger type.  `None` means a varint is malformed.
pub open spec fn packed_parse(bytes: Seq<u8>, acc: Seq<Passenger>) -> Option<Seq<Passenger>>
    decreases bytes.len() via packed_parse_decreases
{
    if bytes.len() == 0 {
        Some(acc)
    } else {
        match varint_parse(bytes) {
            None => None,
            Some((v, n)) => packed_parse(bytes.skip(n), acc.push(passenger_of_i32(v as i32))),
        }
    }
}

#[via_fn]
proof fn packed_parse_decreases(bytes: Seq<u8>, acc: Seq<Passenger>) {
    lemma_varint_parse_bounds(bytes);
}

/// One decoding step over a whole query: tag 26 appends a leg, tag 72 sets
/// the seat, tag 66 replaces the passenger list with the packed payload,
/// tag 152 sets the trip; any other record is skipped.  `None` means the
/// buffer is malformed.
pub open spec fn tfs_dec(bytes: Seq<u8>, acc: TfsV) -> Option<TfsV>
    decreases bytes.len() via tfs_dec_decreases
{
    if bytes.len() == 0 {
        Some(acc)
    } else {
        match varint_parse(bytes) {
            None => None,
            Some((tag, n)) => {
                let rest = bytes.skip(n);
                if tag == 26 {
                    match lendel_parse(rest) {
                        None => None,
                        Some((payload, m)) => match flight_dec(payload, flight_v_default()) {
                            None => None,
                            Some(f) => tfs_dec(
                                rest.skip(m),
                                TfsV { data: acc.data.push(f), ..acc },
                            ),
                        },
                    }
                } else if tag == 72 {
                    match varint_parse(rest) {
                        None => None,
                        Some((v, m)) => tfs_dec(
                            rest.skip(m),
                            TfsV { seat: seat_of_i32(v as i32), ..acc },
                        ),
                    }
                } else if tag == 66 {
                    match lendel_parse(rest) {
                        None => None,
                        Some((payload, m)) => match packed_parse(payload, Seq::empty()) {
                            None => None,
                            Some(ps) => tfs_dec(rest.skip(m), TfsV { passengers: ps, ..acc }),
                        },
                    }
                } else if tag == 152 {
                    match varint_parse(rest) {
                        None => None,
                        Some((v, m)) => tfs_dec(
                            rest.skip(m),
                            TfsV { trip: trip_of_i32(v as i32), ..acc },
                        ),
                    }
                } else {
                    match unknown_parse(tag, rest) {
                        None => None,
                        Some(m) => tfs_dec(rest.skip(m), acc),
                    }
                }
            },
        }
    }
}

#[via_fn]
proof fn tfs_dec_decreases(bytes: Seq<u8>, acc: TfsV) {
    lemma_record_step_shrinks(bytes);
}

/// Appends a length-prefixed record: tag, payload length, payload.  The
/// payload vector is drained into `out`.
fn write_lendel(out: &mut Vec<u8>, tag: u64, payload: &mut Vec<u8>)
    ensures
        final(out)@ == old(out)@ + lendel_enc(tag, old(payload)@),
{
    write_varint(out, tag);
    let n = payload.len();
    write_varint(out, n as u64);
    out.append(payload);
    assert(out@ =~= old(out)@ + lendel_enc(tag, old(payload)@));
}

impl Airport {
    /// Appends this airport's encoding to `out`.
    pub fn write_message(&self, out: &mut Vec<u8>)
        ensures
            final(out)@ == old(out)@ + airport_enc(self@),
    {
        if !self.name.as_str().is_empty() {
            let mut payload = self.name.as_str().as_bytes_vec();
            write_lendel(out, 18, &mut payload);
        }
        assert(out@ =~= old(out)@ + airport_enc(self@));
    }

    /// The number of bytes this airport's encoding occupies.
    pub fn get_size(&self) -> (r: usize)
        ensures
            r == airport_enc(self@).len(),
    {
        let mut tmp: Vec<u8> = Vec::new();
        self.write_message(&mut tmp);
        tmp.len()
    }

    /// Decodes an airport message from the whole of `bytes`, skipping
    /// unrecognized records.
    pub fn from_reader(bytes: &[u8]) -> (r: Result<Airport, DecodeError>)
        ensures
            match r {
                Ok(a) => airport_dec(bytes@, airport_v_default()) == Some(a@),
                Err(e) => {
                    &&& airport_dec(bytes@, airport_v_default()) is None
                    &&& e == DecodeError::MalformedInput
                },
            },
    {
        let mut msg = Airport::default();
        let mut pos: usize = 0;
        proof {
            assert(bytes@.skip(0) =~= bytes@);
        }
        while pos < bytes.len()
            invariant
                pos <= bytes@.len(),
                airport_dec(bytes@.skip(pos as int), msg@) == airport_dec(
                    bytes@,
                    airport_v_default(),
                ),
            decreases bytes@.len() - pos,
        {
            let ghost suffix = bytes@.skip(pos as int);
            match read_varint(bytes, pos) {
                Err(e) => {
                    return Err(e);
                },
                Ok((tag, np)) => {
                    proof {
                        assert(suffix.skip(np - pos as int) =~= bytes@.skip(np as int));
                    }
                    if tag == 18 {
                        match read_lendel(bytes, np) {
                            Err(e) => {
                                return Err(e);
                            },
                            Ok((ps, pe)) => {
                                proof {
                                    assert(bytes@.skip(np as int).skip(pe - np as int)
                                        =~= bytes@.skip(pe as int));
                                }
                                let payload = slice_subrange(bytes, ps, pe);
                                match bytes_to_string(payload) {
                                    None => {
                                        return Err(DecodeError::MalformedInput);
                                    },
                                    Some(text) => {
                                        msg.name = text;
                                        pos = pe;
                                    },
                                }
                            },
                        }
                    } else {
                        match skip_unknown(bytes, np, tag) {
                            Err(e) => {
                                return Err(e);
                            },
                            Ok(np2) => {
                                proof {
                                    assert(bytes@.skip(np as int).skip(np2 - np as int)
                                        =~= bytes@.skip(np2 as int));
                                }
                                pos = np2;
                            },
                        }
                    }
                },
            }
        }
        proof {
            assert(bytes@.skip(pos as int) =~= Seq::<u8>::empty());
        }
        Ok(msg)
    }
}

impl FlightData {
    /// Appends this leg's encoding to `out`.
    pub fn write_message(&self, out: &mut Vec<u8>)
        ensures
            final(out)@ == old(out)@ + flight_enc(self@),
    {
        if !self.date.as_str().is_empty() {
            let mut payload = self.date.as_str().as_bytes_vec();
            write_lendel(out, 18, &mut payload);
        }
        match &self.from {
            Some(a) => {
                let mut payload: Vec<u8> = Vec::new();
                a.write_message(&mut payload);
                write_lendel(out, 106, &mut payload);
            },
            None => {},
        }
        match &self.to {
            Some(a) => {
                let mut payload: Vec<u8> = Vec::new();
                a.write_message(&mut payload);
                write_lendel(out, 114, &mut payload);
            },
            None => {},
        }
        assert(out@ =~= old(out)@ + flight_enc(self@));
    }

    /// The number of bytes this leg's encoding occupies.
    pub fn get_size(&self) -> (r: usize)
        ensures
            r == flight_enc(self@).len(),
    {
        let mut tmp: Vec<u8> = Vec::new();
        self.write_message(&mut tmp);
        tmp.len()
    }

    /// Decodes a leg message from the whole of `bytes`, skipping
    /// unrecognized records.
    pub fn from_reader(bytes: &[u8]) -> (r: Result<FlightData, DecodeError>)
        ensures
            match r {
                Ok(f) => flight_dec(bytes@, flight_v_default()) == Some(f@),
                Err(e) => {
                    &&& flight_dec(bytes@, flight_v_default()) is None
                    &&& e == DecodeError::MalformedInput
                },
            },
    {
        let mut msg = FlightData::default();
        let mut pos: usize = 0;
        proof {
            assert(bytes@.skip(0) =~= bytes@);
        }
        while pos < bytes.len()
            invariant
                pos <= bytes@.len(),
                flight_dec(bytes@.skip(pos as int), msg@) == flight_dec(
                    bytes@,
                    flight_v_default(),
                ),
            decreases bytes@.len() - pos,
        {
            let ghost suffix = bytes@.skip(pos as int);
            match read_varint(bytes, pos) {
                Err(e) => {
                    return Err(e);
                },
                Ok((tag, np)) => {
                    proof {
                        assert(suffix.skip(np - pos as int) =~= bytes@.skip(np as int));
                    }
                    if tag == 18 {
                        match read_lendel(bytes, np) {
                            Err(e) => {
                                return Err(e);
                            },
                            Ok((ps, pe)) => {
                                proof {
                                    assert(bytes@.skip(np as int).skip(pe - np as int)
                                        =~= bytes@.skip(pe as int));
                                }
                                let payload = slice_subrange(bytes, ps, pe);
                                match bytes_to_string(payload) {
                                    None => {
                                        return Err(DecodeError::MalformedInput);
                                    },
                                    Some(text) => {
                                        msg.date = text;
                                        pos = pe;
                                    },
                                }
                            },
                        }
                    } else if tag == 106 {
                        match read_lendel(bytes, np) {
                            Err(e) => {
                                return Err(e);
                            },
                            Ok((ps, pe)) => {
                                proof {
                                    assert(bytes@.skip(np as int).skip(pe - np as int)
                                        =~= bytes@.skip(pe as int));
                                }
                                let payload = slice_subrange(bytes, ps, pe);
                                match Airport::from_reader(payload) {
                                    Err(e) => {
                                        return Err(e);
                                    },
                                    Ok(a) => {
                                        msg.from = Some(a);
                                        pos = pe;
                                    },
                                }
                            },
                        }
                    } else if tag == 114 {
                        match read_lendel(bytes, np) {
                            Err(e) => {
                                return Err(e);
                            },
                            Ok((ps, pe)) => {
                                proof {
                                    assert(bytes@.skip(np as int).skip(pe - np as int)
                                        =~= bytes@.skip(pe as int));
                                }
                                let payload = slice_subrange(bytes, ps, pe);
                                match Airport::from_reader(payload) {
                                    Err(e) => {
                                        return Err(e);
                                    },
                                    Ok(a) => {
                                        msg.to = Some(a);
                                        pos = pe;
                                    },
                                }
                            },
                        }
                    } else {
                        match skip_unknown(bytes, np, tag) {
                            Err(e) => {
                                return Err(e);
                            },
                            Ok(np2) => {
                                proof {
                                    assert(bytes@.skip(np as int).skip(np2 - np as int)
                                        =~= bytes@.skip(np2 as int));
                                }
                                pos = np2;
                            },
                        }
                    }
                },
            }
        }
        proof {
            assert(bytes@.skip(pos as int) =~= Seq::<u8>::empty());
        }
        Ok(msg)
    }
}

impl Tfs {
    /// Appends this query's encoding to `out`.
    #[verifier::rlimit(60)]
    pub fn write_message(&self, out: &mut Vec<u8>)
        ensures
            final(out)@ == old(out)@ + tfs_enc(self@),
    {
        let ghost t = self@;
        let ghost out0 = out@;
        // Legs: one record each, in order.
        proof {
            assert(t.data.skip(0) =~= t.data);
            assert(out@ + legs_enc(t.data) =~= out0 + legs_enc(t.data));
        }
        let mut i: usize = 0;
        while i < self.data.len()
            invariant
                i <= self.data.len(),
                t == self@,
                out@ + legs_enc(t.data.skip(i as int)) == out0 + legs_enc(t.data),
            decreases self.data.len() - i,
        {
            let ghost pre = out@;
            let leg: &FlightData = &self.data[i];
            assert(leg@ == t.data[i as int]);
            let mut payload: Vec<u8> = Vec::new();
            leg.write_message(&mut payload);
            write_lendel(out, 26, &mut payload);
            proof {
                let s = t.data.skip(i as int);
                assert(s[0] == t.data[i as int]);
                assert(s.skip(1) =~= t.data.skip(i as int + 1));
                assert(legs_enc(s) == lendel_enc(26, flight_enc(t.data[i as int])) + legs_enc(
                    t.data.skip(i as int + 1),
                ));
                assert(out@ + legs_enc(t.data.skip(i as int + 1)) =~= pre + legs_enc(
                    t.data.skip(i as int),
                ));
            }
            i = i + 1;
        }
        proof {
            assert(t.data.skip(t.data.len() as int) =~= Seq::<FlightDataV>::empty());
            assert(out@ =~= out0 + legs_enc(t.data));
        }
        // Seat class, omitted at the schema default.
        if !(self.seat == Seat::ECONOMY) {
            write_varint(out, 72);
            write_varint(out, self.seat.num());
        }
        let ghost out_seat = out@;
        // Packed passenger list, omitted when empty.
        if !self.passengers.is_empty() {
            let mut payload: Vec<u8> = Vec::new();
            proof {
                assert(t.passengers.skip(0) =~= t.passengers);
                assert(payload@ + passengers_payload(t.passengers) =~= passengers_payload(
                    t.passengers,
                ));
            }
            let mut j: usize = 0;
            while j < self.passengers.len()
                invariant
                    j <= self.passengers.len(),
                    t == self@,
                    payload@ + passengers_payload(t.passengers.skip(j as int))
                        == passengers_payload(t.passengers),
                decreases self.passengers.len() - j,
            {
                let ghost ppre = payload@;
                let p = self.passengers[j];
                write_varint(&mut payload, p.num());
                proof {
                    let s = t.passengers.skip(j as int);
                    assert(s[0] == t.passengers[j as int]);
                    assert(s.skip(1) =~= t.passengers.skip(j as int + 1));
                    assert(payload@ + passengers_payload(t.passengers.skip(j as int + 1)) =~= ppre
                        + passengers_payload(t.passengers.skip(j as int)));
                }
                j = j + 1;
            }
            proof {
                assert(t.passengers.skip(t.passengers.len() as int) =~= Seq::<Passenger>::empty());
                assert(payload@ =~= passengers_payload(t.passengers));
            }
            write_lendel(out, 66, &mut payload);
        }
        // Trip type, omitted at the schema default.
        if !(self.trip == Trip::ROUND_TRIP) {
            write_varint(out, 152);
            write_varint(out, self.trip.num());
        }
        assert(out@ =~= old(out)@ + tfs_enc(t));
    }

    /// The number of bytes this query's encoding occupies.
    pub fn get_size(&self) -> (r: usize)
        ensures
            r == tfs_enc(self@).len(),
    {
        let mut tmp: Vec<u8> = Vec::new();
        self.write_message(&mut tmp);
        tmp.len()
    }

    /// Encodes this query to a fresh byte buffer.
    pub fn encode(&self) -> (r: Vec<u8>)
        ensures
            r@ == tfs_enc(self@),
    {
        let mut out: Vec<u8> = Vec::new();
        self.write_message(&mut out);
        assert(out@ =~= tfs_enc(self@));
        out
    }

    /// Decodes a query message from the whole of `bytes`, skipping
    /// unrecognized records.
    #[verifier::loop_isolation(false)]
    #[verifier::rlimit(60)]
    pub fn from_reader(bytes: &[u8]) -> (r: Result<Tfs, DecodeError>)
        ensures
            match r {
                Ok(t) => tfs_dec(bytes@, tfs_v_default()) == Some(t@),
                Err(e) => {
                    &&& tfs_dec(bytes@, tfs_v_default()) is None
                    &&& e == DecodeError::MalformedInput
                },
            },
    {
        let mut msg = Tfs::default();
        let mut pos: usize = 0;
        proof {
            assert(bytes@.skip(0) =~= bytes@);
            assert(msg@.data =~= tfs_v_default().data);
            assert(msg@ =~= tfs_v_default());
        }
        while pos < bytes.len()
            invariant
                pos <= bytes@.len(),
                tfs_dec(bytes@.skip(pos as int), msg@) == tfs_dec(bytes@, tfs_v_default()),
            decreases bytes@.len() - pos,
        {
            let ghost suffix = bytes@.skip(pos as int);
            let ghost acc0 = msg@;
            match read_varint(bytes, pos) {
                Err(e) => {
                    return Err(e);
                },
                Ok((tag, np)) => {
                    proof {
                        assert(suffix.skip(np - pos as int) =~= bytes@.skip(np as int));
                    }
                    if tag == 26 {
                        match read_lendel(bytes, np) {
                            Err(e) => {
                                return Err(e);
                            },
                            Ok((ps, pe)) => {
                                proof {
                                    assert(bytes@.skip(np as int).skip(pe - np as int)
                                        =~= bytes@.skip(pe as int));
                                }
                                let payload = slice_subrange(bytes, ps, pe);
                                match FlightData::from_reader(payload) {
                                    Err(e) => {
                                        return Err(e);
                                    },
                                    Ok(f) => {
                                        msg.data.push(f);
                                        pos = pe;
                                        proof {
                                            assert(msg@.data =~= acc0.data.push(f@));
                                            assert(msg@ =~= TfsV {
                                                data: acc0.data.push(f@),
                                                ..acc0
                                            });
                                        }
                                    },
                                }
                            },
                        }
                    } else if tag == 72 {
                        match read_varint(bytes, np) {
                            Err(e) => {
                                return Err(e);
                            },
                            Ok((v, np2)) => {
                                proof {
                                    assert(bytes@.skip(np as int).skip(np2 - np as int)
                                        =~= bytes@.skip(np2 as int));
                                }
                                msg.seat = Seat::from(#[verifier::truncate] (v as i32));
                                pos = np2;
                            },
                        }
                    } else if tag == 66 {
                        match read_lendel(bytes, np) {
                            Err(e) => {
                                return Err(e);
                            },
                            Ok((ps, pe)) => {
                                proof {
                                    assert(bytes@.skip(np as int).skip(pe - np as int)
                                        =~= bytes@.skip(pe as int));
                                }
                                let payload = slice_subrange(bytes, ps, pe);
                                let mut passengers: Vec<Passenger> = Vec::new();
                                let mut q: usize = 0;
                                proof {
                                    assert(payload@.skip(0) =~= payload@);
                                }
                                while q < payload.len()
                                    invariant
                                        q <= payload@.len(),
                                        packed_parse(payload@.skip(q as int), passengers@)
                                            == packed_parse(payload@, Seq::empty()),
                                    decreases payload@.len() - q,
                                {
                                    match read_varint(payload, q) {
                                        Err(e) => {
                                            return Err(e);
                                        },
                                        Ok((v, nq)) => {
                                            proof {
                                                assert(payload@.skip(q as int).skip(
                                                    nq - q as int,
                                                ) =~= payload@.skip(nq as int));
                                            }
                                            passengers.push(
                                                Passenger::from(#[verifier::truncate] (v as i32)),
                                            );
                                            q = nq;
                                        },
                                    }
                                }
                                proof {
                                    assert(payload@.skip(q as int) =~= Seq::<u8>::empty());
                                }
                                msg.passengers = passengers;
                                pos = pe;
                            },
                        }
                    } else if tag == 152 {
                        match read_varint(bytes, np) {
                            Err(e) => {
                                return Err(e);
                            },
                            Ok((v, np2)) => {
                                proof {
                                    assert(bytes@.skip(np as int).skip(np2 - np as int)
                                        =~= bytes@.skip(np2 as int));
                                }
                                msg.trip = Trip::from(#[verifier::truncate] (v as i32));
                                pos = np2;
                            },
                        }
                    } else {
                        match skip_unknown(bytes, np, tag) {
                            Err(e) => {
                                return Err(e);
                            },
                            Ok(np2) => {
                                proof {
                                    assert(bytes@.skip(np as int).skip(np2 - np as int)
                                        =~= bytes@.skip(np2 as int));
                                }
                                pos = np2;
                            },
                        }
                    }
                },
            }
        }
        proof {
            assert(bytes@.skip(pos as int) =~= Seq::<u8>::empty());
        }
        Ok(msg)
    }
}

/// Size bound under which every length in a message fits a 64-bit length
/// prefix with room to spare.
pub open spec fn size_bound() -> int {
    0x1000000000000000
}

/// Well-formed airport: its code's UTF-8 form is of bounded size.
pub open spec fn wf_airport(a: AirportV) -> bool {
    encode_utf8(a.name).len() < size_bound()
}

/// Well-formed optional airport.
pub open spec fn wf_opt_airport(o: Option<AirportV>) -> bool {
    match o {
        None => true,
        Some(a) => wf_airport(a),
    }
}

/// Well-formed leg: its date's UTF-8 form is of bounded size and its
/// airports are well-formed.
pub open spec fn wf_flight(f: FlightDataV) -> bool {
    &&& encode_utf8(f.date).len() < size_bound()
    &&& wf_opt_airport(f.from)
    &&& wf_opt_airport(f.to)
}

/// Well-formed query: every leg is well-formed and the passenger list is of
/// bounded size.
pub open spec fn wf_tfs(t: TfsV) -> bool {
    &&& forall|i: int| 0 <= i < t.data.len() ==> wf_flight(#[trigger] t.data[i])
    &&& t.passengers.len() < size_bound()
}

/// A well-formed airport's encoding is small enough to stand as a
/// length-prefixed payload.
proof fn lemma_airport_enc_len(a: AirportV)
    requires
        wf_airport(a),
    ensures
        airport_enc(a).len() < size_bound() + 16,
{
    if a.name.len() != 0 {
        lemma_varint_enc_len(18);
        lemma_varint_enc_len(encode_utf8(a.name).len() as u64);
    }
}

/// A well-formed leg's encoding is small enough to stand as a
/// length-prefixed payload.
proof fn lemma_flight_enc_len(f: FlightDataV)
    requires
        wf_flight(f),
    ensures
        flight_enc(f).len() < 4 * size_bound(),
{
    if f.date.len() != 0 {
        lemma_varint_enc_len(18);
        lemma_varint_enc_len(encode_utf8(f.date).len() as u64);
    }
    match f.from {
        Some(a) => {
            lemma_airport_enc_len(a);
            lemma_varint_enc_len(106);
            lemma_varint_enc_len(airport_enc(a).len() as u64);
        },
        None => {},
    }
    match f.to {
        Some(a) => {
            lemma_airport_enc_len(a);
            lemma_varint_enc_len(114);
            lemma_varint_enc_len(airport_enc(a).len() as u64);
        },
        None => {},
    }
}

/// The packed passenger payload holds exactly one byte per passenger.
proof fn lemma_passengers_payload_len(ps: Seq<Passenger>)
    ensures
        passengers_payload(ps).len() == ps.len(),
    decreases ps.len(),
{
    if ps.len() > 0 {
        lemma_passengers_payload_len(ps.skip(1));
        assert(varint_enc(passenger_num(ps[0])).len() == 1);
    }
}

/// Decoding an encoded airport yields the airport back.
pub proof fn lemma_airport_round_trip(a: AirportV)
    requires
        wf_airport(a),
    ensures
        airport_dec(airport_enc(a), airport_v_default()) == Some(a),
{
    if a.name.len() == 0 {
        assert(a =~= airport_v_default());
    } else {
        let u = encode_utf8(a.name);
        let lv = u.len() as u64;
        let whole = airport_enc(a);
        assert(whole =~= varint_enc(18) + (varint_enc(lv) + u));
        lemma_varint_round_trip(18, varint_enc(lv) + u);
        assert(varint_enc(18) =~= seq![18u8]);
        assert(varint_parse(whole) == Some((18u64, 1int)));
        let rest = whole.skip(1);
        assert(rest =~= varint_enc(lv) + u + Seq::<u8>::empty());
        lemma_lendel_round_trip(u, Seq::empty());
        let m = varint_enc(lv).len() + u.len();
        assert(lendel_parse(rest) == Some((u, m as int)));
        encode_utf8_valid_utf8(a.name);
        encode_utf8_decode_utf8(a.name);
        assert(rest.skip(m as int) =~= Seq::<u8>::empty());
        let x = AirportV { name: decode_utf8(u) };
        assert(airport_dec(Seq::<u8>::empty(), x) == Some(x));
        assert(airport_dec(whole, airport_v_default()) == Some(x));
        assert(x =~= a);
    }
}

/// A date record at the head of a leg buffer sets the date and is consumed.
proof fn lemma_flight_dec_step_date(date: Seq<char>, tail: Seq<u8>, acc: FlightDataV)
    requires
        encode_utf8(date).len() < size_bound(),
    ensures
        flight_dec(lendel_enc(18, encode_utf8(date)) + tail, acc) == flight_dec(
            tail,
            FlightDataV { date: date, ..acc },
        ),
{
    let u = encode_utf8(date);
    let lv = u.len() as u64;
    let whole = lendel_enc(18, u) + tail;
    assert(whole =~= varint_enc(18) + (varint_enc(lv) + u + tail));
    lemma_varint_round_trip(18, varint_enc(lv) + u + tail);
    assert(varint_enc(18) =~= seq![18u8]);
    assert(varint_parse(whole) == Some((18u64, 1int)));
    let rest = whole.skip(1);
    assert(rest =~= varint_enc(lv) + u + tail);
    lemma_lendel_round_trip(u, tail);
    let m = varint_enc(lv).len() + u.len();
    assert(lendel_parse(rest) == Some((u, m as int)));
    encode_utf8_valid_utf8(date);
    encode_utf8_decode_utf8(date);
    assert(rest.skip(m as int) =~= tail);
    assert(FlightDataV { date: decode_utf8(u), ..acc } =~= FlightDataV { date: date, ..acc });
}

/// An airport record at the head of a leg buffer sets the origin (tag 106)
/// or destination (tag 114) and is consumed.
proof fn lemma_flight_dec_step_airport(tag: u64, a: AirportV, tail: Seq<u8>, acc: FlightDataV)
    requires
        tag == 106 || tag == 114,
        wf_airport(a),
    ensures
        tag == 106 ==> flight_dec(lendel_enc(tag, airport_enc(a)) + tail, acc) == flight_dec(
            tail,
            FlightDataV { from: Some(a), ..acc },
        ),
        tag == 114 ==> flight_dec(lendel_enc(tag, airport_enc(a)) + tail, acc) == flight_dec(
            tail,
            FlightDataV { to: Some(a), ..acc },
        ),
{
    let p = airport_enc(a);
    lemma_airport_enc_len(a);
    let lv = p.len() as u64;
    let whole = lendel_enc(tag, p) + tail;
    assert(whole =~= varint_enc(tag) + (varint_enc(lv) + p + tail));
    lemma_varint_round_trip(tag, varint_enc(lv) + p + tail);
    assert(varint_enc(tag) =~= seq![tag as u8]);
    assert(varint_parse(whole) == Some((tag, 1int)));
    let rest = whole.skip(1);
    assert(rest =~= varint_enc(lv) + p + tail);
    lemma_lendel_round_trip(p, tail);
    let m = varint_enc(lv).len() + p.len();
    assert(lendel_parse(rest) == Some((p, m as int)));
    lemma_airport_round_trip(a);
    assert(rest.skip(m as int) =~= tail);
}

/// Decoding an encoded leg yields the leg back.
pub proof fn lemma_flight_round_trip(f: FlightDataV)
    requires
        wf_flight(f),
    ensures
        flight_dec(flight_enc(f), flight_v_default()) == Some(f),
{
    let d = if f.date.len() == 0 {
        Seq::<u8>::empty()
    } else {
        lendel_enc(18, encode_utf8(f.date))
    };
    let fr = opt_airport_enc(f.from, 106);
    let to = opt_airport_enc(f.to, 114);
    let acc1 = FlightDataV { date: f.date, from: None, to: None };
    let acc2 = FlightDataV { from: f.from, ..acc1 };
    let acc3 = FlightDataV { to: f.to, ..acc2 };
    assert(flight_enc(f) =~= d + (fr + to));
    if f.date.len() == 0 {
        assert(d + (fr + to) =~= fr + to);
        assert(acc1 =~= flight_v_default());
    } else {
        lemma_flight_dec_step_date(f.date, fr + to, flight_v_default());
    }
    assert(flight_dec(flight_enc(f), flight_v_default()) == flight_dec(fr + to, acc1));
    match f.from {
        None => {
            assert(fr + to =~= to);
            assert(acc2 =~= acc1);
        },
        Some(a) => {
            lemma_flight_dec_step_airport(106, a, to, acc1);
            assert(fr + to =~= lendel_enc(106, airport_enc(a)) + to);
            assert(acc2 =~= FlightDataV { from: Some(a), ..acc1 });
        },
    }
    assert(flight_dec(fr + to, acc1) == flight_dec(to, acc2));
    match f.to {
        None => {
            assert(to =~= Seq::<u8>::empty());
            assert(acc3 =~= acc2);
        },
        Some(a) => {
            lemma_flight_dec_step_airport(114, a, Seq::empty(), acc2);
            assert(to =~= lendel_enc(114, airport_enc(a)) + Seq::<u8>::empty());
            assert(acc3 =~= FlightDataV { to: Some(a), ..acc2 });
        },
    }
    assert(flight_dec(to, acc2) == flight_dec(Seq::<u8>::empty(), acc3));
    assert(acc3 =~= f);
}

/// Parsing an encoded packed passenger payload appends the passengers, in
/// order, to what was already parsed.
proof fn lemma_packed_round_trip(ps: Seq<Passenger>, acc: Seq<Passenger>)
    ensures
        packed_parse(passengers_payload(ps), acc) == Some(acc + ps),
    decreases ps.len(),
{
    if ps.len() == 0 {
        assert(acc + ps =~= acc);
    } else {
        let p = ps[0];
        let n = passenger_num(p);
        let whole = passengers_payload(ps);
        assert(whole =~= varint_enc(n) + passengers_payload(ps.skip(1)));
        lemma_varint_round_trip(n, passengers_payload(ps.skip(1)));
        assert(varint_enc(n) =~= seq![n as u8]);
        assert(varint_parse(whole) == Some((n, 1int)));
        assert(whole.skip(1) =~= passengers_payload(ps.skip(1)));
        assert(passenger_of_i32(n as i32) == p);
        lemma_packed_round_trip(ps.skip(1), acc.push(p));
        assert(acc.push(p) + ps.skip(1) =~= acc + ps);
    }
}

/// A leg record at the head of a query buffer appends the leg and is
/// consumed.
proof fn lemma_tfs_dec_step_leg(f: FlightDataV, tail: Seq<u8>, acc: TfsV)
    requires
        wf_flight(f),
    ensures
        tfs_dec(lendel_enc(26, flight_enc(f)) + tail, acc) == tfs_dec(
            tail,
            TfsV { data: acc.data.push(f), ..acc },
        ),
{
    let p = flight_enc(f);
    lemma_flight_enc_len(f);
    let lv = p.len() as u64;
    let whole = lendel_enc(26, p) + tail;
    assert(whole =~= varint_enc(26) + (varint_enc(lv) + p + tail));
    lemma_varint_round_trip(26, varint_enc(lv) + p + tail);
    assert(varint_enc(26) =~= seq![26u8]);
    assert(varint_parse(whole) == Some((26u64, 1int)));
    let rest = whole.skip(1);
    assert(rest =~= varint_enc(lv) + p + tail);
    lemma_lendel_round_trip(p, tail);
    let m = varint_enc(lv).len() + p.len();
    assert(lendel_parse(rest) == Some((p, m as int)));
    lemma_flight_round_trip(f);
    assert(rest.skip(m as int) =~= tail);
}

/// The leg records of a leg list, at the head of a query buffer, append the
/// legs in order and are consumed.
proof fn lemma_tfs_dec_legs(legs: Seq<FlightDataV>, tail: Seq<u8>, acc: TfsV)
    requires
        forall|i: int| 0 <= i < legs.len() ==> wf_flight(#[trigger] legs[i]),
    ensures
        tfs_dec(legs_enc(legs) + tail, acc) == tfs_dec(tail, TfsV { data: acc.data + legs, ..acc }),
    decreases legs.len(),
{
    if legs.len() == 0 {
        assert(legs_enc(legs) + tail =~= tail);
        assert(TfsV { data: acc.data + legs, ..acc } =~= acc);
    } else {
        let f = legs[0];
        let whole = legs_enc(legs) + tail;
        assert(whole =~= lendel_enc(26, flight_enc(f)) + (legs_enc(legs.skip(1)) + tail));
        lemma_tfs_dec_step_leg(f, legs_enc(legs.skip(1)) + tail, acc);
        let acc1 = TfsV { data: acc.data.push(f), ..acc };
        assert(forall|i: int|
            0 <= i < legs.skip(1).len() ==> wf_flight(#[trigger] legs.skip(1)[i]));
        lemma_tfs_dec_legs(legs.skip(1), tail, acc1);
        assert(TfsV { data: acc1.data + legs.skip(1), ..acc1 } =~= TfsV {
            data: acc.data + legs,
            ..acc
        });
    }
}

/// A seat record at the head of a query buffer sets the seat and is
/// consumed.
proof fn lemma_tfs_dec_step_seat(s: Seat, tail: Seq<u8>, acc: TfsV)
    ensures
        tfs_dec(varint_enc(72) + varint_enc(seat_num(s)) + tail, acc) == tfs_dec(
            tail,
            TfsV { seat: s, ..acc },
        ),
{
    let n = seat_num(s);
    let whole = varint_enc(72) + varint_enc(n) + tail;
    assert(whole =~= varint_enc(72) + (varint_enc(n) + tail));
    lemma_varint_round_trip(72, varint_enc(n) + tail);
    assert(varint_enc(72) =~= seq![72u8]);
    assert(varint_parse(whole) == Some((72u64, 1int)));
    let rest = whole.skip(1);
    assert(rest =~= varint_enc(n) + tail);
    lemma_varint_round_trip(n, tail);
    assert(varint_enc(n) =~= seq![n as u8]);
    assert(varint_parse(rest) == Some((n, 1int)));
    assert(rest.skip(1) =~= tail);
    assert(seat_of_i32(n as i32) == s);
}

/// A packed passenger record at the head of a query buffer replaces the
/// passenger list and is consumed.
proof fn lemma_tfs_dec_step_passengers(ps: Seq<Passenger>, tail: Seq<u8>, acc: TfsV)
    requires
        ps.len() < size_bound(),
    ensures
        tfs_dec(lendel_enc(66, passengers_payload(ps)) + tail, acc) == tfs_dec(
            tail,
            TfsV { passengers: ps, ..acc },
        ),
{
    let p = passengers_payload(ps);
    lemma_passengers_payload_len(ps);
    let lv = p.len() as u64;
    let whole = lendel_enc(66, p) + tail;
    assert(whole =~= varint_enc(66) + (varint_enc(lv) + p + tail));
    lemma_varint_round_trip(66, varint_enc(lv) + p + tail);
    assert(varint_enc(66) =~= seq![66u8]);
    assert(varint_parse(whole) == Some((66u64, 1int)));
    let rest = whole.skip(1);
    assert(rest =~= varint_enc(lv) + p + tail);
    lemma_lendel_round_trip(p, tail);
    let m = varint_enc(lv).len() + p.len();
    assert(lendel_parse(rest) == Some((p, m as int)));
    lemma_packed_round_trip(ps, Seq::empty());
    assert(Seq::<Passenger>::empty() + ps =~= ps);
    assert(rest.skip(m as int) =~= tail);
}

/// A trip record at the head of a query buffer sets the trip and is
/// consumed.
proof fn lemma_tfs_dec_step_trip(t: Trip, tail: Seq<u8>, acc: TfsV)
    ensures
        tfs_dec(varint_enc(152) + varint_enc(trip_num(t)) + tail, acc) == tfs_dec(
            tail,
            TfsV { trip: t, ..acc },
        ),
{
    let n = trip_num(t);
    let whole = varint_enc(152) + varint_enc(n) + tail;
    assert(whole =~= varint_enc(152) + (varint_enc(n) + tail));
    lemma_varint_round_trip(152, varint_enc(n) + tail);
    assert(varint_parse(whole) == Some((152u64, varint_enc(152u64).len() as int)));
    let rest = whole.skip(varint_enc(152u64).len() as int);
    assert(rest =~= varint_enc(n) + tail);
    lemma_varint_round_trip(n, tail);
    assert(varint_enc(n) =~= seq![n as u8]);
    assert(varint_parse(rest) == Some((n, 1int)));
    assert(rest.skip(1) =~= tail);
    assert(trip_of_i32(n as i32) == t);
}

/// Round trip: decoding the encoding of any well-formed query yields the
/// query itself — every leg, in order, and every enumeration value.
pub proof fn lemma_tfs_round_trip(t: TfsV)
    requires
        wf_tfs(t),
    ensures
        tfs_dec(tfs_enc(t), tfs_v_default()) == Some(t),
{
    let legs = legs_enc(t.data);
    let s = if t.seat == Seat::ECONOMY {
        Seq::<u8>::empty()
    } else {
        varint_enc(72) + varint_enc(seat_num(t.seat))
    };
    let p = if t.passengers.len() == 0 {
        Seq::<u8>::empty()
    } else {
        lendel_enc(66, passengers_payload(t.passengers))
    };
    let r = if t.trip == Trip::ROUND_TRIP {
        Seq::<u8>::empty()
    } else {
        varint_enc(152) + varint_enc(trip_num(t.trip))
    };
    let acc1 = TfsV { data: t.data, ..tfs_v_default() };
    let acc2 = TfsV { seat: t.seat, ..acc1 };
    let acc3 = TfsV { passengers: t.passengers, ..acc2 };
    let acc4 = TfsV { trip: t.trip, ..acc3 };
    assert(tfs_enc(t) =~= legs + (s + (p + r)));
    lemma_tfs_dec_legs(t.data, s + (p + r), tfs_v_default());
    assert(TfsV { data: tfs_v_default().data + t.data, ..tfs_v_default() } =~= acc1);
    assert(tfs_dec(tfs_enc(t), tfs_v_default()) == tfs_dec(s + (p + r), acc1));
    if t.seat == Seat::ECONOMY {
        assert(s + (p + r) =~= p + r);
        assert(acc2 =~= acc1);
    } else {
        assert(s + (p + r) =~= varint_enc(72) + varint_enc(seat_num(t.seat)) + (p + r));
        lemma_tfs_dec_step_seat(t.seat, p + r, acc1);
    }
    assert(tfs_dec(s + (p + r), acc1) == tfs_dec(p + r, acc2));
    if t.passengers.len() == 0 {
        assert(p + r =~= r);
        assert(acc3 =~= acc2);
    } else {
        assert(p + r =~= lendel_enc(66, passengers_payload(t.passengers)) + r);
        lemma_tfs_dec_step_passengers(t.passengers, r, acc2);
    }
    assert(tfs_dec(p + r, acc2) == tfs_dec(r, acc3));
    if t.trip == Trip::ROUND_TRIP {
        assert(r =~= Seq::<u8>::empty());
        assert(acc4 =~= acc3);
    } else {
        assert(r =~= varint_enc(152) + varint_enc(trip_num(t.trip)) + Seq::<u8>::empty());
        lemma_tfs_dec_step_trip(t.trip, Seq::empty(), acc3);
    }
    assert(tfs_dec(r, acc3) == tfs_dec(Seq::<u8>::empty(), acc4));
    assert(acc4 =~= t);
}

/// Leg order preservation: the decoded query carries the legs of the
/// encoded query in exactly their original order.
pub proof fn lemma_leg_order_preserved(t: TfsV)
    requires
        wf_tfs(t),
    ensures
        tfs_dec(tfs_enc(t), tfs_v_default()) matches Some(d) && d.data == t.data,
{
    lemma_tfs_round_trip(t);
}

/// Default elision: when the seat and trip are at their schema defaults and
/// the passenger list is empty, the encoding holds the leg records alone —
/// those three fields contribute no bytes.
pub proof fn lemma_default_elision(t: TfsV)
    requires
        t.seat == Seat::ECONOMY,
        t.passengers.len() == 0,
        t.trip == Trip::ROUND_TRIP,
    ensures
        tfs_enc(t) == legs_enc(t.data),
{
    assert(tfs_enc(t) =~= legs_enc(t.data));
}

} // verus!
