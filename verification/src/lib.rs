//! A compact, versioned binary encoding of a flight-search query.
//!
//! The crate maps a typed query value (trip type, seat class, passenger mix,
//! and an ordered list of per-leg origin/destination/date criteria) to a
//! tag-based binary wire format, and back.  The field numbers and wire types
//! are an external compatibility contract: a third party consumes the exact
//! byte layout produced here.

pub mod wire;
pub mod flights;
pub mod b64;
pub mod tfs;
