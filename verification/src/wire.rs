//! Wire-level primitives of the binary format: variable-length base-128
//! integers, length-delimited payloads, and skipping of unknown records.
//!
//! A varint is little-endian base-128: each byte carries seven payload bits
//! in its low bits, and the high bit signals that another byte follows.  The
//! encoder always emits the minimal number of bytes.  The parser accepts any
//! varint whose value fits in 64 bits and reports everything else, as well as
//! a varint running past the end of the buffer, as malformed.

use vstd::prelude::*;
use vstd::arithmetic::div_mod::lemma_fundamental_div_mod;

verus! {

/// Decoding failure: a varint runs past the end of the buffer or encodes a
/// value that does not fit in 64 bits, a length-delimited payload declares a
/// length exceeding the remaining bytes, a text payload is not valid UTF-8,
/// or a record carries a wire type outside the grammar.
#[derive(Clone, Copy, Debug, PartialEq, Eq, Structural)]
pub enum DecodeError {
    MalformedInput,
}

/// Minimal little-endian base-128 encoding of `v`.
pub open spec fn varint_enc(v: u64) -> Seq<u8>
    decreases v,
{
    if v < 128 {
        seq![v as u8]
    } else {
        seq![(128 + (v % 128)) as u8] + varint_enc(v / 128)
    }
}

/// Parses a varint at the head of `bytes`; returns the value and the number
/// of bytes consumed, or `None` if the varint is truncated or its value does
/// not fit in 64 bits.
pub open spec fn varint_parse(bytes: Seq<u8>) -> Option<(u64, int)>
    decreases bytes.len(),
{
    if bytes.len() == 0 {
        None
    } else if bytes[0] < 128 {
        Some((bytes[0] as u64, 1))
    } else {
        match varint_parse(bytes.skip(1)) {
            None => None,
            Some((v, n)) => {
                if (v as int) * 128 + (bytes[0] - 128) < 0x10000000000000000 {
                    Some(((((v as int) * 128 + (bytes[0] - 128)) as u64), n + 1))
                } else {
                    None
                }
            },
        }
    }
}

/// A successful varint parse consumes between 1 byte and the whole buffer.
pub proof fn lemma_varint_parse_bounds(bytes: Seq<u8>)
    ensures
        varint_parse(bytes) matches Some(p) ==> 1 <= p.1 <= bytes.len(),
    decreases bytes.len(),
{
    if bytes.len() > 0 && bytes[0] >= 128 {
        lemma_varint_parse_bounds(bytes.skip(1));
    }
}

/// The encoding of a 64-bit value occupies between 1 and 10 bytes.
pub proof fn lemma_varint_enc_len(v: u64)
    ensures
        1 <= varint_enc(v).len() <= 10,
{
    let v0 = v as int;
    let v1 = v0 / 128;
    let v2 = v1 / 128;
    let v3 = v2 / 128;
    let v4 = v3 / 128;
    let v5 = v4 / 128;
    let v6 = v5 / 128;
    let v7 = v6 / 128;
    let v8 = v7 / 128;
    let v9 = v8 / 128;
    assert(v9 < 128);
    if v0 >= 128 {
        assert(varint_enc(v0 as u64).len() == 1 + varint_enc(v1 as u64).len());
    }
    if v1 >= 128 {
        assert(varint_enc(v1 as u64).len() == 1 + varint_enc(v2 as u64).len());
    }
    if v2 >= 128 {
        assert(varint_enc(v2 as u64).len() == 1 + varint_enc(v3 as u64).len());
    }
    if v3 >= 128 {
        assert(varint_enc(v3 as u64).len() == 1 + varint_enc(v4 as u64).len());
    }
    if v4 >= 128 {
        assert(varint_enc(v4 as u64).len() == 1 + varint_enc(v5 as u64).len());
    }
    if v5 >= 128 {
        assert(varint_enc(v5 as u64).len() == 1 + varint_enc(v6 as u64).len());
    }
    if v6 >= 128 {
        assert(varint_enc(v6 as u64).len() == 1 + varint_enc(v7 as u64).len());
    }
    if v7 >= 128 {
        assert(varint_enc(v7 as u64).len() == 1 + varint_enc(v8 as u64).len());
    }
    if v8 >= 128 {
        assert(varint_enc(v8 as u64).len() == 1 + varint_enc(v9 as u64).len());
    }
    assert(varint_enc(v9 as u64).len() == 1);
}

/// Parsing an encoded value, followed by anything, yields the value back and
/// consumes exactly the encoding.
pub proof fn lemma_varint_round_trip(v: u64, rest: Seq<u8>)
    ensures
        varint_parse(varint_enc(v) + rest) == Some((v, varint_enc(v).len() as int)),
    decreases v,
{
    let whole = varint_enc(v) + rest;
    if v < 128 {
        assert(whole[0] == v as u8);
    } else {
        let b0: u8 = (128 + (v % 128)) as u8;
        lemma_varint_round_trip(v / 128, rest);
        assert(whole[0] == b0);
        assert(whole.skip(1) =~= varint_enc(v / 128) + rest);
        assert(((v / 128) as int) * 128 + (b0 - 128) == v as int);
        assert(varint_enc(v).len() == 1 + varint_enc(v / 128).len());
    }
}

/// Parses a length-prefixed payload at the head of `bytes`: a varint length
/// followed by that many payload bytes.  Returns the payload and the total
/// number of bytes consumed, or `None` if the length runs past the buffer.
pub open spec fn lendel_parse(bytes: Seq<u8>) -> Option<(Seq<u8>, int)> {
    match varint_parse(bytes) {
        None => None,
        Some((l, n)) => {
            if n + (l as int) <= bytes.len() {
                Some((bytes.subrange(n, n + (l as int)), n + (l as int)))
            } else {
                None
            }
        },
    }
}

/// A successful length-delimited parse consumes between 1 byte and the whole
/// buffer.
pub proof fn lemma_lendel_parse_bounds(bytes: Seq<u8>)
    ensures
        lendel_parse(bytes) matches Some(p) ==> 1 <= p.1 <= bytes.len(),
{
    lemma_varint_parse_bounds(bytes);
}

/// Parsing a length-prefixed payload we just encoded, followed by anything,
/// yields the payload back and consumes exactly the prefix and the payload.
pub proof fn lemma_lendel_round_trip(payload: Seq<u8>, rest: Seq<u8>)
    requires
        payload.len() < 0x10000000000000000,
    ensures
        lendel_parse(varint_enc(payload.len() as u64) + payload + rest) == Some(
            (payload, (varint_enc(payload.len() as u64).len() + payload.len()) as int),
        ),
{
    let lv = payload.len() as u64;
    let whole = varint_enc(lv) + payload + rest;
    assert(whole =~= varint_enc(lv) + (payload + rest));
    lemma_varint_round_trip(lv, payload + rest);
    let n = varint_enc(lv).len() as int;
    assert(whole.subrange(n, n + payload.len() as int) =~= payload);
}

/// The number of bytes an unrecognized record occupies after its tag: a
/// varint for wire type 0, a length-prefixed payload for wire type 2; any
/// other wire type is outside the grammar.
pub open spec fn unknown_parse(tag: u64, bytes: Seq<u8>) -> Option<int> {
    if tag % 8 == 0 {
        match varint_parse(bytes) {
            None => None,
            Some((v, n)) => Some(n),
        }
    } else if tag % 8 == 2 {
        match lendel_parse(bytes) {
            None => None,
            Some((p, m)) => Some(m),
        }
    } else {
        None
    }
}

/// A successful skip of an unrecognized record consumes between 1 byte and
/// the whole buffer.
pub proof fn lemma_unknown_parse_bounds(tag: u64, bytes: Seq<u8>)
    ensures
        unknown_parse(tag, bytes) matches Some(m) ==> 1 <= m <= bytes.len(),
{
    lemma_varint_parse_bounds(bytes);
    lemma_lendel_parse_bounds(bytes);
}

/// Appends the minimal varint encoding of `v` to `out`.
pub fn write_varint(out: &mut Vec<u8>, v: u64)
    ensures
        final(out)@ == old(out)@ + varint_enc(v),
    decreases v,
{
    if v < 128 {
        out.push(v as u8);
        assert(out@ =~= old(out)@ + varint_enc(v));
    } else {
        out.push((128 + (v % 128)) as u8);
        write_varint(out, v / 128);
        assert(out@ =~= old(out)@ + varint_enc(v));
    }
}

/// Reads the varint starting at `pos`; on success returns its value and the
/// position just past it.
pub fn read_varint(bytes: &[u8], pos: usize) -> (r: Result<(u64, usize), DecodeError>)
    requires
        pos <= bytes@.len(),
    ensures
        match r {
            Ok(p) => {
                &&& varint_parse(bytes@.skip(pos as int)) == Some((p.0, p.1 - pos as int))
                &&& pos < p.1 <= bytes@.len()
            },
            Err(e) => {
                &&& varint_parse(bytes@.skip(pos as int)) is None
                &&& e == DecodeError::MalformedInput
            },
        },
    decreases bytes@.len() - pos,
{
    let ghost suffix = bytes@.skip(pos as int);
    if pos == bytes.len() {
        return Err(DecodeError::MalformedInput);
    }
    let b = *vstd::slice::slice_index_get(bytes, pos);
    assert(suffix[0] == b);
    if b < 128 {
        Ok((b as u64, pos + 1))
    } else {
        assert(suffix.skip(1) =~= bytes@.skip(pos as int + 1));
        match read_varint(bytes, pos + 1) {
            Err(e) => Err(e),
            Ok((v, np)) => {
                let low: u64 = (b - 128) as u64;
                proof {
                    lemma_fundamental_div_mod(u64::MAX - low, 128);
                    let q = (u64::MAX - low) as int / 128;
                    if v <= q {
                        assert((v as int) * 128 <= q * 128) by (nonlinear_arith)
                            requires v as int <= q;
                    } else {
                        assert((v as int) * 128 >= (q + 1) * 128) by (nonlinear_arith)
                            requires v as int >= q + 1;
                    }
                }
                if v <= (u64::MAX - low) / 128 {
                    assert((v as int) * 128 + low < 0x10000000000000000);
                    Ok((v * 128 + low, np))
                } else {
                    assert((v as int) * 128 + low >= 0x10000000000000000);
                    Err(DecodeError::MalformedInput)
                }
            },
        }
    }
}

/// Reads the length-prefixed payload of a record starting at `pos`; on
/// success returns the payload's start and end positions in `bytes`.
pub fn read_lendel(bytes: &[u8], pos: usize) -> (r: Result<(usize, usize), DecodeError>)
    requires
        pos <= bytes@.len(),
    ensures
        match r {
            Ok(p) => {
                &&& lendel_parse(bytes@.skip(pos as int)) == Some(
                    (bytes@.subrange(p.0 as int, p.1 as int), p.1 - pos as int),
                )
                &&& pos < p.0 <= p.1 <= bytes@.len()
            },
            Err(e) => {
                &&& lendel_parse(bytes@.skip(pos as int)) is None
                &&& e == DecodeError::MalformedInput
            },
        },
{
    let ghost suffix = bytes@.skip(pos as int);
    match read_varint(bytes, pos) {
        Err(e) => Err(e),
        Ok((l, np)) => {
            let remaining = bytes.len() - np;
            if l <= remaining as u64 {
                let end = np + (l as usize);
                proof {
                    let n = np - pos as int;
                    assert(suffix.subrange(n, n + (l as int)) =~= bytes@.subrange(
                        np as int,
                        end as int,
                    ));
                }
                Ok((np, end))
            } else {
                Err(DecodeError::MalformedInput)
            }
        },
    }
}

/// Skips an unrecognized record starting at `pos`, given its full tag; on
/// success returns the position just past the record.
pub fn skip_unknown(bytes: &[u8], pos: usize, tag: u64) -> (r: Result<usize, DecodeError>)
    requires
        pos <= bytes@.len(),
    ensures
        match r {
            Ok(np) => {
                &&& unknown_parse(tag, bytes@.skip(pos as int)) == Some(np - pos as int)
                &&& pos < np <= bytes@.len()
            },
            Err(e) => {
                &&& unknown_parse(tag, bytes@.skip(pos as int)) is None
                &&& e == DecodeError::MalformedInput
            },
        },
{
    if tag % 8 == 0 {
        match read_varint(bytes, pos) {
            Err(e) => Err(e),
            Ok((v, np)) => Ok(np),
        }
    } else if tag % 8 == 2 {
        match read_lendel(bytes, pos) {
            Err(e) => Err(e),
            Ok((s, e2)) => Ok(e2),
        }
    } else {
        Err(DecodeError::MalformedInput)
    }
}

/// Relies on String::from_utf8: it returns the decoded string exactly when
/// the bytes are valid UTF-8, and rejects them otherwise.
#[verifier::external_body]
pub(crate) fn bytes_to_string(v: &[u8]) -> (r: Option<String>)
    ensures
        r is Some <==> vstd::utf8::valid_utf8(v@),
        r matches Some(s) ==> s@ == vstd::utf8::decode_utf8(v@),
{
    match String::from_utf8(v.to_vec()) {
        Ok(s) => Some(s),
        Err(_) => None,
    }
}

} // verus!
