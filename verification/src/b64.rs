//! The textual rendering of an encoded query: standard base64 with `=`
//! padding and no URL-safe substitutions.
//!
//! The encoding itself is done by an outside routine; this module pins its
//! result down byte for byte and proves that the rendering is exactly
//! reversible.

use vstd::prelude::*;

verus! {

/// The base64 alphabet: the ASCII byte standing for a six-bit value.
pub open spec fn b64_byte(v: int) -> u8
    recommends
        0 <= v < 64,
{
    if v < 26 {
        (65 + v) as u8  // 'A'..'Z'
    } else if v < 52 {
        (97 + (v - 26)) as u8  // 'a'..'z'
    } else if v < 62 {
        (48 + (v - 52)) as u8  // '0'..'9'
    } else if v == 62 {
        43u8  // '+'
    } else {
        47u8  // '/'
    }
}

/// Standard base64 of a byte sequence, as ASCII bytes: each group of three
/// input bytes becomes four alphabet bytes; a trailing group of one or two
/// bytes is padded with `=` (61).
pub open spec fn base64_bytes(s: Seq<u8>) -> Seq<u8>
    decreases s.len(),
{
    if s.len() == 0 {
        Seq::empty()
    } else if s.len() == 1 {
        let b0 = s[0] as int;
        seq![b64_byte(b0 / 4), b64_byte((b0 % 4) * 16), 61u8, 61u8]
    } else if s.len() == 2 {
        let b0 = s[0] as int;
        let b1 = s[1] as int;
        seq![
            b64_byte(b0 / 4),
            b64_byte((b0 % 4) * 16 + b1 / 16),
            b64_byte((b1 % 16) * 4),
            61u8,
        ]
    } else {
        let b0 = s[0] as int;
        let b1 = s[1] as int;
        let b2 = s[2] as int;
        seq![
            b64_byte(b0 / 4),
            b64_byte((b0 % 4) * 16 + b1 / 16),
            b64_byte((b1 % 16) * 4 + b2 / 64),
            b64_byte(b2 % 64),
        ] + base64_bytes(s.skip(3))
    }
}

/// Standard base64 of a byte sequence, as text.
pub open spec fn base64_chars(s: Seq<u8>) -> Seq<char> {
    base64_bytes(s).map_values(|b: u8| b as char)
}

/// The six-bit value of an alphabet byte, or -1 for a byte outside the
/// alphabet (`=` among them).
pub open spec fn b64_val(b: u8) -> int {
    if 65 <= b < 91 {
        b - 65
    } else if 97 <= b < 123 {
        b - 97 + 26
    } else if 48 <= b < 58 {
        b - 48 + 52
    } else if b == 43 {
        62
    } else if b == 47 {
        63
    } else {
        -1
    }
}

/// Parses standard base64 back to bytes: four alphabet bytes per group,
/// with canonical `=` padding closing the final group.  `None` for anything
/// that the encoder cannot have produced.
pub open spec fn base64_parse(s: Seq<u8>) -> Option<Seq<u8>>
    decreases s.len(),
{
    if s.len() == 0 {
        Some(Seq::empty())
    } else if s.len() < 4 {
        None
    } else {
        let c0 = b64_val(s[0]);
        let c1 = b64_val(s[1]);
        if c0 < 0 || c1 < 0 {
            None
        } else if s.len() == 4 && s[2] == 61 && s[3] == 61 {
            if c1 % 16 == 0 {
                Some(seq![(c0 * 4 + c1 / 16) as u8])
            } else {
                None
            }
        } else if s.len() == 4 && s[3] == 61 {
            let c2 = b64_val(s[2]);
            if c2 >= 0 && c2 % 4 == 0 {
                Some(seq![(c0 * 4 + c1 / 16) as u8, ((c1 % 16) * 16 + c2 / 4) as u8])
            } else {
                None
            }
        } else {
            let c2 = b64_val(s[2]);
            let c3 = b64_val(s[3]);
            if c2 < 0 || c3 < 0 {
                None
            } else {
                match base64_parse(s.skip(4)) {
                    None => None,
                    Some(rest) => Some(
                        seq![
                            (c0 * 4 + c1 / 16) as u8,
                            ((c1 % 16) * 16 + c2 / 4) as u8,
                            ((c2 % 4) * 64 + c3) as u8,
                        ] + rest,
                    ),
                }
            }
        }
    }
}

/// The alphabet and its value table invert each other, and the alphabet
/// never yields the padding byte.
proof fn lemma_b64_byte_val(v: int)
    requires
        0 <= v < 64,
    ensures
        b64_val(b64_byte(v)) == v,
        b64_byte(v) != 61,
{
}

/// Textual round trip: parsing the base64 rendering of any byte sequence
/// yields the byte sequence back.
pub proof fn lemma_base64_round_trip(b: Seq<u8>)
    ensures
        base64_parse(base64_bytes(b)) == Some(b),
    decreases b.len(),
{
    let s = base64_bytes(b);
    if b.len() == 0 {
        assert(Seq::<u8>::empty() =~= b);
    } else if b.len() == 1 {
        let b0 = b[0] as int;
        lemma_b64_byte_val(b0 / 4);
        lemma_b64_byte_val((b0 % 4) * 16);
        assert(seq![(b64_val(s[0]) * 4 + b64_val(s[1]) / 16) as u8] =~= b);
    } else if b.len() == 2 {
        let b0 = b[0] as int;
        let b1 = b[1] as int;
        lemma_b64_byte_val(b0 / 4);
        lemma_b64_byte_val((b0 % 4) * 16 + b1 / 16);
        lemma_b64_byte_val((b1 % 16) * 4);
        assert(seq![
            (b64_val(s[0]) * 4 + b64_val(s[1]) / 16) as u8,
            ((b64_val(s[1]) % 16) * 16 + b64_val(s[2]) / 4) as u8,
        ] =~= b);
    } else {
        let b0 = b[0] as int;
        let b1 = b[1] as int;
        let b2 = b[2] as int;
        let head = seq![
            b64_byte(b0 / 4),
            b64_byte((b0 % 4) * 16 + b1 / 16),
            b64_byte((b1 % 16) * 4 + b2 / 64),
            b64_byte(b2 % 64),
        ];
        assert(s =~= head + base64_bytes(b.skip(3)));
        lemma_b64_byte_val(b0 / 4);
        lemma_b64_byte_val((b0 % 4) * 16 + b1 / 16);
        lemma_b64_byte_val((b1 % 16) * 4 + b2 / 64);
        lemma_b64_byte_val(b2 % 64);
        lemma_base64_round_trip(b.skip(3));
        let tail = base64_bytes(b.skip(3));
        if b.len() == 3 {
            assert(tail =~= Seq::<u8>::empty());
            assert(s.len() == 4);
        } else {
            assert(tail.len() >= 4);
            assert(s.len() > 4);
        }
        assert(s[3] != 61);
        assert(s.skip(4) =~= tail);
        let c0 = b64_val(s[0]);
        let c1 = b64_val(s[1]);
        let c2 = b64_val(s[2]);
        let c3 = b64_val(s[3]);
        assert(seq![
            (c0 * 4 + c1 / 16) as u8,
            ((c1 % 16) * 16 + c2 / 4) as u8,
            ((c2 % 4) * 64 + c3) as u8,
        ] + b.skip(3) =~= b);
    }
}

/// Relies on base64_light::base64_encode_bytes: standard base64 with `=`
/// padding, three input bytes to four alphabet characters, no line breaks.
#[verifier::external_body]
pub(crate) fn encode_base64(b: &Vec<u8>) -> (r: String)
    ensures
        r@ == base64_chars(b@),
{
    base64_light::base64_encode_bytes(b)
}

} // verus!
