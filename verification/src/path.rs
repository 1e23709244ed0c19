//! Public helpers for the archive virtual-path byte contract: normalized lookup
//! keys and their `path_bytes_hex` spelling.

use vstd::prelude::*;
use vstd::string::*;
use vstd::utf8::*;

use crate::error::{ArchiveError, Result};
use crate::paths::{ascii_chars, hex_digit, spec_hex_bytes, spec_hex_chars, spec_normalize};

verus! {

/// Normalize archive virtual-path bytes only. This is not a safety check.
pub fn normalize_archive_path_bytes(path: &[u8]) -> (normalized: Vec<u8>)
    ensures
        normalized@ == spec_normalize(path@),
{
    crate::paths::normalize_archive_path_bytes(path)
}

/// Encode archive path bytes as lowercase hexadecimal text; the input is not normalized.
pub fn encode_archive_path_hex(path: &[u8]) -> (hex: String)
    ensures
        hex@ == spec_hex_chars(path@),
{
    crate::paths::archive_path_bytes_to_hex(path)
}

/// Value of one hexadecimal digit, either case.
pub open spec fn hex_value(c: u8) -> Option<u8> {
    if 48u8 <= c <= 57u8 {
        Some((c - 48) as u8)
    } else if 97u8 <= c <= 102u8 {
        Some((c - 87) as u8)
    } else if 65u8 <= c <= 70u8 {
        Some((c - 55) as u8)
    } else {
        None
    }
}

pub open spec fn all_hex_digits(h: Seq<u8>) -> bool {
    forall|i: int| 0 <= i < h.len() ==> (#[trigger] hex_value(h[i])) is Some
}

/// Bytes spelled by pairs of hexadecimal digits, high digit first.
pub open spec fn spec_decode_hex(h: Seq<u8>) -> Seq<u8> {
    Seq::new(
        h.len() / 2,
        |i: int| (hex_value(h[2 * i])->0 * 16 + hex_value(h[2 * i + 1])->0) as u8,
    )
}

/// Decoded bytes, or `None` when the text has an odd length or a non-hex digit.
pub open spec fn decode_outcome(h: Seq<u8>) -> Option<Seq<u8>> {
    if h.len() % 2 == 0 && all_hex_digits(h) {
        Some(spec_decode_hex(h))
    } else {
        None
    }
}

pub fn hex_nibble(byte: u8) -> (r: Result<u8>)
    ensures
        r matches Ok(v) ==> hex_value(byte) == Some(v),
        r is Err <==> hex_value(byte) is None,
        r matches Err(e) ==> e matches ArchiveError::Archive(m)
            && m@ == "archive path hex contains a non-hexadecimal digit"@,
{
    if 48u8 <= byte && byte <= 57u8 {
        Ok(byte - 48)
    } else if 97u8 <= byte && byte <= 102u8 {
        Ok(byte - 87)
    } else if 65u8 <= byte && byte <= 70u8 {
        Ok(byte - 55)
    } else {
        Err(ArchiveError::Archive(String::from_str("archive path hex contains a non-hexadecimal digit")))
    }
}

/// Decode hexadecimal archive path bytes such as `ArchiveEntry::path_bytes_hex`.
pub fn decode_archive_path_hex(hex: &str) -> (r: Result<Vec<u8>>)
    ensures
        r is Ok <==> decode_outcome(hex.spec_bytes()) is Some,
        r matches Ok(v) ==> decode_outcome(hex.spec_bytes()) == Some(v@),
        r matches Err(e) ==> e matches ArchiveError::Archive(m) && (if hex.spec_bytes().len() % 2
            == 1 {
            m@ == "archive path hex must contain an even number of hexadecimal digits"@
        } else {
            m@ == "archive path hex contains a non-hexadecimal digit"@
        }),
{
    let bytes = hex.as_bytes();
    if bytes.len() % 2 != 0 {
        return Err(
            ArchiveError::Archive(
                String::from_str(
                    "archive path hex must contain an even number of hexadecimal digits",
                ),
            ),
        );
    }
    let mut decoded: Vec<u8> = Vec::new();
    let mut i: usize = 0;
    while i < bytes.len() / 2
        invariant
            bytes@ == hex.spec_bytes(),
            bytes@.len() % 2 == 0,
            i <= bytes@.len() / 2,
            decoded@.len() == i,
            forall|j: int| 0 <= j < 2 * i ==> (#[trigger] hex_value(bytes@[j])) is Some,
            forall|j: int| 0 <= j < i ==> #[trigger] decoded@[j] == spec_decode_hex(bytes@)[j],
        decreases bytes@.len() / 2 - i,
    {
        let high = match hex_nibble(bytes[2 * i]) {
            Ok(v) => v,
            Err(e) => {
                assert(!all_hex_digits(bytes@));
                return Err(e);
            },
        };
        let low = match hex_nibble(bytes[2 * i + 1]) {
            Ok(v) => v,
            Err(e) => {
                assert(!all_hex_digits(bytes@));
                return Err(e);
            },
        };
        decoded.push(high * 16 + low);
        proof {
            assert forall|j: int| 0 <= j < 2 * i + 2 implies (#[trigger] hex_value(bytes@[j])) is Some by {
                if j == 2 * i || j == 2 * i + 1 {
                } else {
                    assert(j < 2 * i);
                }
            }
        }
        i = i + 1;
    }
    assert(all_hex_digits(bytes@)) by {
        assert forall|j: int| 0 <= j < bytes@.len() implies (#[trigger] hex_value(bytes@[j])) is Some by {
            assert(j < 2 * i);
        }
    }
    assert(decoded@ =~= spec_decode_hex(bytes@));
    Ok(decoded)
}

/// Round trip of the scriptable lookup key: the UTF-8 bytes of the text that
/// `encode_archive_path_hex` returns for `path` decode back to `path`, which is why a
/// `path_bytes_hex` field can be fed back as an entry selector.
pub proof fn law_hex_round_trip(path: Seq<u8>)
    ensures
        decode_outcome(encode_utf8(spec_hex_chars(path))) == Some(path),
{
    let digits = spec_hex_bytes(path);
    assert forall|k: int| 0 <= k < digits.len() implies #[trigger] digits[k] < 128u8 by {
        assert(path[k / 2] / 16 < 16);
        assert(path[k / 2] % 16 < 16);
    }
    crate::paths::lemma_ascii_decodes(digits);
    encode_utf8_decode_utf8(ascii_chars(digits));
    decode_utf8_encode_utf8(digits);
    assert(encode_utf8(spec_hex_chars(path)) == digits);
    assert forall|k: int| 0 <= k < digits.len() implies (#[trigger] hex_value(digits[k])) is Some by {
        assert(path[k / 2] / 16 < 16);
        assert(path[k / 2] % 16 < 16);
    }
    assert(spec_decode_hex(digits) =~= path) by {
        assert forall|i: int| 0 <= i < path.len() implies spec_decode_hex(digits)[i] == path[i] by {
            let b = path[i];
            assert((2 * i) / 2 == i);
            assert((2 * i + 1) / 2 == i);
            assert((2 * i) % 2 == 0);
            assert((2 * i + 1) % 2 == 1);
            assert(digits[2 * i] == hex_digit(b / 16));
            assert(digits[2 * i + 1] == hex_digit(b % 16));
            assert(b / 16 * 16 + b % 16 == b);
        }
    }
}

/// ASCII lowercase of one byte.
pub open spec fn lower_byte(c: u8) -> u8 {
    if 65u8 <= c <= 90u8 {
        (c + 32) as u8
    } else {
        c
    }
}

/// The other half of the round trip: hex text that decodes, encoded again, gives
/// the same text in lowercase.
pub proof fn law_hex_reencodes_lowercase(h: Seq<u8>)
    requires
        decode_outcome(h) is Some,
    ensures
        spec_hex_bytes(decode_outcome(h)->0) == h.map_values(|c: u8| lower_byte(c)),
        spec_hex_chars(decode_outcome(h)->0) == ascii_chars(h.map_values(|c: u8| lower_byte(c))),
{
    let d = spec_decode_hex(h);
    let out = spec_hex_bytes(d);
    let want = h.map_values(|c: u8| lower_byte(c));
    assert(out.len() == want.len());
    assert forall|k: int| 0 <= k < out.len() implies out[k] == want[k] by {
        let i = k / 2;
        assert(0 <= i < d.len());
        assert(hex_value(h[2 * i]) is Some);
        assert(hex_value(h[2 * i + 1]) is Some);
        let hi = hex_value(h[2 * i])->0;
        let lo = hex_value(h[2 * i + 1])->0;
        assert(hi < 16 && lo < 16);
        assert(d[i] == (hi * 16 + lo) as u8);
        assert((hi * 16 + lo) / 16 == hi && (hi * 16 + lo) % 16 == lo) by (nonlinear_arith)
            requires
                hi < 16,
                lo < 16,
        ;
        if k % 2 == 0 {
            assert(k == 2 * i);
        } else {
            assert(k == 2 * i + 1);
        }
    }
    assert(out =~= want);
}

} // verus!
