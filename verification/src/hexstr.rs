//! Hexadecimal feed identifiers and update payloads: validity, the decoded
//! bytes, and the removal of a leading "0x" marker.

use vstd::prelude::*;
use vstd::string::StringSliceAdditionalSpecFns;

verus! {

/// The bytes a character sequence is encoded as (UTF-8).
pub open spec fn str_bytes(s: Seq<char>) -> Seq<u8> {
    vstd::utf8::encode_utf8(s)
}

/// An ASCII hexadecimal digit: 0-9, a-f or A-F.
pub open spec fn is_hex_digit(b: u8) -> bool {
    (48 <= b <= 57) || (97 <= b <= 102) || (65 <= b <= 70)
}

pub open spec fn hex_nibble(b: u8) -> u8 {
    if 48 <= b <= 57 {
        (b - 48) as u8
    } else if 97 <= b <= 102 {
        (b - 87) as u8
    } else {
        (b - 55) as u8
    }
}

/// An even number of hexadecimal digits.
pub open spec fn is_hex_seq(s: Seq<u8>) -> bool {
    s.len() % 2 == 0 && forall|i: int| 0 <= i < s.len() ==> is_hex_digit(#[trigger] s[i])
}

/// The bytes an even sequence of hexadecimal digits spells, high nibble
/// first.
pub open spec fn hex_bytes(s: Seq<u8>) -> Seq<u8> {
    Seq::new(s.len() / 2, |i: int| (hex_nibble(s[2 * i]) * 16 + hex_nibble(s[2 * i + 1])) as u8)
}

/// Relies on hex::decode: it succeeds exactly on an even number of
/// hexadecimal digit bytes (0-9, a-f, A-F, upper and lower case mixed
/// freely) and returns, for each digit pair, the byte the pair spells,
/// high nibble first.
#[verifier::external_body]
pub fn hex_decode(data: &[u8]) -> (r: Option<Vec<u8>>)
    ensures
        r is Some <==> is_hex_seq(data@),
        r matches Some(v) ==> v@ == hex_bytes(data@),
{
    match hex::decode(data) {
        Ok(v) => Some(v),
        Err(_) => None,
    }
}

/// Every byte of the string is a hexadecimal digit.
#[verifier::loop_isolation(false)]
pub fn all_hex_digits(s: &str) -> (r: bool)
    ensures
        r == forall|i: int|
            0 <= i < s.spec_bytes().len() ==> is_hex_digit(#[trigger] s.spec_bytes()[i]),
{
    let bytes = s.as_bytes();
    for i in 0..bytes.len()
        invariant
            forall|k: int| 0 <= k < i ==> is_hex_digit(#[trigger] bytes@[k]),
    {
        let b = bytes[i];
        if !((48 <= b && b <= 57) || (97 <= b && b <= 102) || (65 <= b && b <= 70)) {
            proof {
                assert(!is_hex_digit(bytes@[i as int]));
            }
            return false;
        }
    }
    true
}

/// The byte string with every leading "0x" pair removed, as
/// `str::trim_start_matches("0x")` leaves it.
pub open spec fn strip_0x(s: Seq<u8>) -> Seq<u8>
    decreases s.len(),
{
    if s.len() >= 2 && s[0] == 48 && s[1] == 120 {
        strip_0x(s.skip(2))
    } else {
        s
    }
}

/// Copy the bytes of `s` that remain after removing every leading "0x".
#[verifier::loop_isolation(false)]
pub fn strip_hex_prefix(s: &str) -> (r: Vec<u8>)
    ensures
        r@ == strip_0x(s.spec_bytes()),
{
    let bytes = s.as_bytes();
    let len = bytes.len();
    let mut start: usize = 0;
    proof {
        assert(bytes@.skip(0) =~= bytes@);
    }
    while len - start >= 2 && bytes[start] == 48 && bytes[start + 1] == 120
        invariant
            start <= len,
            strip_0x(s.spec_bytes()) == strip_0x(bytes@.skip(start as int)),
        decreases len - start,
    {
        proof {
            assert(bytes@.skip(start as int).skip(2) =~= bytes@.skip(start as int + 2));
        }
        start = start + 2;
    }
    proof {
        assert(strip_0x(bytes@.skip(start as int)) == bytes@.skip(start as int));
    }
    let mut out: Vec<u8> = Vec::new();
    let mut i: usize = start;
    while i < len
        invariant
            start <= i <= len,
            out@ =~= bytes@.subrange(start as int, i as int),
        decreases len - i,
    {
        out.push(bytes[i]);
        i = i + 1;
    }
    proof {
        assert(out@ =~= bytes@.skip(start as int));
    }
    out
}

/// Whether a quote identifier from the price service names the feed: the
/// identifier with any "0x" marker removed spells the feed identifier.
#[verifier::loop_isolation(false)]
pub fn matches_feed_id(id: &str, feed_id: &str) -> (r: bool)
    ensures
        r == (strip_0x(id.spec_bytes()) == feed_id.spec_bytes()),
{
    let stripped = strip_hex_prefix(id);
    let fb = feed_id.as_bytes();
    if stripped.len() != fb.len() {
        return false;
    }
    let mut i: usize = 0;
    while i < fb.len()
        invariant
            0 <= i <= fb.len(),
            forall|k: int| 0 <= k < i ==> stripped@[k] == fb@[k],
        decreases fb.len() - i,
    {
        if stripped[i] != fb[i] {
            return false;
        }
        i = i + 1;
    }
    proof {
        assert(stripped@ =~= fb@);
    }
    true
}

} // verus!
