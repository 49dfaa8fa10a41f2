//! Quotes from the off-chain price service: the response records, the exact
//! decimal parsing of a quote, and its conversion to the fixed-point price
//! the decision engine works on.
//!
//! A quote carries an integer mantissa (as a decimal string) and a decimal
//! exponent; its value is `mantissa * 10^exponent`. The engine holds prices
//! as unsigned integers scaled to eight fractional decimal digits.

use vstd::prelude::*;
use vstd::arithmetic::div_mod::{lemma_basic_div, lemma_div_basics_5};
use vstd::string::{StringSliceAdditionalSpecFns, StringExecFns};
use crate::OracleError;
use crate::hexstr::{str_bytes, strip_0x, is_hex_seq, hex_bytes, strip_hex_prefix, hex_decode};

verus! {

/// One quote as the price service reports it: the feed identifier and the
/// price record.
#[derive(Clone, Debug)]
pub struct ParsedPrice {
    pub id: String,
    pub price: PriceData,
}

/// The price record of a quote: a signed integer mantissa as a decimal
/// string, and a decimal exponent.
#[derive(Clone, Debug)]
pub struct PriceData {
    pub price: String,
    pub expo: i32,
}

/// A batch of quotes, one point-in-time snapshot.
#[derive(Clone, Debug)]
pub struct PythPriceResponse {
    pub parsed: Vec<ParsedPrice>,
}

/// How many fractional decimal digits the engine's fixed-point prices keep.
pub const PRICE_DECIMALS: u32 = 8;

pub open spec fn is_dec_digit(b: u8) -> bool {
    48 <= b <= 57
}

pub open spec fn all_dec_digits(s: Seq<u8>) -> bool {
    forall|i: int| 0 <= i < s.len() ==> is_dec_digit(#[trigger] s[i])
}

/// The value of a string of decimal digits.
pub open spec fn dec_val(s: Seq<u8>) -> int
    decreases s.len(),
{
    if s.len() == 0 {
        0
    } else {
        dec_val(s.drop_last()) * 10 + (s.last() - 48)
    }
}

/// The digits of an integer literal, after an optional leading sign.
pub open spec fn signed_body(s: Seq<u8>) -> Seq<u8> {
    if s.len() > 0 && (s[0] == 43 || s[0] == 45) {
        s.skip(1)
    } else {
        s
    }
}

pub open spec fn is_negative_literal(s: Seq<u8>) -> bool {
    s.len() > 0 && s[0] == 45
}

/// The integer a decimal literal spells.
pub open spec fn parsed_int_val(s: Seq<u8>) -> int {
    if is_negative_literal(s) {
        -dec_val(signed_body(s))
    } else {
        dec_val(signed_body(s))
    }
}

/// A decimal integer literal that fits an i64: an optional sign, at least
/// one digit, and a value in range.
pub open spec fn is_valid_i64_literal(s: Seq<u8>) -> bool {
    &&& signed_body(s).len() > 0
    &&& all_dec_digits(signed_body(s))
    &&& i64::MIN <= parsed_int_val(s) <= i64::MAX
}

proof fn lemma_dec_val_nonneg(s: Seq<u8>)
    requires
        all_dec_digits(s),
    ensures
        dec_val(s) >= 0,
    decreases s.len(),
{
    if s.len() > 0 {
        assert(all_dec_digits(s.drop_last()));
        lemma_dec_val_nonneg(s.drop_last());
    }
}

/// Appending digits never shrinks the value of a digit string.
proof fn lemma_dec_val_prefix_le(s: Seq<u8>, k: int)
    requires
        all_dec_digits(s),
        0 <= k <= s.len(),
    ensures
        dec_val(s.take(k)) <= dec_val(s),
    decreases s.len() - k,
{
    if k == s.len() {
        assert(s.take(k) =~= s);
    } else {
        assert(s.take(k + 1).drop_last() =~= s.take(k));
        assert(all_dec_digits(s.take(k)));
        lemma_dec_val_nonneg(s.take(k));
        assert(dec_val(s.take(k + 1)) == dec_val(s.take(k)) * 10 + (s[k] - 48));
        lemma_dec_val_prefix_le(s, k + 1);
    }
}

/// Parse a decimal i64 literal exactly: an optional '+' or '-', then one or
/// more digits, with the value in range; anything else is rejected.
#[verifier::loop_isolation(false)]
pub fn parse_i64(s: &str) -> (r: Option<i64>)
    ensures
        match r {
            Some(v) => is_valid_i64_literal(s.spec_bytes()) && v as int == parsed_int_val(
                s.spec_bytes(),
            ),
            None => !is_valid_i64_literal(s.spec_bytes()),
        },
{
    let bytes = s.as_bytes();
    let len = bytes.len();
    if len == 0 {
        return None;
    }
    let first = bytes[0];
    let has_sign = first == 43 || first == 45;
    let negative = first == 45;
    let start: usize = if has_sign {
        1
    } else {
        0
    };
    if start >= len {
        return None;
    }
    let ghost body = signed_body(s.spec_bytes());
    proof {
        if !has_sign {
            assert(s.spec_bytes().skip(0) =~= s.spec_bytes());
        }
        assert(body =~= bytes@.skip(start as int));
    }
    let limit: u64 = if negative {
        9_223_372_036_854_775_808
    } else {
        9_223_372_036_854_775_807
    };
    let mut acc: u64 = 0;
    let mut i: usize = start;
    proof {
        assert(body.take(0) =~= Seq::<u8>::empty());
    }
    while i < len
        invariant
            start <= i <= len,
            acc <= limit,
            all_dec_digits(body.take(i - start)),
            acc as int == dec_val(body.take(i - start)),
        decreases len - i,
    {
        let b = bytes[i];
        proof {
            assert(body[i - start] == bytes@[i as int]);
        }
        if b < 48 || b > 57 {
            proof {
                assert(!is_dec_digit(body[i - start]));
            }
            return None;
        }
        let d: u64 = (b - 48) as u64;
        let wide: u128 = acc as u128 * 10 + d as u128;
        proof {
            assert(body.take(i - start + 1).drop_last() =~= body.take(i - start));
            assert(body.take(i - start + 1).last() == b);
            assert(wide as int == dec_val(body.take(i - start + 1)));
            assert(all_dec_digits(body.take(i - start + 1)));
        }
        if wide > limit as u128 {
            proof {
                if all_dec_digits(body) {
                    lemma_dec_val_prefix_le(body, i - start + 1);
                    assert(body.take(body.len() as int) =~= body);
                    assert(dec_val(body) > limit);
                }
            }
            return None;
        }
        acc = wide as u64;
        i = i + 1;
    }
    proof {
        assert(body.take(len - start) =~= body);
        assert(acc as int == dec_val(body));
    }
    if negative {
        if acc == 9_223_372_036_854_775_808 {
            Some(i64::MIN)
        } else {
            Some(-(acc as i64))
        }
    } else {
        Some(acc as i64)
    }
}

/// 10 to the power e.
pub open spec fn pow10(e: nat) -> int
    decreases e,
{
    if e == 0 {
        1
    } else {
        10 * pow10((e - 1) as nat)
    }
}

proof fn lemma_pow10_pos(e: nat)
    ensures
        pow10(e) >= 1,
    decreases e,
{
    if e > 0 {
        lemma_pow10_pos((e - 1) as nat);
    }
}

proof fn lemma_pow10_mono(a: nat, b: nat)
    requires
        a <= b,
    ensures
        pow10(a) <= pow10(b),
    decreases b,
{
    if a < b {
        lemma_pow10_mono(a, (b - 1) as nat);
        lemma_pow10_pos(a);
    }
}

proof fn lemma_mul_le(a: int, b: int, al: int, bl: int)
    by (nonlinear_arith)
    requires
        0 <= a <= al,
        0 <= b <= bl,
    ensures
        a * b <= al * bl,
{
}

proof fn lemma_mul_ge_one(a: int, b: int)
    by (nonlinear_arith)
    requires
        a >= 1,
        b >= 1,
    ensures
        a * b >= b,
{
}

/// 10^k for k up to 19, the largest power of ten an u64 holds.
fn pow10_u64(k: u32) -> (r: u64)
    requires
        k <= 19,
    ensures
        r as int == pow10(k as nat),
        r >= 1,
{
    proof {
        reveal_with_fuel(pow10, 21);
    }
    let mut r: u64 = 1;
    let mut i: u32 = 0;
    while i < k
        invariant
            0 <= i <= k <= 19,
            r as int == pow10(i as nat),
        decreases k - i,
    {
        proof {
            reveal_with_fuel(pow10, 21);
            lemma_pow10_mono(i as nat, 18);
            assert(pow10(18) == 1_000_000_000_000_000_000);
        }
        r = r * 10;
        i = i + 1;
    }
    proof {
        lemma_pow10_pos(k as nat);
    }
    r
}

/// A mantissa and exponent as the engine's fixed-point price: the exact
/// value of `m * 10^e`, scaled to eight fractional digits, the fractional
/// remainder below that scale discarded.
pub open spec fn spec_scaled(m: int, e: int) -> int {
    if e + PRICE_DECIMALS >= 0 {
        m * pow10((e + PRICE_DECIMALS) as nat)
    } else {
        m / pow10((-(e + PRICE_DECIMALS)) as nat)
    }
}

/// The engine's price for a quote: defined for a non-negative mantissa
/// whose scaled value fits an u64, absent otherwise.
pub open spec fn spec_scaled_price(m: int, e: int) -> Option<u64> {
    if m < 0 {
        None
    } else if spec_scaled(m, e) > u64::MAX {
        None
    } else {
        Some(spec_scaled(m, e) as u64)
    }
}

/// Scale a quote's mantissa and exponent to the engine's fixed-point
/// price. A negative mantissa, or a value too large for an u64, has no
/// representation and yields nothing.
pub fn scaled_price(mantissa: i64, expo: i32) -> (r: Option<u64>)
    ensures
        r == spec_scaled_price(mantissa as int, expo as int),
{
    if mantissa < 0 {
        return None;
    }
    let m: u64 = mantissa as u64;
    if mantissa == 0 {
        proof {
            if expo + PRICE_DECIMALS < 0 {
                let d = (-(expo + PRICE_DECIMALS)) as nat;
                lemma_pow10_pos(d);
                lemma_basic_div(0, pow10(d));
            }
        }
        return Some(0);
    }
    if expo >= 12 {
        proof {
            let k = (expo + PRICE_DECIMALS) as nat;
            lemma_pow10_mono(20, k);
            reveal_with_fuel(pow10, 21);
            assert(pow10(20) == 100_000_000_000_000_000_000);
            lemma_mul_ge_one(m as int, pow10(k));
        }
        return None;
    }
    if expo >= -(PRICE_DECIMALS as i32) {
        let k: u32 = (expo + PRICE_DECIMALS as i32) as u32;
        let factor: u64 = pow10_u64(k);
        proof {
            lemma_mul_le(m as int, factor as int, u64::MAX as int, u64::MAX as int);
        }
        let wide: u128 = (m as u128) * (factor as u128);
        if wide > u64::MAX as u128 {
            None
        } else {
            Some(wide as u64)
        }
    } else {
        let neg_k: i32 = -(expo + PRICE_DECIMALS as i32);
        proof {
            assert(neg_k >= 1);
        }
        if neg_k >= 20 {
            proof {
                let d = (-(expo + PRICE_DECIMALS)) as nat;
                lemma_pow10_mono(20, d);
                reveal_with_fuel(pow10, 21);
                assert(pow10(20) == 100_000_000_000_000_000_000);
                lemma_basic_div(m as int, pow10(d));
            }
            Some(0)
        } else {
            let divisor: u64 = pow10_u64(neg_k as u32);
            proof {
                lemma_div_basics_5(m as int, divisor as int);
            }
            Some(m / divisor)
        }
    }
}

/// The engine's price for one quote of the price service, if the mantissa
/// string is a decimal i64 literal and the scaled value is representable.
pub open spec fn spec_price_of(p: ParsedPrice) -> Option<u64> {
    let lit = str_bytes(p.price.price@);
    if !is_valid_i64_literal(lit) {
        None
    } else {
        spec_scaled_price(parsed_int_val(lit), p.price.expo as int)
    }
}

/// Resolve a quote to the engine's fixed-point price; a mantissa that is
/// not a decimal i64 literal, a negative price, or a value beyond the
/// engine's range makes the snapshot unusable.
pub fn parse_price(price_data: &ParsedPrice) -> (r: Result<u64, OracleError>)
    ensures
        match r {
            Ok(v) => spec_price_of(*price_data) == Some(v),
            Err(e) => e == OracleError::SnapshotFetch && spec_price_of(*price_data) is None,
        },
{
    let mantissa: i64 = match parse_i64(price_data.price.price.as_str()) {
        Some(m) => m,
        None => {
            return Err(OracleError::SnapshotFetch);
        },
    };
    match scaled_price(mantissa, price_data.price.expo) {
        Some(v) => Ok(v),
        None => Err(OracleError::SnapshotFetch),
    }
}

/// The price of a network's native token: the first quote of the response,
/// as the service answers a single-feed request.
pub fn native_token_price(response: &PythPriceResponse) -> (r: Result<u64, OracleError>)
    ensures
        match r {
            Ok(v) => response.parsed@.len() > 0 && spec_price_of(response.parsed@[0]) == Some(v),
            Err(e) => e == OracleError::SnapshotFetch && (response.parsed@.len() == 0
                || spec_price_of(response.parsed@[0]) is None),
        },
{
    if response.parsed.len() == 0 {
        return Err(OracleError::SnapshotFetch);
    }
    parse_price(&response.parsed[0])
}

/// Decode the binary entries of an update-payload response: each entry,
/// after its "0x" marker, must be an even string of hexadecimal digits; an
/// entry that is not makes the payload unusable.
#[verifier::loop_isolation(false)]
pub fn decode_update_entries(entries: &Vec<String>) -> (r: Result<Vec<Vec<u8>>, OracleError>)
    ensures
        match r {
            Ok(v) => v@.len() == entries@.len() && forall|i: int|
                0 <= i < entries@.len() ==> is_hex_seq(
                    strip_0x(str_bytes((#[trigger] entries@[i])@)),
                ) && v@[i]@ == hex_bytes(strip_0x(str_bytes(entries@[i]@))),
            Err(e) => e == OracleError::SnapshotFetch && exists|i: int|
                0 <= i < entries@.len() && !is_hex_seq(
                    strip_0x(str_bytes((#[trigger] entries@[i])@)),
                ),
        },
{
    let mut out: Vec<Vec<u8>> = Vec::new();
    for i in 0..entries.len()
        invariant
            out@.len() == i,
            forall|k: int|
                0 <= k < i ==> is_hex_seq(strip_0x(str_bytes((#[trigger] entries@[k])@)))
                    && out@[k]@ == hex_bytes(strip_0x(str_bytes(entries@[k]@))),
    {
        let stripped = strip_hex_prefix(entries[i].as_str());
        match hex_decode(stripped.as_slice()) {
            Some(b) => {
                out.push(b);
            },
            None => {
                return Err(OracleError::SnapshotFetch);
            },
        }
    }
    Ok(out)
}

/// The query that asks the price service for the latest quotes of the
/// given feeds: each identifier is prefixed with "0x", the first after
/// "?ids[]=", the rest after "&ids[]=".
pub open spec fn ids_query(ids: Seq<Seq<char>>, k: int) -> Seq<char>
    decreases k,
{
    if k <= 0 {
        Seq::empty()
    } else {
        ids_query(ids, k - 1) + (if k == 1 {
            "0x"@
        } else {
            "&ids[]=0x"@
        }) + ids[k - 1]
    }
}

pub open spec fn spec_price_request_url(base: Seq<char>, ids: Seq<Seq<char>>) -> Seq<char> {
    base + "/v2/updates/price/latest?ids[]="@ + ids_query(ids, ids.len() as int)
}

/// The URL of the latest-quotes request for the given feeds.
#[verifier::loop_isolation(false)]
pub fn price_request_url(hermes_url: &str, feed_ids: &Vec<String>) -> (r: String)
    ensures
        r@ == spec_price_request_url(hermes_url@, feed_ids@.map_values(|s: String| s@)),
{
    let ghost ids = feed_ids@.map_values(|s: String| s@);
    let mut url = hermes_url.to_owned();
    url.append("/v2/updates/price/latest?ids[]=");
    proof {
        assert(ids_query(ids, 0) =~= Seq::<char>::empty());
        assert(url@ =~= hermes_url@ + "/v2/updates/price/latest?ids[]="@ + ids_query(ids, 0));
    }
    for i in 0..feed_ids.len()
        invariant
            url@ == hermes_url@ + "/v2/updates/price/latest?ids[]="@ + ids_query(ids, i as int),
    {
        if i == 0 {
            url.append("0x");
        } else {
            url.append("&ids[]=0x");
        }
        url.append(feed_ids[i].as_str());
        proof {
            assert(url@ =~= hermes_url@ + "/v2/updates/price/latest?ids[]="@ + ids_query(
                ids,
                i as int + 1,
            ));
        }
    }
    url
}

} // verus!
