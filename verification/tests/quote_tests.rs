use pyth_updater::pyth_api::{
    decode_update_entries, native_token_price, parse_price, price_request_url, scaled_price,
    ParsedPrice, PriceData, PythPriceResponse,
};
use pyth_updater::config::{is_stable_feed, FeedConfig};
use pyth_updater::cycle::transaction_fee_wei;
use pyth_updater::utils::{format_duration, state_key};
use pyth_updater::OracleError;

fn quote(id: &str, price: &str, expo: i32) -> ParsedPrice {
    ParsedPrice {
        id: id.to_string(),
        price: PriceData { price: price.to_string(), expo },
    }
}

#[test]
fn parse_price_scales_to_eight_decimals() {
    // 60000.0 with expo -8 is already at the engine's scale.
    let p = quote("aa", "6000000000000", -8);
    assert_eq!(parse_price(&p), Ok(6_000_000_000_000));
    // expo -5: three more digits of scale.
    let p = quote("aa", "6000000000", -5);
    assert_eq!(parse_price(&p), Ok(6_000_000_000_000));
    // expo 0: eight digits of scale.
    let p = quote("aa", "42", 0);
    assert_eq!(parse_price(&p), Ok(4_200_000_000));
    // expo -10: the remainder below the scale is discarded.
    let p = quote("aa", "123", -10);
    assert_eq!(parse_price(&p), Ok(1));
}

#[test]
fn parse_price_rejects_bad_mantissas() {
    assert_eq!(parse_price(&quote("aa", "", -8)), Err(OracleError::SnapshotFetch));
    assert_eq!(parse_price(&quote("aa", "12x", -8)), Err(OracleError::SnapshotFetch));
    assert_eq!(parse_price(&quote("aa", "-5", -8)), Err(OracleError::SnapshotFetch));
    assert_eq!(parse_price(&quote("aa", "99999999999999999999", -8)), Err(OracleError::SnapshotFetch));
    // A plus sign and leading zeros are fine.
    assert_eq!(parse_price(&quote("aa", "+0042", 0)), Ok(4_200_000_000));
}

#[test]
fn scaled_price_handles_the_extremes() {
    assert_eq!(scaled_price(0, 2_000_000_000), Some(0));
    assert_eq!(scaled_price(0, -2_000_000_000), Some(0));
    assert_eq!(scaled_price(1, 11), Some(10_000_000_000_000_000_000));
    assert_eq!(scaled_price(2, 11), None);
    assert_eq!(scaled_price(1, 12), None);
    assert_eq!(scaled_price(i64::MAX, -27), Some(0));
    assert_eq!(scaled_price(-1, -8), None);
}

#[test]
fn native_price_takes_the_first_quote() {
    let resp = PythPriceResponse {
        parsed: vec![quote("aa", "100", 0), quote("bb", "200", 0)],
    };
    assert_eq!(native_token_price(&resp), Ok(10_000_000_000));
    let empty = PythPriceResponse { parsed: vec![] };
    assert_eq!(native_token_price(&empty), Err(OracleError::SnapshotFetch));
}

#[test]
fn update_entries_decode_to_their_bytes() {
    let entries = vec!["0x0102".to_string(), "00ff".to_string()];
    let decoded = decode_update_entries(&entries).unwrap();
    assert_eq!(decoded, vec![vec![0x01u8, 0x02], vec![0x00, 0xff]]);
    // Repeated 0x markers are all stripped, as trim_start_matches does.
    let entries = vec!["0x0x00".to_string()];
    assert_eq!(decode_update_entries(&entries).unwrap(), vec![vec![0x00u8]]);
    // Odd length or a non-digit makes the payload unusable.
    assert_eq!(
        decode_update_entries(&vec!["0x012".to_string()]),
        Err(OracleError::SnapshotFetch)
    );
    assert_eq!(
        decode_update_entries(&vec!["zz".to_string()]),
        Err(OracleError::SnapshotFetch)
    );
}

#[test]
fn request_url_lists_every_feed_once() {
    let ids = vec!["aa11".to_string(), "bb22".to_string()];
    assert_eq!(
        price_request_url("https://hermes.example", &ids),
        "https://hermes.example/v2/updates/price/latest?ids[]=0xaa11&ids[]=0xbb22"
    );
    let one = vec!["cc".to_string()];
    assert_eq!(
        price_request_url("https://h", &one),
        "https://h/v2/updates/price/latest?ids[]=0xcc"
    );
    let none: Vec<String> = vec![];
    assert_eq!(
        price_request_url("https://h", &none),
        "https://h/v2/updates/price/latest?ids[]="
    );
}

#[test]
fn submission_fee_is_gas_times_price() {
    assert_eq!(transaction_fee_wei(21_000, 3), Some(63_000));
    assert_eq!(transaction_fee_wei(0, u128::MAX), Some(0));
    assert_eq!(transaction_fee_wei(u128::MAX, 2), None);
}

#[test]
fn stability_marker_follows_the_threshold() {
    let mut f = FeedConfig {
        price_feed_id: "aa".repeat(32),
        symbol: "USDC/USD".to_string(),
        deviation_threshold_millipct: 100,
        heartbeat_seconds: 3600,
        networks: vec!["alpha".to_string()],
    };
    assert!(is_stable_feed(&f));
    f.deviation_threshold_millipct = 101;
    assert!(!is_stable_feed(&f));
}

#[test]
fn state_key_joins_with_a_colon() {
    assert_eq!(state_key("aabb", "alpha"), "aabb:alpha");
    assert_eq!(state_key("", ""), ":");
}

#[test]
fn durations_render_like_the_log_lines() {
    assert_eq!(format_duration(0), "0s");
    assert_eq!(format_duration(45), "45s");
    assert_eq!(format_duration(-5), "-5s");
    assert_eq!(format_duration(60), "1m");
    assert_eq!(format_duration(125), "2m 5s");
    assert_eq!(format_duration(120), "2m");
    assert_eq!(format_duration(3600), "1h");
    assert_eq!(format_duration(3725), "1h 2m 5s");
    assert_eq!(format_duration(3660), "1h 1m");
    assert_eq!(format_duration(3605), "1h 5s");
    assert_eq!(format_duration(i64::MIN), format!("{}s", i64::MIN));
}
