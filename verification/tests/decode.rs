use binance_l2::base::{L2Update, Side};
use binance_l2::binance_increment::{
    decode_diff, get_websocket_address, parse_binance_increment, BinanceMdRequest,
};
use binance_l2::binance_snapshot::{decode_snapshot, parse_binance_snapshot};
use binance_l2::currencies::Currency::{BNB, BTC, ETH, USDT};
use binance_l2::currencies::CurrencyPair;
use binance_l2::decimal::parse_units;
use binance_l2::decoder::{decode, DecodedMessage};
use binance_l2::errors::DecodeError;

// Prices and sizes come back in units of 1e-8: "0.0024" is 240_000 units.

fn compare_increment(data: &str, expected_update: &L2Update) {
    let holder = &mut L2Update::new();
    let success = parse_binance_increment(holder, data.as_bytes());
    assert!(success);
    assert_eq!(expected_update, holder);
}

fn compare_snapshot(data: &str, expected_update: &L2Update) {
    let holder = &mut L2Update::new();
    let success = parse_binance_snapshot(holder, data.as_bytes());
    assert!(success);
    assert_eq!(expected_update, holder);
}

#[test]
fn parse_increment_1() {
    let data = r#"{
      "e": "depthUpdate",
      "E": 123456789,
      "s": "BNBBTC",
      "U": 157,
      "u": 160,
      "b": [
        [
          "0.0024",
          "10"
        ]
      ],
      "a": [
        [
          "0.0026",
          "100"
        ]
      ]
    }"#;
    let mut expected_increment = L2Update::new();
    expected_increment.get_mut(Side::Bid).add(240_000, 1_000_000_000);
    expected_increment.get_mut(Side::Ask).add(260_000, 10_000_000_000);

    compare_increment(data, &expected_increment);
}

#[test]
fn parse_increment_2() {
    let data = r#"{
      "e": "depthUpdate",
      "E": 1568223206826,
      "s": "ETHBTC",
      "U": 774645960,
      "u": 774645960,
      "b": [
        [
          "0.01756400",
          "3.43100000"
        ]
      ],
      "a": []
    }"#;
    let mut expected_increment = L2Update::new();
    expected_increment.get_mut(Side::Bid).add(1_756_400, 343_100_000);

    compare_increment(data, &expected_increment);
}

#[test]
fn parse_snapshot() {
    let data = r#"{
      "lastUpdateId": 441791238,
      "bids": [
        [
          "0.00216090",
          "22.67000000"
        ],
        [
          "0.00216080",
          "29.43000000"
        ]
      ],
      "asks": [
        [
          "0.00216100",
          "6.87000000"
        ],
        [
          "0.00216150",
          "15.24000000"
        ]
      ]
    }"#;
    let mut expected_snapshot = L2Update::new();
    expected_snapshot
        .get_mut(Side::Bid)
        .add(216_090, 2_267_000_000)
        .add(216_080, 2_943_000_000);
    expected_snapshot
        .get_mut(Side::Ask)
        .add(216_100, 687_000_000)
        .add(216_150, 1_524_000_000);

    compare_snapshot(data, &expected_snapshot);
}

#[test]
fn test_websocket_address() {
    let currency_pair = CurrencyPair::new(BNB, BTC);
    let address = get_websocket_address(&currency_pair);
    let expected = "wss://stream.binance.com:9443/ws/bnbbtc@depth";
    assert_eq!(expected, address.as_str());
}

#[test]
fn decode_diff_carries_range() {
    let data = r#"{"e":"depthUpdate","E":1,"s":"BNBBTC","U":157,"u":160,"b":[["0.0024","10"]],"a":[]}"#;
    let diff = decode_diff(data.as_bytes()).unwrap();
    assert_eq!(157, diff.first_update_id);
    assert_eq!(160, diff.last_update_id);
    let bid = diff.levels.get(Side::Bid);
    assert_eq!(1, bid.len());
    assert_eq!(240_000, bid.level_at(0).price);
    assert_eq!(1_000_000_000, bid.level_at(0).size);
    assert_eq!(0, diff.levels.get(Side::Ask).len());
}

#[test]
fn decode_diff_schema_errors() {
    // not an object
    assert_eq!(Err(DecodeError::Schema), decode_diff(b"hello"));
    // empty object: required members missing
    assert_eq!(Err(DecodeError::Schema), decode_diff(b"{}"));
    // an id that does not fit u64
    let data = r#"{"e":"x","E":99999999999999999999999,"s":"y","U":1,"u":2,"b":[],"a":[]}"#;
    assert_eq!(Err(DecodeError::Schema), decode_diff(data.as_bytes()));
    // an empty range read backwards
    let data = r#"{"e":"x","E":1,"s":"y","U":5,"u":4,"b":[],"a":[]}"#;
    assert_eq!(Err(DecodeError::Schema), decode_diff(data.as_bytes()));
}

#[test]
fn decode_diff_malformed_levels() {
    // one field instead of two
    let data = r#"{"e":"x","E":1,"s":"y","U":1,"u":2,"b":[["0.0024"]],"a":[]}"#;
    assert_eq!(Err(DecodeError::MalformedLevel), decode_diff(data.as_bytes()));
    // three fields
    let data = r#"{"e":"x","E":1,"s":"y","U":1,"u":2,"b":[],"a":[["1","2","3"]]}"#;
    assert_eq!(Err(DecodeError::MalformedLevel), decode_diff(data.as_bytes()));
    // a field that is no number
    let data = r#"{"e":"x","E":1,"s":"y","U":1,"u":2,"b":[["abc","10"]],"a":[]}"#;
    assert_eq!(Err(DecodeError::MalformedLevel), decode_diff(data.as_bytes()));
}

#[test]
fn decode_snapshot_carries_id() {
    let data = r#"{"lastUpdateId":160,"bids":[["0.0024","10"]],"asks":[["0.0026","100"]]}"#;
    let snap = decode_snapshot(data.as_bytes()).unwrap();
    assert_eq!(160, snap.update_id);
    assert_eq!(1, snap.levels.get(Side::Bid).len());
    assert_eq!(240_000, snap.levels.get(Side::Bid).level_at(0).price);
}

#[test]
fn decode_snapshot_errors() {
    assert_eq!(Err(DecodeError::Schema), decode_snapshot(b"[]"));
    let data = r#"{"lastUpdateId":160,"bids":[["0.0024"]],"asks":[]}"#;
    assert_eq!(
        Err(DecodeError::MalformedLevel),
        decode_snapshot(data.as_bytes())
    );
}

#[test]
fn parse_units_exact_values() {
    assert_eq!(Some(240_000), parse_units(b"0.0024"));
    assert_eq!(Some(1_000_000_000), parse_units(b"10"));
    assert_eq!(Some(1), parse_units(b"0.00000001"));
    assert_eq!(Some(100_000_000), parse_units(b"1"));
    assert_eq!(Some(123_456_789_00_000_000), parse_units(b"123456789"));
    assert_eq!(None, parse_units(b""));
    assert_eq!(None, parse_units(b"."));
    assert_eq!(None, parse_units(b"1."));
    assert_eq!(None, parse_units(b".5"));
    assert_eq!(None, parse_units(b"-1"));
    assert_eq!(None, parse_units(b"1.234567891"));
    assert_eq!(None, parse_units(b"99999999999999999999"));
}

#[test]
fn subscribe_request_shape() {
    let pairs = vec![CurrencyPair::new(BNB, BTC), CurrencyPair::new(ETH, USDT)];
    let request = BinanceMdRequest::subscribe(pairs);
    let expected =
        r#"{"method":"subscribe","topic":"marketDepth","symbols":["BNBBTC","ETHUSDT"]}"#;
    assert_eq!(expected, request.as_str());
}

#[test]
fn subscribe_request_empty() {
    let request = BinanceMdRequest::subscribe(Vec::new());
    let expected = r#"{"method":"subscribe","topic":"marketDepth","symbols":[]}"#;
    assert_eq!(expected, request.as_str());
}

#[test]
fn decode_distinguishes_message_kinds() {
    let diff_msg = r#"{"e":"depthUpdate","E":1,"s":"BNBBTC","U":157,"u":160,"b":[],"a":[]}"#;
    match decode(diff_msg.as_bytes()) {
        Ok(DecodedMessage::Diff(d)) => assert_eq!((157, 160), (d.first_update_id, d.last_update_id)),
        other => panic!("expected a diff, got {other:?}"),
    }
    let snap_msg = r#"{"lastUpdateId":160,"bids":[],"asks":[]}"#;
    match decode(snap_msg.as_bytes()) {
        Ok(DecodedMessage::Snapshot(s)) => assert_eq!(160, s.update_id),
        other => panic!("expected a snapshot, got {other:?}"),
    }
    assert_eq!(Err(DecodeError::Schema), decode(b"{}").map(|_| ()));
    let bad = r#"{"lastUpdateId":160,"bids":[["x","1"]],"asks":[]}"#;
    assert_eq!(
        Err(DecodeError::MalformedLevel),
        decode(bad.as_bytes()).map(|_| ())
    );
}

#[test]
fn malformed_diff_leaves_holder_untouched() {
    // fill the holder from a good message first
    let good = r#"{"e":"x","E":1,"s":"y","U":1,"u":2,"b":[["0.0024","10"]],"a":[["0.0026","100"]]}"#;
    let holder = &mut L2Update::new();
    assert!(parse_binance_increment(holder, good.as_bytes()));
    let mut expected = L2Update::new();
    expected.get_mut(Side::Bid).add(240_000, 1_000_000_000);
    expected.get_mut(Side::Ask).add(260_000, 10_000_000_000);
    assert_eq!(&expected, holder);

    // a bad bid level: the message is dropped whole, the holder keeps its state
    let bad_bid = r#"{"e":"x","E":1,"s":"y","U":3,"u":4,"b":[["abc","10"]],"a":[["1","2"]]}"#;
    assert!(!parse_binance_increment(holder, bad_bid.as_bytes()));
    assert_eq!(&expected, holder);

    // good bids but a bad ask level: still dropped whole
    let bad_ask = r#"{"e":"x","E":1,"s":"y","U":3,"u":4,"b":[["1","2"]],"a":[["0.0024"]]}"#;
    assert!(!parse_binance_increment(holder, bad_ask.as_bytes()));
    assert_eq!(&expected, holder);

    // a message that is no diff at all: untouched too
    assert!(!parse_binance_increment(holder, b"{}"));
    assert_eq!(&expected, holder);
}

#[test]
fn malformed_snapshot_leaves_holder_untouched() {
    let good = r#"{"lastUpdateId":160,"bids":[["0.0024","10"]],"asks":[]}"#;
    let holder = &mut L2Update::new();
    assert!(parse_binance_snapshot(holder, good.as_bytes()));
    let mut expected = L2Update::new();
    expected.get_mut(Side::Bid).add(240_000, 1_000_000_000);

    let bad = r#"{"lastUpdateId":161,"bids":[["1","2"]],"asks":[["x","1"]]}"#;
    assert!(!parse_binance_snapshot(holder, bad.as_bytes()));
    assert_eq!(&expected, holder);
}

#[test]
fn trailing_zeros_beyond_eight_places_are_accepted() {
    // nine or more fractional digits are fine while the tail is zeros
    assert_eq!(Some(343_100_000), parse_units(b"3.431000000"));
    assert_eq!(Some(100_000_000), parse_units(b"1.000000000"));
    assert_eq!(Some(1), parse_units(b"0.0000000100"));
    // a ninth significant digit does not land on the 1e-8 grid
    assert_eq!(None, parse_units(b"0.000000001"));
    assert_eq!(None, parse_units(b"3.431000001"));
    // and the tail must still be digits
    assert_eq!(None, parse_units(b"3.43100000x"));
}
