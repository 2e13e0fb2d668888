use binance_l2::base::{DiffRecord, L2Update, Side};
use binance_l2::currencies::Currency::{BNB, BTC};
use binance_l2::currencies::CurrencyPair;
use binance_l2::errors::InitError;
use binance_l2::replica::{BookEvent, BookEventKind, DiffOutcome, OrderBookReplica};

fn pair() -> CurrencyPair {
    CurrencyPair::new(BNB, BTC)
}

fn diff(first: u64, last: u64, bids: &[(u64, u64)], asks: &[(u64, u64)]) -> DiffRecord {
    let mut levels = L2Update::new();
    for (p, s) in bids {
        levels.get_mut(Side::Bid).add(*p, *s);
    }
    for (p, s) in asks {
        levels.get_mut(Side::Ask).add(*p, *s);
    }
    DiffRecord { first_update_id: first, last_update_id: last, levels }
}

fn snapshot_levels(bids: &[(u64, u64)], asks: &[(u64, u64)]) -> L2Update {
    let mut levels = L2Update::new();
    for (p, s) in bids {
        levels.get_mut(Side::Bid).add(*p, *s);
    }
    for (p, s) in asks {
        levels.get_mut(Side::Ask).add(*p, *s);
    }
    levels
}

fn bid_pairs(replica: &OrderBookReplica) -> Vec<(u64, u64)> {
    replica.bid_levels().iter().map(|l| (l.price, l.size)).collect()
}

fn ask_pairs(replica: &OrderBookReplica) -> Vec<(u64, u64)> {
    replica.ask_levels().iter().map(|l| (l.price, l.size)).collect()
}

#[test]
fn diff_before_snapshot_is_not_initialized() {
    let mut replica = OrderBookReplica::new(pair());
    let d = diff(1, 2, &[(100, 1)], &[]);
    assert_eq!(Err(InitError::NotInitialized), replica.apply_diff(&d));
    assert_eq!(None, replica.last_applied_update_id());
}

#[test]
fn snapshot_populates_book() {
    let mut replica = OrderBookReplica::new(pair());
    let levels = snapshot_levels(&[(240_000, 10), (230_000, 5)], &[(260_000, 7)]);
    replica.apply_snapshot(&levels, 160);
    assert_eq!(Some(160), replica.last_applied_update_id());
    assert_eq!(vec![(230_000, 5), (240_000, 10)], bid_pairs(&replica));
    assert_eq!(vec![(260_000, 7)], ask_pairs(&replica));
}

#[test]
fn stale_diff_is_a_no_op() {
    let mut replica = OrderBookReplica::new(pair());
    replica.apply_snapshot(&snapshot_levels(&[(240_000, 10)], &[]), 160);
    let before = bid_pairs(&replica);
    // the whole range is already covered
    let d = diff(155, 158, &[(111, 1)], &[(222, 2)]);
    assert_eq!(Ok(DiffOutcome::Stale), replica.apply_diff(&d));
    assert_eq!(before, bid_pairs(&replica));
    assert_eq!(Some(160), replica.last_applied_update_id());
    // applying it again changes nothing either
    assert_eq!(Ok(DiffOutcome::Stale), replica.apply_diff(&d));
    assert_eq!(before, bid_pairs(&replica));
    assert_eq!(Some(160), replica.last_applied_update_id());
}

#[test]
fn empty_diff_mutates_no_side() {
    let mut replica = OrderBookReplica::new(pair());
    replica.apply_snapshot(&snapshot_levels(&[(240_000, 10)], &[(260_000, 7)]), 160);
    let bids_before = bid_pairs(&replica);
    let asks_before = ask_pairs(&replica);
    let d = diff(161, 161, &[], &[]);
    assert_eq!(Ok(DiffOutcome::Applied), replica.apply_diff(&d));
    assert_eq!(bids_before, bid_pairs(&replica));
    assert_eq!(asks_before, ask_pairs(&replica));
    assert_eq!(Some(161), replica.last_applied_update_id());
}

#[test]
fn zero_size_removes_and_nothing_zero_persists() {
    let mut replica = OrderBookReplica::new(pair());
    replica.apply_snapshot(&snapshot_levels(&[(240_000, 10), (250_000, 4)], &[]), 160);
    // remove one level, overwrite the other, remove something absent
    let d = diff(161, 163, &[(240_000, 0), (250_000, 9), (9_999, 0)], &[]);
    assert_eq!(Ok(DiffOutcome::Applied), replica.apply_diff(&d));
    let bids = bid_pairs(&replica);
    assert_eq!(vec![(250_000, 9)], bids);
    // unique ascending keys, no zero sizes
    for window in bids.windows(2) {
        assert!(window[0].0 < window[1].0);
    }
    for (_, size) in &bids {
        assert!(*size > 0);
    }
}

#[test]
fn keys_stay_unique_and_positive_through_overwrites() {
    let mut replica = OrderBookReplica::new(pair());
    replica.apply_snapshot(&snapshot_levels(&[(100, 1), (200, 2), (300, 3)], &[(400, 4)]), 10);
    let d = diff(11, 12, &[(200, 5), (150, 6), (300, 0)], &[(400, 0), (500, 1)]);
    assert_eq!(Ok(DiffOutcome::Applied), replica.apply_diff(&d));
    let bids = bid_pairs(&replica);
    assert_eq!(vec![(100, 1), (150, 6), (200, 5)], bids);
    let asks = ask_pairs(&replica);
    assert_eq!(vec![(500, 1)], asks);
    for window in bids.windows(2) {
        assert!(window[0].0 < window[1].0);
    }
    for (_, size) in bids.iter().chain(asks.iter()) {
        assert!(*size > 0);
    }
}

#[test]
fn best_bid_and_best_ask_are_extremal() {
    let mut replica = OrderBookReplica::new(pair());
    replica.apply_snapshot(
        &snapshot_levels(&[(100, 1), (300, 3), (200, 2)], &[(500, 5), (400, 4)]),
        20,
    );
    let best_bid = replica.best_bid().unwrap();
    assert_eq!((300, 3), (best_bid.price, best_bid.size));
    let best_ask = replica.best_ask().unwrap();
    assert_eq!((400, 4), (best_ask.price, best_ask.size));
}

#[test]
fn best_of_empty_sides_is_none() {
    let mut replica = OrderBookReplica::new(pair());
    assert!(replica.best_bid().is_none());
    assert!(replica.best_ask().is_none());
    replica.apply_snapshot(&snapshot_levels(&[], &[]), 5);
    assert!(replica.best_bid().is_none());
    assert!(replica.best_ask().is_none());
}

#[test]
fn decode_then_apply_yields_exact_best_levels() {
    // the wire message carrying bid ["0.0024","10"] and ask ["0.0026","100"]
    let data =
        r#"{"e":"depthUpdate","E":1,"s":"BNBBTC","U":161,"u":161,"b":[["0.0024","10"]],"a":[["0.0026","100"]]}"#;
    let d = binance_l2::binance_increment::decode_diff(data.as_bytes()).unwrap();
    let mut replica = OrderBookReplica::new(pair());
    replica.apply_snapshot(&L2Update::new(), 160);
    assert_eq!(Ok(DiffOutcome::Applied), replica.apply_diff(&d));
    // 0.0024 is 240_000 units of 1e-8; 10 is 1_000_000_000
    assert_eq!(vec![(240_000, 1_000_000_000)], bid_pairs(&replica));
    assert_eq!(vec![(260_000, 10_000_000_000)], ask_pairs(&replica));
    let best_bid = replica.best_bid().unwrap();
    assert_eq!((240_000, 1_000_000_000), (best_bid.price, best_bid.size));
    let best_ask = replica.best_ask().unwrap();
    assert_eq!((260_000, 10_000_000_000), (best_ask.price, best_ask.size));
}

#[test]
fn book_event_reports_best_levels() {
    let mut replica = OrderBookReplica::new(pair());
    replica.apply_snapshot(&snapshot_levels(&[(100, 1), (300, 3)], &[(400, 4)]), 20);
    let event = replica.book_event(BookEventKind::Snapshot);
    assert_eq!(BookEventKind::Snapshot, event.kind);
    assert_eq!((300, 3), event.best_bid.map(|l| (l.price, l.size)).unwrap());
    assert_eq!((400, 4), event.best_ask.map(|l| (l.price, l.size)).unwrap());
    let again = BookEvent { kind: BookEventKind::Snapshot, best_bid: event.best_bid, best_ask: event.best_ask };
    assert_eq!(again, event);
}
