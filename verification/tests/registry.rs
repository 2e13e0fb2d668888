use binance_l2::base::{DiffRecord, L2Update, Side, SnapshotRecord};
use binance_l2::currencies::Currency::{BNB, BTC, ETH, USDT};
use binance_l2::currencies::CurrencyPair;
use binance_l2::registry::BookRegistry;
use binance_l2::sync::{DiffAction, SnapshotAction, SyncState};

fn diff(first: u64, last: u64, bids: &[(u64, u64)]) -> DiffRecord {
    let mut levels = L2Update::new();
    for (p, s) in bids {
        levels.get_mut(Side::Bid).add(*p, *s);
    }
    DiffRecord { first_update_id: first, last_update_id: last, levels }
}

#[test]
fn subscribe_creates_one_entry_per_pair() {
    let mut registry = BookRegistry::new(16);
    let bnb_btc = CurrencyPair::new(BNB, BTC);
    let eth_usdt = CurrencyPair::new(ETH, USDT);
    assert!(registry.subscribe(bnb_btc));
    assert!(registry.subscribe(eth_usdt));
    // subscribing again is a no-op
    assert!(!registry.subscribe(bnb_btc));
    assert_eq!(vec![bnb_btc, eth_usdt], registry.pairs());
    assert!(registry.current_view(bnb_btc).is_some());
    assert!(registry.current_view(CurrencyPair::new(BTC, BNB)).is_none());
}

#[test]
fn unsubscribe_evicts_the_entry() {
    let mut registry = BookRegistry::new(16);
    let bnb_btc = CurrencyPair::new(BNB, BTC);
    assert!(registry.subscribe(bnb_btc));
    assert!(registry.unsubscribe(bnb_btc));
    assert!(!registry.unsubscribe(bnb_btc));
    assert!(registry.current_view(bnb_btc).is_none());
    assert_eq!(0, registry.pairs().len());
}

#[test]
fn events_reach_the_right_pair() {
    let mut registry = BookRegistry::new(16);
    let bnb_btc = CurrencyPair::new(BNB, BTC);
    let eth_usdt = CurrencyPair::new(ETH, USDT);
    registry.subscribe(bnb_btc);
    registry.subscribe(eth_usdt);

    assert_eq!(Some(true), registry.on_connect(bnb_btc));
    assert_eq!(
        DiffAction::Buffered,
        registry.on_diff(bnb_btc, diff(158, 160, &[])).unwrap().action
    );
    let snap = SnapshotRecord { update_id: 157, levels: L2Update::new() };
    assert_eq!(Some(SnapshotAction::Synced), registry.on_snapshot(bnb_btc, snap));

    let bnb = registry.current_view(bnb_btc).unwrap();
    assert_eq!(SyncState::Synced, bnb.state());
    assert_eq!(Some(160), bnb.replica().last_applied_update_id());
    // the other pair was never touched
    let eth = registry.current_view(eth_usdt).unwrap();
    assert_eq!(SyncState::Disconnected, eth.state());
    assert_eq!(None, eth.replica().last_applied_update_id());
}

#[test]
fn events_for_unknown_pairs_are_refused() {
    let mut registry = BookRegistry::new(16);
    let unknown = CurrencyPair::new(BTC, USDT);
    assert_eq!(None, registry.on_connect(unknown));
    assert_eq!(None, registry.on_diff(unknown, diff(1, 2, &[])));
    assert_eq!(None, registry.on_gap_timeout(unknown));
    assert!(!registry.on_disconnect(unknown));
}
