use binance_l2::base::{DiffRecord, L2Update, Side, SnapshotRecord};
use binance_l2::currencies::Currency::{BNB, BTC};
use binance_l2::currencies::CurrencyPair;
use binance_l2::sync::{DiffAction, SnapshotAction, SyncState, Synchronizer};

fn pair() -> CurrencyPair {
    CurrencyPair::new(BNB, BTC)
}

fn diff(first: u64, last: u64, bids: &[(u64, u64)]) -> DiffRecord {
    let mut levels = L2Update::new();
    for (p, s) in bids {
        levels.get_mut(Side::Bid).add(*p, *s);
    }
    DiffRecord { first_update_id: first, last_update_id: last, levels }
}

fn snapshot(update_id: u64, bids: &[(u64, u64)]) -> SnapshotRecord {
    let mut levels = L2Update::new();
    for (p, s) in bids {
        levels.get_mut(Side::Bid).add(*p, *s);
    }
    SnapshotRecord { update_id, levels }
}

fn bid_pairs(sync: &Synchronizer) -> Vec<(u64, u64)> {
    sync.replica().bid_levels().iter().map(|l| (l.price, l.size)).collect()
}

#[test]
fn buffered_diffs_merge_with_snapshot() {
    let mut sync = Synchronizer::new(pair(), 16);
    assert_eq!(SyncState::Disconnected, sync.state());
    assert!(sync.on_connect());
    assert_eq!(SyncState::Buffering, sync.state());

    // ranges [157,160], [161,165], [166,170]; snapshot at 160
    assert_eq!(DiffAction::Buffered, sync.on_diff(diff(157, 160, &[(1, 1)])).action);
    assert_eq!(DiffAction::Buffered, sync.on_diff(diff(161, 165, &[(2, 2)])).action);
    assert_eq!(DiffAction::Buffered, sync.on_diff(diff(166, 170, &[(3, 3)])).action);

    let action = sync.on_snapshot(snapshot(160, &[(1000, 10)]));
    assert_eq!(SnapshotAction::Synced, action);
    assert_eq!(SyncState::Synced, sync.state());
    // [157,160] was discarded, [161,165] bridged, [166,170] followed
    assert_eq!(Some(170), sync.replica().last_applied_update_id());
    assert_eq!(vec![(2, 2), (3, 3), (1000, 10)], bid_pairs(&sync));
}

#[test]
fn gap_desyncs_the_replica() {
    let mut sync = Synchronizer::new(pair(), 16);
    sync.on_connect();
    // bridge [158,160] over a snapshot at 157: synced at 160
    assert_eq!(DiffAction::Buffered, sync.on_diff(diff(158, 160, &[])).action);
    assert_eq!(SnapshotAction::Synced, sync.on_snapshot(snapshot(157, &[])));
    assert_eq!(Some(160), sync.replica().last_applied_update_id());

    // a diff starting at 165 leaves the range [161,164] missing
    let handled = sync.on_diff(diff(165, 168, &[(5, 5)]));
    assert_eq!(DiffAction::Gap, handled.action);
    assert_eq!(SyncState::Desynced, sync.state());
    // the replica was not touched by the gapped diff
    assert_eq!(Some(160), sync.replica().last_applied_update_id());
}

#[test]
fn contiguous_diff_applies_when_synced() {
    let mut sync = Synchronizer::new(pair(), 16);
    sync.on_connect();
    sync.on_diff(diff(158, 160, &[]));
    sync.on_snapshot(snapshot(157, &[(100, 1)]));
    assert_eq!(SyncState::Synced, sync.state());

    let handled = sync.on_diff(diff(161, 163, &[(200, 2)]));
    assert_eq!(DiffAction::Applied, handled.action);
    assert_eq!(Some(163), sync.replica().last_applied_update_id());
    assert_eq!(vec![(100, 1), (200, 2)], bid_pairs(&sync));
}

#[test]
fn stale_diff_dropped_when_synced() {
    let mut sync = Synchronizer::new(pair(), 16);
    sync.on_connect();
    sync.on_diff(diff(158, 160, &[]));
    sync.on_snapshot(snapshot(157, &[(100, 1)]));

    let handled = sync.on_diff(diff(155, 159, &[(999, 9)]));
    assert_eq!(DiffAction::Stale, handled.action);
    assert_eq!(SyncState::Synced, sync.state());
    assert_eq!(Some(160), sync.replica().last_applied_update_id());
    assert_eq!(vec![(100, 1)], bid_pairs(&sync));
}

#[test]
fn snapshot_without_bridge_waits() {
    let mut sync = Synchronizer::new(pair(), 16);
    sync.on_connect();
    // nothing buffered yet: the snapshot has to wait for its bridge
    assert_eq!(SnapshotAction::Waiting, sync.on_snapshot(snapshot(160, &[(1000, 10)])));
    assert_eq!(SyncState::Buffering, sync.state());
    assert_eq!(None, sync.replica().last_applied_update_id());

    // the bridging diff arrives later and completes the join
    let handled = sync.on_diff(diff(161, 165, &[(2, 2)]));
    assert_eq!(DiffAction::Merged, handled.action);
    assert_eq!(SyncState::Synced, sync.state());
    assert_eq!(Some(165), sync.replica().last_applied_update_id());
    assert_eq!(vec![(2, 2), (1000, 10)], bid_pairs(&sync));
}

#[test]
fn bounded_buffer_drops_oldest() {
    let mut sync = Synchronizer::new(pair(), 2);
    sync.on_connect();
    assert!(!sync.on_diff(diff(1, 2, &[])).buffer_overflow);
    assert!(!sync.on_diff(diff(3, 4, &[])).buffer_overflow);
    // full: the oldest buffered diff goes, a warning comes back
    let handled = sync.on_diff(diff(5, 6, &[]));
    assert!(handled.buffer_overflow);
    assert_eq!(DiffAction::Buffered, handled.action);

    // the dropped [1,2] was the only bridge for a snapshot at 0
    assert_eq!(SnapshotAction::Waiting, sync.on_snapshot(snapshot(0, &[])));
    assert_eq!(SyncState::Buffering, sync.state());
}

#[test]
fn gap_timeout_forces_fresh_fetch() {
    let mut sync = Synchronizer::new(pair(), 16);
    sync.on_connect();
    assert_eq!(SnapshotAction::Waiting, sync.on_snapshot(snapshot(100, &[])));
    // the window ran out: ask for a fresh snapshot, stay buffering
    assert!(sync.on_gap_timeout());
    assert_eq!(SyncState::Buffering, sync.state());
    // a later snapshot with a bridge completes the join
    sync.on_diff(diff(200, 205, &[]));
    assert_eq!(SnapshotAction::Synced, sync.on_snapshot(snapshot(199, &[])));
    assert_eq!(Some(205), sync.replica().last_applied_update_id());
}

#[test]
fn resync_after_gap() {
    let mut sync = Synchronizer::new(pair(), 16);
    sync.on_connect();
    sync.on_diff(diff(158, 160, &[]));
    sync.on_snapshot(snapshot(157, &[(100, 1)]));
    assert_eq!(DiffAction::Gap, sync.on_diff(diff(165, 168, &[(5, 5)])).action);
    assert_eq!(SyncState::Desynced, sync.state());

    // the re-entry: buffer the stream again, join with the fresh snapshot
    assert_eq!(DiffAction::Buffered, sync.on_diff(diff(169, 172, &[(6, 6)])).action);
    assert_eq!(SyncState::Buffering, sync.state());
    assert_eq!(SnapshotAction::Synced, sync.on_snapshot(snapshot(168, &[(100, 1)])));
    assert_eq!(Some(172), sync.replica().last_applied_update_id());
    assert_eq!(vec![(6, 6), (100, 1)], bid_pairs(&sync));
}

#[test]
fn diffs_ignored_while_disconnected() {
    let mut sync = Synchronizer::new(pair(), 16);
    let handled = sync.on_diff(diff(1, 2, &[]));
    assert_eq!(DiffAction::Ignored, handled.action);
    assert_eq!(SnapshotAction::Ignored, sync.on_snapshot(snapshot(1, &[])));
    assert_eq!(SyncState::Disconnected, sync.state());
}

#[test]
fn disconnect_keeps_replica_stale() {
    let mut sync = Synchronizer::new(pair(), 16);
    sync.on_connect();
    sync.on_diff(diff(158, 160, &[]));
    sync.on_snapshot(snapshot(157, &[(100, 1)]));
    sync.on_disconnect();
    assert_eq!(SyncState::Disconnected, sync.state());
    // the book is retained for the reconnect
    assert_eq!(Some(160), sync.replica().last_applied_update_id());
    assert_eq!(vec![(100, 1)], bid_pairs(&sync));
    // reconnecting re-enters the buffering path
    assert!(sync.on_connect());
    assert_eq!(SyncState::Buffering, sync.state());
}
