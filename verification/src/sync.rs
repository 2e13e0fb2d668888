use vstd::prelude::*;

use crate::base::{DiffRecord, Side, SnapshotRecord};
use crate::currencies::CurrencyPair;
use crate::replica::{apply_levels, map_of_levels, OrderBookReplica};

verus! {

// The synchronizer drives one pair's replica: it buffers diffs while a
// snapshot is on its way, merges the two by update-id ranges, applies live
// diffs in sequence, and detects gaps. Each exec method is proved against
// a spec-level transition function over the synchronizer's view.

#[derive(Clone, Copy, PartialEq, Eq, Structural, Debug)]
pub enum SyncState {
    /// No stream; nothing buffered.
    Disconnected,
    /// Stream up, diffs buffered, waiting for a usable snapshot.
    Buffering,
    /// Snapshot and diffs joined; live diffs apply in sequence.
    Synced,
    /// A gap was detected; a fresh snapshot fetch is under way.
    Desynced,
}

/// What handling one diff did.
#[derive(Clone, Copy, PartialEq, Eq, Structural, Debug)]
pub enum DiffAction {
    /// Not listening: the stream is down.
    Ignored,
    /// Stored for the coming merge.
    Buffered,
    /// Stored, and the stored diffs now join the pending snapshot.
    Merged,
    /// Applied to the live book.
    Applied,
    /// A stale duplicate, dropped silently.
    Stale,
    /// Its range leaves a hole after the last applied id: resync.
    Gap,
}

/// What handling one diff did, plus whether the bounded buffer had to
/// drop its oldest entry first.
#[derive(Clone, Copy, PartialEq, Eq, Structural, Debug)]
pub struct DiffHandled {
    pub action: DiffAction,
    pub buffer_overflow: bool,
}

/// What handling one snapshot did.
#[derive(Clone, Copy, PartialEq, Eq, Structural, Debug)]
pub enum SnapshotAction {
    /// Not waiting for a snapshot.
    Ignored,
    /// A bridging diff was found: the book is live.
    Synced,
    /// No bridging diff yet: stored, still buffering.
    Waiting,
}

/// The synchronizer's whole visible state.
pub struct SyncView {
    pub pair: CurrencyPair,
    pub state: SyncState,
    pub bids: Map<u64, u64>,
    pub asks: Map<u64, u64>,
    pub applied: Option<u64>,
    pub buf: Seq<DiffRecord>,
    pub pending: Option<SnapshotRecord>,
    pub capacity: nat,
}

/// A book image under replay: both sides plus the last applied id.
pub struct BookState {
    pub bids: Map<u64, u64>,
    pub asks: Map<u64, u64>,
    pub applied: u64,
}

/// Replaying one buffered diff: one already covered is dropped, any
/// other is applied and advances the id.
pub open spec fn replay_step(st: BookState, d: DiffRecord) -> BookState {
    if d.last_update_id > st.applied {
        BookState {
            bids: apply_levels(st.bids, d.levels.spec_get(Side::Bid)),
            asks: apply_levels(st.asks, d.levels.spec_get(Side::Ask)),
            applied: d.last_update_id,
        }
    } else {
        st
    }
}

/// Replaying a run of buffered diffs, first to last.
pub open spec fn replay(st: BookState, ds: Seq<DiffRecord>) -> BookState
    decreases ds.len(),
{
    if ds.len() == 0 {
        st
    } else {
        replay_step(replay(st, ds.drop_last()), ds.last())
    }
}

/// Where a diff belongs in a buffer ordered by `last_update_id`:
/// after every entry at or below its own id.
pub open spec fn insert_by_last(s: Seq<DiffRecord>, d: DiffRecord) -> Seq<DiffRecord>
    decreases s.len(),
{
    if s.len() == 0 {
        seq![d]
    } else if s.last().last_update_id <= d.last_update_id {
        s.push(d)
    } else {
        insert_by_last(s.drop_last(), d).push(s.last())
    }
}

/// The buffer after taking in one diff: full buffers shed their oldest
/// entry first.
pub open spec fn buffer_take_in(s: Seq<DiffRecord>, d: DiffRecord, cap: nat) -> Seq<DiffRecord> {
    if s.len() >= cap {
        insert_by_last(s.drop_first(), d)
    } else {
        insert_by_last(s, d)
    }
}

/// Drops the leading buffered diffs a snapshot at `sid` already covers.
pub open spec fn drop_covered(s: Seq<DiffRecord>, sid: int) -> Seq<DiffRecord>
    decreases s.len(),
{
    if s.len() == 0 {
        s
    } else if s[0].last_update_id <= sid {
        drop_covered(s.drop_first(), sid)
    } else {
        s
    }
}

/// Does this diff's range cover `target`?
pub open spec fn bridges(d: DiffRecord, target: int) -> bool {
    d.first_update_id <= target <= d.last_update_id
}

/// The first buffered diff, at or after `j`, that covers `target`.
pub open spec fn first_bridge_from(s: Seq<DiffRecord>, target: int, j: int) -> Option<int>
    decreases s.len() - j when 0 <= j <= s.len()
{
    if j >= s.len() {
        None
    } else if bridges(s[j], target) {
        Some(j)
    } else {
        first_bridge_from(s, target, j + 1)
    }
}

/// The whole merge of a snapshot into a buffering synchronizer: covered
/// diffs go, and if a bridging diff remains, the snapshot is applied and
/// the rest replayed in ascending id order; otherwise the snapshot waits.
pub open spec fn st_merge(v: SyncView, snap: SnapshotRecord) -> SyncView {
    let kept = drop_covered(v.buf, snap.update_id as int);
    match first_bridge_from(kept, snap.update_id + 1, 0) {
        Some(bi) => {
            let st0 = BookState {
                bids: map_of_levels(snap.levels.spec_get(Side::Bid)),
                asks: map_of_levels(snap.levels.spec_get(Side::Ask)),
                applied: snap.update_id,
            };
            let stf = replay(st0, kept.skip(bi));
            SyncView {
                pair: v.pair,
                state: SyncState::Synced,
                bids: stf.bids,
                asks: stf.asks,
                applied: Some(stf.applied),
                buf: Seq::empty(),
                pending: None,
                capacity: v.capacity,
            }
        },
        None => SyncView {
            state: SyncState::Buffering,
            buf: kept,
            pending: Some(snap),
            ..v
        },
    }
}

/// Replaying buffered diffs ordered by ascending `last_update_id` never
/// moves the book backwards, and when the newest buffered diff reaches
/// past the starting id, the book ends exactly at that diff's id: a
/// merge that finds a bridge leaves `lastAppliedUpdateId` at the end of
/// the buffered run.
pub proof fn lemma_replay_reaches_buffer_end(st0: BookState, ds: Seq<DiffRecord>)
    requires
        forall|i: int, j: int|
            0 <= i < j < ds.len() ==> ds[i].last_update_id <= ds[j].last_update_id,
    ensures
        replay(st0, ds).applied >= st0.applied,
        ds.len() > 0 && ds.last().last_update_id > st0.applied ==> replay(st0, ds).applied
            == ds.last().last_update_id,
        ds.len() == 0 || (ds.len() > 0 && ds.last().last_update_id <= st0.applied) ==> replay(
            st0,
            ds,
        ).applied == st0.applied,
    decreases ds.len(),
{
    if ds.len() > 0 {
        let head = ds.drop_last();
        assert(forall|i: int, j: int|
            0 <= i < j < head.len() ==> head[i].last_update_id <= head[j].last_update_id);
        lemma_replay_reaches_buffer_end(st0, head);
        if head.len() > 0 {
            assert(head.last() == ds[ds.len() - 2]);
            assert(head.last().last_update_id <= ds.last().last_update_id);
        }
    }
}

/// The stream came up: from rest, start buffering and ask for a
/// snapshot (the bool says whether a fetch should start).
pub open spec fn st_connect(v: SyncView) -> (SyncView, bool) {
    if v.state == SyncState::Disconnected {
        (SyncView { state: SyncState::Buffering, ..v }, true)
    } else {
        (v, false)
    }
}

/// The stream went down: drop what was buffered, keep the replica.
pub open spec fn st_disconnect(v: SyncView) -> SyncView {
    SyncView { state: SyncState::Disconnected, buf: Seq::empty(), pending: None, ..v }
}

/// The gap-buffering window ran out: drop the stored snapshot and ask
/// for a fresh fetch (the bool says whether a fetch should start).
pub open spec fn st_gap_timeout(v: SyncView) -> (SyncView, bool) {
    if v.state == SyncState::Buffering {
        (SyncView { pending: None, ..v }, true)
    } else {
        (v, false)
    }
}

/// A snapshot arrived: merged while buffering or desynced, ignored
/// elsewhere.
pub open spec fn st_snapshot(v: SyncView, snap: SnapshotRecord) -> (SyncView, SnapshotAction) {
    match v.state {
        SyncState::Buffering | SyncState::Desynced => {
            let m = st_merge(v, snap);
            (
                m,
                if m.state == SyncState::Synced {
                    SnapshotAction::Synced
                } else {
                    SnapshotAction::Waiting
                },
            )
        },
        _ => (v, SnapshotAction::Ignored),
    }
}

/// A diff arrived: the synchronizer's whole decision for one diff, as a
/// function of its state.
///
/// While live, only a diff starting exactly one past the applied id is
/// accepted. A diff that merely overlaps the applied id (its range
/// reaches back to or before it but starts elsewhere) counts as a
/// continuity violation and desyncs, the same as a plain hole: that
/// policy is fixed here rather than configurable, and callers wanting
/// another bridging rule must apply it before handing the diff over.
pub open spec fn st_diff(v: SyncView, d: DiffRecord) -> (SyncView, DiffHandled) {
    match v.state {
        SyncState::Disconnected => (
            v,
            DiffHandled { action: DiffAction::Ignored, buffer_overflow: false },
        ),
        SyncState::Synced => {
            let applied = v.applied->Some_0;
            if d.last_update_id <= applied {
                (v, DiffHandled { action: DiffAction::Stale, buffer_overflow: false })
            } else if d.first_update_id == applied + 1 {
                (
                    SyncView {
                        bids: apply_levels(v.bids, d.levels.spec_get(Side::Bid)),
                        asks: apply_levels(v.asks, d.levels.spec_get(Side::Ask)),
                        applied: Some(d.last_update_id),
                        ..v
                    },
                    DiffHandled { action: DiffAction::Applied, buffer_overflow: false },
                )
            } else {
                (
                    SyncView { state: SyncState::Desynced, ..v },
                    DiffHandled { action: DiffAction::Gap, buffer_overflow: false },
                )
            }
        },
        SyncState::Buffering | SyncState::Desynced => {
            let stored = buffer_take_in(v.buf, d, v.capacity);
            let full = v.buf.len() >= v.capacity;
            match v.pending {
                None => (
                    SyncView { state: SyncState::Buffering, buf: stored, ..v },
                    DiffHandled { action: DiffAction::Buffered, buffer_overflow: full },
                ),
                Some(sn) => {
                    let m = st_merge(
                        SyncView { state: SyncState::Buffering, buf: stored, pending: None, ..v },
                        sn,
                    );
                    (
                        m,
                        DiffHandled {
                            action: if m.state == SyncState::Synced {
                                DiffAction::Merged
                            } else {
                                DiffAction::Buffered
                            },
                            buffer_overflow: full,
                        },
                    )
                },
            }
        },
    }
}

/// The synchronizer for one pair: the replica's single writer.
#[derive(Debug)]
pub struct Synchronizer {
    state: SyncState,
    replica: OrderBookReplica,
    buffer: Vec<DiffRecord>,
    pending_snapshot: Option<SnapshotRecord>,
    capacity: usize,
}

impl View for Synchronizer {
    type V = SyncView;

    closed spec fn view(&self) -> SyncView {
        SyncView {
            pair: self.replica.spec_pair(),
            state: self.state,
            bids: self.replica.bid_map(),
            asks: self.replica.ask_map(),
            applied: self.replica.last_id(),
            buf: self.buffer@,
            pending: self.pending_snapshot,
            capacity: self.capacity as nat,
        }
    }
}

/// Every buffered diff has a real range, and the buffer is ordered by
/// ascending `last_update_id`.
pub open spec fn buf_wf(s: Seq<DiffRecord>) -> bool {
    &&& forall|i: int| 0 <= i < s.len() ==> (#[trigger] s[i]).wf()
    &&& forall|i: int, j: int|
        0 <= i < j < s.len() ==> s[i].last_update_id <= s[j].last_update_id
}

impl Synchronizer {
    /// The invariant every reachable synchronizer satisfies.
    pub open spec fn inv(&self) -> bool {
        let v = self@;
        &&& self.replica_inv()
        &&& buf_wf(v.buf)
        &&& v.capacity >= 1
        &&& v.state == SyncState::Synced ==> (v.applied is Some && v.buf.len() == 0
            && v.pending is None)
        &&& v.state == SyncState::Disconnected ==> (v.buf.len() == 0 && v.pending is None)
        &&& v.pending is Some ==> v.state == SyncState::Buffering
        &&& v.state == SyncState::Desynced ==> v.pending is None
    }

    /// The owned replica's own invariant; kept opaque apart from its name.
    pub closed spec fn replica_inv(&self) -> bool {
        self.replica.inv()
    }

    pub fn new(pair: CurrencyPair, capacity: usize) -> (r: Synchronizer)
        requires
            capacity >= 1,
        ensures
            r.inv(),
            r@.pair == pair,
            r@.state == SyncState::Disconnected,
            r@.bids == Map::<u64, u64>::empty(),
            r@.asks == Map::<u64, u64>::empty(),
            r@.applied is None,
            r@.buf == Seq::<DiffRecord>::empty(),
            r@.pending is None,
            r@.capacity == capacity,
    {
        let r = Synchronizer {
            state: SyncState::Disconnected,
            replica: OrderBookReplica::new(pair),
            buffer: Vec::new(),
            pending_snapshot: None,
            capacity,
        };
        proof {
            assert(r@.buf =~= Seq::<DiffRecord>::empty());
        }
        r
    }

    pub fn state(&self) -> (r: SyncState)
        ensures
            r == self@.state,
    {
        self.state
    }

    pub fn pair(&self) -> (r: CurrencyPair)
        ensures
            r == self@.pair,
    {
        self.replica.pair()
    }

    /// Read-only access to the replica, for downstream consumers.
    pub fn replica(&self) -> (r: &OrderBookReplica)
        ensures
            r.bid_map() == self@.bids,
            r.ask_map() == self@.asks,
            r.last_id() == self@.applied,
            self.replica_inv() ==> r.inv(),
    {
        &self.replica
    }

    /// The stream came up: start buffering and ask for a snapshot.
    /// Returns true when a snapshot fetch should be started.
    pub fn on_connect(&mut self) -> (r: bool)
        requires
            old(self).inv(),
        ensures
            final(self).inv(),
            (final(self)@, r) == st_connect(old(self)@),
    {
        match self.state {
            SyncState::Disconnected => {
                self.state = SyncState::Buffering;
                true
            },
            _ => false,
        }
    }

    /// The stream went down: stop, drop what was buffered, keep the
    /// replica (stale) for the reconnect.
    pub fn on_disconnect(&mut self)
        requires
            old(self).inv(),
        ensures
            final(self).inv(),
            final(self)@ == st_disconnect(old(self)@),
    {
        self.state = SyncState::Disconnected;
        self.buffer.clear();
        self.pending_snapshot = None;
        proof {
            assert(self@.buf =~= Seq::<DiffRecord>::empty());
        }
    }

    /// The gap-buffering window ran out without a usable snapshot: drop
    /// the stored one and ask for a fresh fetch. Returns true when a
    /// fetch should be started.
    pub fn on_gap_timeout(&mut self) -> (r: bool)
        requires
            old(self).inv(),
        ensures
            final(self).inv(),
            (final(self)@, r) == st_gap_timeout(old(self)@),
    {
        match self.state {
            SyncState::Buffering => {
                self.pending_snapshot = None;
                true
            },
            _ => false,
        }
    }
}

} // verus!
verus! {

proof fn lemma_insert_by_last_at(s: Seq<DiffRecord>, d: DiffRecord, k: int)
    requires
        0 <= k <= s.len(),
        forall|i: int| 0 <= i < k ==> s[i].last_update_id <= d.last_update_id,
        forall|i: int| k <= i < s.len() ==> s[i].last_update_id > d.last_update_id,
    ensures
        insert_by_last(s, d) == s.insert(k, d),
    decreases s.len(),
{
    if k == s.len() {
        if s.len() == 0 {
            assert(insert_by_last(s, d) =~= s.insert(k, d));
        } else {
            assert(s.push(d) =~= s.insert(k, d));
        }
    } else {
        assert(s.last().last_update_id > d.last_update_id);
        lemma_insert_by_last_at(s.drop_last(), d, k);
        assert(s.drop_last().insert(k, d).push(s.last()) =~= s.insert(k, d));
    }
}

proof fn lemma_first_bridge_none(s: Seq<DiffRecord>, target: int, j: int)
    requires
        0 <= j <= s.len(),
        forall|i: int| j <= i < s.len() ==> !bridges(s[i], target),
    ensures
        first_bridge_from(s, target, j) is None,
    decreases s.len() - j,
{
    if j < s.len() {
        lemma_first_bridge_none(s, target, j + 1);
    }
}

/// Puts one diff where it belongs in a buffer ordered by ascending
/// `last_update_id`.
fn insert_diff_sorted(buffer: &mut Vec<DiffRecord>, d: DiffRecord)
    requires
        buf_wf(old(buffer)@),
        d.wf(),
    ensures
        final(buffer)@ == insert_by_last(old(buffer)@, d),
        buf_wf(final(buffer)@),
{
    let ghost s = buffer@;
    let n = buffer.len();
    let mut k: usize = n;
    while k > 0 && buffer[k - 1].last_update_id > d.last_update_id
        invariant
            0 <= k <= n == buffer@.len(),
            buffer@ == s,
            forall|i: int| k <= i < n ==> s[i].last_update_id > d.last_update_id,
        decreases k,
    {
        k -= 1;
    }
    proof {
        assert(forall|i: int| 0 <= i < k ==> s[i].last_update_id <= d.last_update_id) by {
            if k > 0 {
                assert(s[k - 1].last_update_id <= d.last_update_id);
                assert(forall|i: int|
                    0 <= i < k - 1 ==> (#[trigger] s[i]).last_update_id <= s[
                        k - 1
                    ].last_update_id);
            }
        }
        lemma_insert_by_last_at(s, d, k as int);
    }
    buffer.insert(k, d);
    proof {
        assert(buf_wf(buffer@)) by {
            assert(forall|i: int|
                0 <= i < buffer@.len() ==> buffer@[i] == (if i < k {
                    s[i]
                } else if i == k {
                    d
                } else {
                    s[i - 1]
                }));
        }
    }
}

/// Removes the leading buffered diffs a snapshot at `sid` covers.
fn drop_covered_diffs(buffer: &mut Vec<DiffRecord>, sid: u64)
    requires
        buf_wf(old(buffer)@),
    ensures
        final(buffer)@ == drop_covered(old(buffer)@, sid as int),
        buf_wf(final(buffer)@),
{
    let ghost orig = buffer@;
    while buffer.len() > 0 && buffer[0].last_update_id <= sid
        invariant
            buf_wf(buffer@),
            drop_covered(orig, sid as int) == drop_covered(buffer@, sid as int),
        decreases buffer@.len(),
    {
        proof {
            assert(buffer@.remove(0) =~= buffer@.drop_first());
        }
        buffer.remove(0);
    }
}

/// Finds the first buffered diff whose range covers `target`.
fn find_bridge(buffer: &Vec<DiffRecord>, target: u64) -> (r: Option<usize>)
    ensures
        match r {
            Some(j) => first_bridge_from(buffer@, target as int, 0) == Some(j as int) && j
                < buffer@.len(),
            None => first_bridge_from(buffer@, target as int, 0) is None,
        },
{
    let n = buffer.len();
    let mut j: usize = 0;
    while j < n && !(buffer[j].first_update_id <= target && target <= buffer[j].last_update_id)
        invariant
            j <= n == buffer@.len(),
            first_bridge_from(buffer@, target as int, 0) == first_bridge_from(
                buffer@,
                target as int,
                j as int,
            ),
        decreases n - j,
    {
        proof {
            assert(first_bridge_from(buffer@, target as int, j as int) == first_bridge_from(
                buffer@,
                target as int,
                j + 1,
            ));
        }
        j += 1;
    }
    if j < n {
        proof {
            assert(first_bridge_from(buffer@, target as int, j as int) == Some(j as int));
        }
        Some(j)
    } else {
        None
    }
}

/// Applies `buffer[from..]` to the replica in order; each diff either
/// advances the book or is dropped as already covered.
fn replay_buffer(replica: &mut OrderBookReplica, buffer: &Vec<DiffRecord>, from: usize)
    requires
        old(replica).inv(),
        old(replica).last_id() is Some,
        from <= buffer@.len(),
    ensures
        final(replica).inv(),
        final(replica).spec_pair() == old(replica).spec_pair(),
        ({
            let st0 = BookState {
                bids: old(replica).bid_map(),
                asks: old(replica).ask_map(),
                applied: old(replica).last_id()->Some_0,
            };
            let stf = replay(st0, buffer@.skip(from as int));
            &&& final(replica).bid_map() == stf.bids
            &&& final(replica).ask_map() == stf.asks
            &&& final(replica).last_id() == Some(stf.applied)
        }),
{
    let ghost st0 = BookState {
        bids: replica.bid_map(),
        asks: replica.ask_map(),
        applied: replica.last_id()->Some_0,
    };
    let n = buffer.len();
    let mut j = from;
    while j < n
        invariant
            from <= j <= n == buffer@.len(),
            replica.inv(),
            replica.spec_pair() == old(replica).spec_pair(),
            ({
                let st = replay(st0, buffer@.subrange(from as int, j as int));
                &&& replica.bid_map() == st.bids
                &&& replica.ask_map() == st.asks
                &&& replica.last_id() == Some(st.applied)
            }),
        decreases n - j,
    {
        let d = &buffer[j];
        let _ = replica.apply_diff(d);
        proof {
            let t = buffer@.subrange(from as int, j + 1);
            assert(t.drop_last() =~= buffer@.subrange(from as int, j as int));
            assert(t.last() == buffer@[j as int]);
        }
        j += 1;
    }
    proof {
        assert(buffer@.subrange(from as int, n as int) =~= buffer@.skip(from as int));
    }
}

impl Synchronizer {
    /// Joins a snapshot with the buffered diffs; see `st_merge`.
    /// True means the book is now live.
    fn merge_pending(&mut self, snap: SnapshotRecord) -> (r: bool)
        requires
            old(self).inv(),
            old(self)@.pending is None,
            old(self)@.state == SyncState::Buffering || old(self)@.state == SyncState::Desynced,
        ensures
            final(self).inv(),
            final(self)@ == st_merge(old(self)@, snap),
            r <==> st_merge(old(self)@, snap).state == SyncState::Synced,
    {
        drop_covered_diffs(&mut self.buffer, snap.update_id);
        let bridge: Option<usize> = if snap.update_id < u64::MAX {
            find_bridge(&self.buffer, snap.update_id + 1)
        } else {
            proof {
                assert(forall|i: int|
                    0 <= i < self.buffer@.len() ==> !bridges(
                        self.buffer@[i],
                        snap.update_id + 1,
                    ));
                lemma_first_bridge_none(self.buffer@, snap.update_id + 1, 0);
            }
            None
        };
        match bridge {
            Some(bi) => {
                self.replica.apply_snapshot(&snap.levels, snap.update_id);
                replay_buffer(&mut self.replica, &self.buffer, bi);
                self.buffer.clear();
                self.pending_snapshot = None;
                self.state = SyncState::Synced;
                proof {
                    assert(self.buffer@ =~= Seq::<DiffRecord>::empty());
                }
                true
            },
            None => {
                self.pending_snapshot = Some(snap);
                self.state = SyncState::Buffering;
                false
            },
        }
    }

    /// A snapshot arrived. While buffering (or desynced after a gap) it
    /// is merged with the buffered diffs; in any other state it is
    /// ignored.
    pub fn on_snapshot(&mut self, snap: SnapshotRecord) -> (r: SnapshotAction)
        requires
            old(self).inv(),
        ensures
            final(self).inv(),
            (final(self)@, r) == st_snapshot(old(self)@, snap),
    {
        match self.state {
            SyncState::Buffering | SyncState::Desynced => {
                self.pending_snapshot = None;
                if self.merge_pending(snap) {
                    SnapshotAction::Synced
                } else {
                    SnapshotAction::Waiting
                }
            },
            _ => SnapshotAction::Ignored,
        }
    }

    /// A diff arrived from the stream.
    ///
    /// Disconnected: ignored. Buffering or desynced: stored in id order
    /// (a full buffer sheds its oldest entry first, a non-fatal
    /// overflow), and joined with the stored snapshot where one waits.
    /// Synced: a diff whose whole range is covered is dropped as a stale
    /// duplicate; one starting right after the last applied id is
    /// applied; anything else — a hole after the applied id, or a range
    /// that overlaps it without starting right after it — is a gap, and
    /// the synchronizer desyncs and asks for a fresh snapshot (see
    /// `st_diff` on that policy).
    pub fn on_diff(&mut self, d: DiffRecord) -> (r: DiffHandled)
        requires
            old(self).inv(),
            d.wf(),
        ensures
            final(self).inv(),
            (final(self)@, r) == st_diff(old(self)@, d),
    {
        match self.state {
            SyncState::Disconnected => DiffHandled {
                action: DiffAction::Ignored,
                buffer_overflow: false,
            },
            SyncState::Synced => {
                let applied = match self.replica.last_applied_update_id() {
                    Some(a) => a,
                    None => {
                        proof {
                            assert(false);
                        }
                        0
                    },
                };
                if d.last_update_id <= applied {
                    DiffHandled { action: DiffAction::Stale, buffer_overflow: false }
                } else if d.first_update_id == applied + 1 {
                    let _ = self.replica.apply_diff(&d);
                    DiffHandled { action: DiffAction::Applied, buffer_overflow: false }
                } else {
                    self.state = SyncState::Desynced;
                    DiffHandled { action: DiffAction::Gap, buffer_overflow: false }
                }
            },
            SyncState::Buffering | SyncState::Desynced => {
                let full = self.buffer.len() >= self.capacity;
                if full {
                    proof {
                        assert(self.buffer@.remove(0) =~= self.buffer@.drop_first());
                    }
                    self.buffer.remove(0);
                }
                insert_diff_sorted(&mut self.buffer, d);
                let overflow = full;
                match self.pending_snapshot.take() {
                    None => {
                        self.state = SyncState::Buffering;
                        DiffHandled { action: DiffAction::Buffered, buffer_overflow: overflow }
                    },
                    Some(sn) => {
                        self.state = SyncState::Buffering;
                        if self.merge_pending(sn) {
                            DiffHandled { action: DiffAction::Merged, buffer_overflow: overflow }
                        } else {
                            DiffHandled {
                                action: DiffAction::Buffered,
                                buffer_overflow: overflow,
                            }
                        }
                    },
                }
            },
        }
    }
}

} // verus!
