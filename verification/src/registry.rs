use vstd::prelude::*;
use vstd::std_specs::vec::vec_index_mut;

use crate::base::{DiffRecord, SnapshotRecord};
use crate::currencies::CurrencyPair;
use crate::sync::{
    st_connect, st_diff, st_disconnect, st_gap_timeout, st_snapshot, DiffHandled, SnapshotAction,
    SyncView, Synchronizer,
};

verus! {

// The per-pair registry: one synchronizer per subscribed pair, created on
// subscribe and removed on unsubscribe. Events are forwarded by pair, so
// every replica keeps exactly one writer and readers only ever see a
// shared borrow.

/// The first entry holding `pair`, at or after `j`.
pub open spec fn find_pair(s: Seq<SyncView>, pair: CurrencyPair, j: int) -> Option<int>
    decreases s.len() - j when 0 <= j <= s.len()
{
    if j >= s.len() {
        None
    } else if s[j].pair == pair {
        Some(j)
    } else {
        find_pair(s, pair, j + 1)
    }
}

proof fn lemma_find_pair_none(s: Seq<SyncView>, pair: CurrencyPair, j: int)
    requires
        0 <= j <= s.len(),
        find_pair(s, pair, j) is None,
    ensures
        forall|i: int| j <= i < s.len() ==> s[i].pair != pair,
    decreases s.len() - j,
{
    if j < s.len() {
        lemma_find_pair_none(s, pair, j + 1);
    }
}

/// The view a fresh subscription starts from.
pub open spec fn fresh_view(pair: CurrencyPair, capacity: nat) -> SyncView {
    SyncView {
        pair,
        state: crate::sync::SyncState::Disconnected,
        bids: Map::empty(),
        asks: Map::empty(),
        applied: None,
        buf: Seq::empty(),
        pending: None,
        capacity,
    }
}

/// One synchronizer per subscribed pair.
#[derive(Debug)]
pub struct BookRegistry {
    entries: Vec<Synchronizer>,
    capacity: usize,
}

impl View for BookRegistry {
    type V = Seq<SyncView>;

    closed spec fn view(&self) -> Seq<SyncView> {
        Seq::new(self.entries@.len(), |i: int| self.entries@[i]@)
    }
}

impl BookRegistry {
    /// The invariant every reachable registry satisfies: each entry's
    /// own invariant, and one entry per pair.
    pub open spec fn inv(&self) -> bool {
        &&& self.entries_inv()
        &&& forall|i: int, j: int|
            0 <= i < j < self@.len() ==> (#[trigger] self@[i]).pair != (#[trigger] self@[j]).pair
        &&& self.spec_capacity() >= 1
    }

    /// Each held synchronizer's own invariant; opaque apart from its name.
    pub closed spec fn entries_inv(&self) -> bool {
        forall|i: int| 0 <= i < self.entries@.len() ==> (#[trigger] self.entries@[i]).inv()
    }

    /// The buffer capacity each new subscription is given.
    pub closed spec fn spec_capacity(&self) -> nat {
        self.capacity as nat
    }

    pub fn new(capacity: usize) -> (r: BookRegistry)
        requires
            capacity >= 1,
        ensures
            r.inv(),
            r@ == Seq::<SyncView>::empty(),
            r.spec_capacity() == capacity,
    {
        let r = BookRegistry { entries: Vec::new(), capacity };
        proof {
            assert(r@ =~= Seq::<SyncView>::empty());
        }
        r
    }

    /// Where `pair`'s entry stands, if it is subscribed.
    fn find(&self, pair: CurrencyPair) -> (r: Option<usize>)
        ensures
            match r {
                Some(i) => find_pair(self@, pair, 0) == Some(i as int) && i < self@.len(),
                None => find_pair(self@, pair, 0) is None,
            },
    {
        let n = self.entries.len();
        proof {
            assert(self@.len() == n);
        }
        let mut j: usize = 0;
        while j < n && self.entries[j].pair() != pair
            invariant
                j <= n == self@.len(),
                n == self.entries@.len(),
                find_pair(self@, pair, 0) == find_pair(self@, pair, j as int),
            decreases n - j,
        {
            proof {
                assert(self@[j as int] == self.entries@[j as int]@);
                assert(find_pair(self@, pair, j as int) == find_pair(self@, pair, j + 1));
            }
            j += 1;
        }
        if j < n {
            proof {
                assert(self@[j as int] == self.entries@[j as int]@);
                assert(find_pair(self@, pair, j as int) == Some(j as int));
            }
            Some(j)
        } else {
            None
        }
    }

    /// Starts maintaining `pair`'s book; true when the subscription is
    /// new, false when one already stands.
    pub fn subscribe(&mut self, pair: CurrencyPair) -> (r: bool)
        requires
            old(self).inv(),
        ensures
            final(self).inv(),
            match find_pair(old(self)@, pair, 0) {
                Some(_) => !r && final(self)@ == old(self)@,
                None => r && final(self)@ == old(self)@.push(
                    fresh_view(pair, old(self).spec_capacity()),
                ),
            },
            final(self).spec_capacity() == old(self).spec_capacity(),
    {
        match self.find(pair) {
            Some(_) => false,
            None => {
                proof {
                    lemma_find_pair_none(self@, pair, 0);
                }
                let fresh = Synchronizer::new(pair, self.capacity);
                proof {
                    assert(fresh@ == fresh_view(pair, self.spec_capacity()));
                }
                self.entries.push(fresh);
                proof {
                    assert(self@ =~= old(self)@.push(fresh_view(pair, self.spec_capacity())));
                }
                true
            },
        }
    }

    /// Tears `pair`'s book down; true when one stood.
    pub fn unsubscribe(&mut self, pair: CurrencyPair) -> (r: bool)
        requires
            old(self).inv(),
        ensures
            final(self).inv(),
            match find_pair(old(self)@, pair, 0) {
                Some(i) => r && final(self)@ == old(self)@.remove(i),
                None => !r && final(self)@ == old(self)@,
            },
            final(self).spec_capacity() == old(self).spec_capacity(),
    {
        match self.find(pair) {
            None => false,
            Some(i) => {
                self.entries.remove(i);
                proof {
                    assert(self@ =~= old(self)@.remove(i as int));
                }
                true
            },
        }
    }

    /// Read-only access to `pair`'s synchronizer and replica, or `None`
    /// where no subscription stands.
    pub fn current_view(&self, pair: CurrencyPair) -> (r: Option<&Synchronizer>)
        ensures
            match find_pair(self@, pair, 0) {
                Some(i) => r is Some && r->Some_0@ == self@[i] && (self.inv()
                    ==> r->Some_0.inv()),
                None => r is None,
            },
    {
        match self.find(pair) {
            None => None,
            Some(i) => {
                proof {
                    assert(self@[i as int] == self.entries@[i as int]@);
                }
                Some(&self.entries[i])
            },
        }
    }

    /// The subscribed pairs, in subscription order.
    pub fn pairs(&self) -> (r: Vec<CurrencyPair>)
        ensures
            r@.len() == self@.len(),
            forall|i: int| 0 <= i < r@.len() ==> r@[i] == self@[i].pair,
    {
        let n = self.entries.len();
        let mut out: Vec<CurrencyPair> = Vec::new();
        let mut j: usize = 0;
        while j < n
            invariant
                j <= n == self.entries@.len(),
                n == self@.len(),
                out@.len() == j,
                forall|i: int| 0 <= i < j ==> out@[i] == self@[i].pair,
            decreases n - j,
        {
            proof {
                assert(self@[j as int] == self.entries@[j as int]@);
            }
            out.push(self.entries[j].pair());
            j += 1;
        }
        out
    }

    /// Forwards a stream-up event to `pair`'s synchronizer.
    pub fn on_connect(&mut self, pair: CurrencyPair) -> (r: Option<bool>)
        requires
            old(self).inv(),
        ensures
            final(self).inv(),
            final(self).spec_capacity() == old(self).spec_capacity(),
            match find_pair(old(self)@, pair, 0) {
                Some(i) => final(self)@ == old(self)@.update(i, st_connect(old(self)@[i]).0)
                    && r == Some(st_connect(old(self)@[i]).1),
                None => r is None && final(self)@ == old(self)@,
            },
    {
        match self.find(pair) {
            None => None,
            Some(i) => {
                proof {
                    assert(self@[i as int] == self.entries@[i as int]@);
                }
                let entry = vec_index_mut(&mut self.entries, i);
                let fetch = entry.on_connect();
                proof {
                    assert(self@ =~= old(self)@.update(
                        i as int,
                        st_connect(old(self)@[i as int]).0,
                    ));
                }
                Some(fetch)
            },
        }
    }

    /// Forwards a stream-down event to `pair`'s synchronizer.
    pub fn on_disconnect(&mut self, pair: CurrencyPair) -> (r: bool)
        requires
            old(self).inv(),
        ensures
            final(self).inv(),
            final(self).spec_capacity() == old(self).spec_capacity(),
            match find_pair(old(self)@, pair, 0) {
                Some(i) => r && final(self)@ == old(self)@.update(
                    i,
                    st_disconnect(old(self)@[i]),
                ),
                None => !r && final(self)@ == old(self)@,
            },
    {
        match self.find(pair) {
            None => false,
            Some(i) => {
                proof {
                    assert(self@[i as int] == self.entries@[i as int]@);
                }
                let entry = vec_index_mut(&mut self.entries, i);
                entry.on_disconnect();
                proof {
                    assert(self@ =~= old(self)@.update(
                        i as int,
                        st_disconnect(old(self)@[i as int]),
                    ));
                }
                true
            },
        }
    }

    /// Forwards a diff to `pair`'s synchronizer.
    pub fn on_diff(&mut self, pair: CurrencyPair, d: DiffRecord) -> (r: Option<DiffHandled>)
        requires
            old(self).inv(),
            d.wf(),
        ensures
            final(self).inv(),
            final(self).spec_capacity() == old(self).spec_capacity(),
            match find_pair(old(self)@, pair, 0) {
                Some(i) => final(self)@ == old(self)@.update(i, st_diff(old(self)@[i], d).0)
                    && r == Some(st_diff(old(self)@[i], d).1),
                None => r is None && final(self)@ == old(self)@,
            },
    {
        match self.find(pair) {
            None => None,
            Some(i) => {
                proof {
                    assert(self@[i as int] == self.entries@[i as int]@);
                }
                let entry = vec_index_mut(&mut self.entries, i);
                let handled = entry.on_diff(d);
                proof {
                    assert(self@ =~= old(self)@.update(
                        i as int,
                        st_diff(old(self)@[i as int], d).0,
                    ));
                }
                Some(handled)
            },
        }
    }

    /// Forwards a snapshot to `pair`'s synchronizer.
    pub fn on_snapshot(&mut self, pair: CurrencyPair, snap: SnapshotRecord) -> (r: Option<
        SnapshotAction,
    >)
        requires
            old(self).inv(),
        ensures
            final(self).inv(),
            final(self).spec_capacity() == old(self).spec_capacity(),
            match find_pair(old(self)@, pair, 0) {
                Some(i) => final(self)@ == old(self)@.update(
                    i,
                    st_snapshot(old(self)@[i], snap).0,
                ) && r == Some(st_snapshot(old(self)@[i], snap).1),
                None => r is None && final(self)@ == old(self)@,
            },
    {
        match self.find(pair) {
            None => None,
            Some(i) => {
                proof {
                    assert(self@[i as int] == self.entries@[i as int]@);
                }
                let ghost snap0 = snap;
                let entry = vec_index_mut(&mut self.entries, i);
                let action = entry.on_snapshot(snap);
                proof {
                    assert(self@ =~= old(self)@.update(
                        i as int,
                        st_snapshot(old(self)@[i as int], snap0).0,
                    ));
                }
                Some(action)
            },
        }
    }

    /// Forwards the gap-timeout event to `pair`'s synchronizer.
    pub fn on_gap_timeout(&mut self, pair: CurrencyPair) -> (r: Option<bool>)
        requires
            old(self).inv(),
        ensures
            final(self).inv(),
            final(self).spec_capacity() == old(self).spec_capacity(),
            match find_pair(old(self)@, pair, 0) {
                Some(i) => final(self)@ == old(self)@.update(i, st_gap_timeout(old(self)@[i]).0)
                    && r == Some(st_gap_timeout(old(self)@[i]).1),
                None => r is None && final(self)@ == old(self)@,
            },
    {
        match self.find(pair) {
            None => None,
            Some(i) => {
                proof {
                    assert(self@[i as int] == self.entries@[i as int]@);
                }
                let entry = vec_index_mut(&mut self.entries, i);
                let fetch = entry.on_gap_timeout();
                proof {
                    assert(self@ =~= old(self)@.update(
                        i as int,
                        st_gap_timeout(old(self)@[i as int]).0,
                    ));
                }
                Some(fetch)
            },
        }
    }
}

} // verus!
