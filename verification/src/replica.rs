use vstd::prelude::*;

use vstd::pervasive::VecAdditionalExecFns;

use crate::base::{DiffRecord, L2Side, L2Update, PriceLevel, Side};
use crate::currencies::CurrencyPair;
use crate::errors::InitError;

verus! {

// The replica holds one side's levels as a vector sorted by strictly
// ascending price, never storing a zero size. Contracts speak of the side
// as a map from price to size; `apply_level` and `apply_levels` say what a
// diff does to such a map.

/// What one touched level does to a side: size zero removes the price,
/// any other size sets it.
pub open spec fn apply_level(m: Map<u64, u64>, l: PriceLevel) -> Map<u64, u64> {
    if l.size == 0 {
        m.remove(l.price)
    } else {
        m.insert(l.price, l.size)
    }
}

/// What a list of touched levels does to a side, first to last.
pub open spec fn apply_levels(m: Map<u64, u64>, ls: Seq<PriceLevel>) -> Map<u64, u64>
    decreases ls.len(),
{
    if ls.len() == 0 {
        m
    } else {
        apply_level(apply_levels(m, ls.drop_last()), ls.last())
    }
}

/// The map a level list denotes when read into an empty side.
pub open spec fn map_of_levels(ls: Seq<PriceLevel>) -> Map<u64, u64> {
    apply_levels(Map::empty(), ls)
}

/// The side a sorted level vector denotes.
pub open spec fn as_price_map(s: Seq<PriceLevel>) -> Map<u64, u64>
    decreases s.len(),
{
    if s.len() == 0 {
        Map::empty()
    } else {
        as_price_map(s.drop_last()).insert(s.last().price, s.last().size)
    }
}

pub open spec fn side_sorted(s: Seq<PriceLevel>) -> bool {
    forall|i: int, j: int| 0 <= i < j < s.len() ==> s[i].price < s[j].price
}

pub open spec fn side_wf(s: Seq<PriceLevel>) -> bool {
    side_sorted(s) && (forall|i: int| 0 <= i < s.len() ==> s[i].size > 0)
}

proof fn lemma_as_map_keys(s: Seq<PriceLevel>)
    ensures
        forall|p: u64|
            as_price_map(s).contains_key(p) <==> (exists|i: int|
                0 <= i < s.len() && s[i].price == p),
    decreases s.len(),
{
    if s.len() > 0 {
        lemma_as_map_keys(s.drop_last());
        assert forall|p: u64| as_price_map(s).contains_key(p) implies (exists|i: int|
            0 <= i < s.len() && s[i].price == p) by {
            if p == s.last().price {
                assert(s[s.len() - 1].price == p);
            } else {
                assert(as_price_map(s.drop_last()).contains_key(p));
                let i = choose|i: int|
                    0 <= i < s.drop_last().len() && s.drop_last()[i].price == p;
                assert(s.drop_last()[i] == s[i]);
                assert(s[i].price == p);
            }
        }
        assert forall|p: u64| (exists|i: int| 0 <= i < s.len() && s[i].price == p) implies
            as_price_map(s).contains_key(p) by {
            let i = choose|i: int| 0 <= i < s.len() && s[i].price == p;
            if i < s.len() - 1 {
                assert(s.drop_last()[i] == s[i]);
                assert(s.drop_last()[i].price == p);
                assert(as_price_map(s.drop_last()).contains_key(p));
            }
        }
    }
}

proof fn lemma_as_map_at(s: Seq<PriceLevel>)
    requires
        forall|i: int, j: int| 0 <= i < j < s.len() ==> s[i].price != s[j].price,
    ensures
        forall|i: int|
            0 <= i < s.len() ==> as_price_map(s).contains_key(s[i].price) && as_price_map(s)[
                s[i].price
            ] == s[i].size,
    decreases s.len(),
{
    if s.len() > 0 {
        assert(forall|i: int, j: int|
            0 <= i < j < s.drop_last().len() ==> s.drop_last()[i].price != s.drop_last()[
                j
            ].price);
        lemma_as_map_at(s.drop_last());
        assert forall|i: int| 0 <= i < s.len() implies as_price_map(s).contains_key(s[i].price)
            && as_price_map(s)[s[i].price] == s[i].size by {
            if i < s.len() - 1 {
                assert(s.drop_last()[i] == s[i]);
                assert(as_price_map(s.drop_last()).contains_key(s.drop_last()[i].price));
                assert(as_price_map(s.drop_last())[s.drop_last()[i].price] == s.drop_last()[
                    i
                ].size);
                assert(s[i].price != s.last().price);
            }
        }
    }
}

proof fn lemma_as_map_update(s: Seq<PriceLevel>, k: int, sz: u64)
    requires
        0 <= k < s.len(),
        forall|i: int, j: int| 0 <= i < j < s.len() ==> s[i].price != s[j].price,
    ensures
        as_price_map(s.update(k, PriceLevel { price: s[k].price, size: sz })) == as_price_map(
            s,
        ).insert(s[k].price, sz),
    decreases s.len(),
{
    let t = s.update(k, PriceLevel { price: s[k].price, size: sz });
    if k == s.len() - 1 {
        assert(t.drop_last() =~= s.drop_last());
        assert(as_price_map(t) =~= as_price_map(s).insert(s[k].price, sz));
    } else {
        lemma_as_map_update(s.drop_last(), k, sz);
        assert(t.drop_last() =~= s.drop_last().update(
            k,
            PriceLevel { price: s[k].price, size: sz },
        ));
        assert(s.drop_last()[k] == s[k]);
        assert(t.last() == s.last());
        assert(s[k].price != s.last().price);
        assert(as_price_map(t) =~= as_price_map(s).insert(s[k].price, sz));
    }
}

proof fn lemma_as_map_insert_at(s: Seq<PriceLevel>, k: int, l: PriceLevel)
    requires
        0 <= k <= s.len(),
        forall|i: int| 0 <= i < s.len() ==> s[i].price != l.price,
    ensures
        as_price_map(s.insert(k, l)) == as_price_map(s).insert(l.price, l.size),
    decreases s.len(),
{
    let t = s.insert(k, l);
    if k == s.len() {
        assert(t.drop_last() =~= s);
        assert(t.last() == l);
    } else {
        lemma_as_map_insert_at(s.drop_last(), k, l);
        assert(t.drop_last() =~= s.drop_last().insert(k, l));
        assert(t.last() == s.last());
        assert(l.price != s.last().price);
        assert(as_price_map(t) =~= as_price_map(s).insert(l.price, l.size));
    }
}

proof fn lemma_as_map_absent(s: Seq<PriceLevel>, p: u64)
    requires
        forall|i: int| 0 <= i < s.len() ==> s[i].price != p,
    ensures
        !as_price_map(s).contains_key(p),
        as_price_map(s).remove(p) == as_price_map(s),
    decreases s.len(),
{
    lemma_as_map_keys(s);
    assert(as_price_map(s).remove(p) =~= as_price_map(s));
}

proof fn lemma_as_map_remove_at(s: Seq<PriceLevel>, k: int)
    requires
        0 <= k < s.len(),
        forall|i: int, j: int| 0 <= i < j < s.len() ==> s[i].price != s[j].price,
    ensures
        as_price_map(s.remove(k)) == as_price_map(s).remove(s[k].price),
    decreases s.len(),
{
    let t = s.remove(k);
    if k == s.len() - 1 {
        assert(t =~= s.drop_last());
        assert(forall|i: int| 0 <= i < s.drop_last().len() ==> s.drop_last()[i].price != s[
            k
        ].price);
        lemma_as_map_absent(s.drop_last(), s[k].price);
        assert(as_price_map(t) =~= as_price_map(s).remove(s[k].price));
    } else {
        lemma_as_map_remove_at(s.drop_last(), k);
        assert(t.drop_last() =~= s.drop_last().remove(k));
        assert(t.last() == s.last());
        assert(s[k].price != s.last().price);
        assert(as_price_map(t) =~= as_price_map(s).remove(s[k].price));
    }
}

/// One side of the replica: levels sorted by ascending price, sizes
/// never zero.
#[derive(Debug)]
pub struct OrderBookSide {
    levels: Vec<PriceLevel>,
}

impl View for OrderBookSide {
    type V = Map<u64, u64>;

    closed spec fn view(&self) -> Map<u64, u64> {
        as_price_map(self.levels@)
    }
}

impl OrderBookSide {
    /// The structural invariant every reachable side satisfies.
    pub closed spec fn wf(&self) -> bool {
        side_wf(self.levels@)
    }

    pub fn new() -> (r: OrderBookSide)
        ensures
            r.wf(),
            r@ == Map::<u64, u64>::empty(),
    {
        OrderBookSide { levels: Vec::new() }
    }

    pub fn clear(&mut self)
        ensures
            final(self).wf(),
            final(self)@ == Map::<u64, u64>::empty(),
    {
        self.levels.clear();
    }

    pub fn len(&self) -> (r: usize)
        requires
            self.wf(),
        ensures
            r == self@.dom().len(),
    {
        proof {
            lemma_side_len(self.levels@);
        }
        self.levels.len()
    }

    /// Applies one touched level: size zero removes the price, any other
    /// size sets it.
    pub fn set_level(&mut self, price: u64, size: u64)
        requires
            old(self).wf(),
        ensures
            final(self).wf(),
            final(self)@ == apply_level(old(self)@, PriceLevel { price, size }),
    {
        proof {
            lemma_as_map_keys(self.levels@);
        }
        let n = self.levels.len();
        let mut k: usize = 0;
        while k < n && self.levels[k].price < price
            invariant
                k <= n == self.levels@.len(),
                forall|i: int| 0 <= i < k ==> self.levels@[i].price < price,
            decreases n - k,
    {
            k += 1;
        }
        let ghost s = self.levels@;
        if k < n && self.levels[k].price == price {
            if size == 0 {
                self.levels.remove(k);
                proof {
                    lemma_as_map_remove_at(s, k as int);
                    assert(side_wf(self.levels@)) by {
                        assert(forall|i: int|
                            0 <= i < self.levels@.len() ==> self.levels@[i] == (if i < k {
                                s[i]
                            } else {
                                s[i + 1]
                            }));
                    }
                }
            } else {
                self.levels.set(k, PriceLevel { price, size });
                proof {
                    lemma_as_map_update(s, k as int, size);
                }
            }
        } else {
            // price is absent: all entries before k are below it, all at or
            // after k are above it
            proof {
                assert(forall|i: int| k <= i < s.len() ==> s[i].price > price) by {
                    assert(forall|i: int|
                        (k as int) < i < s.len() ==> s[k as int].price < s[i].price);
                }
                assert(forall|i: int| 0 <= i < s.len() ==> s[i].price != price);
            }
            if size == 0 {
                proof {
                    lemma_as_map_absent(s, price);
                }
            } else {
                self.levels.insert(k, PriceLevel { price, size });
                proof {
                    lemma_as_map_insert_at(s, k as int, PriceLevel { price, size });
                    assert(side_wf(self.levels@)) by {
                        assert(forall|i: int|
                            0 <= i < self.levels@.len() ==> self.levels@[i] == (if i < k {
                                s[i]
                            } else if i == k {
                                PriceLevel { price, size }
                            } else {
                                s[i - 1]
                            }));
                    }
                }
            }
        }
    }

    /// The extremal level: highest price for bids, lowest for asks.
    pub fn best(&self, side: Side) -> (r: Option<PriceLevel>)
        requires
            self.wf(),
        ensures
            match r {
                Some(l) => self@.contains_key(l.price) && self@[l.price] == l.size && (forall|
                    p: u64,
                |
                    self@.contains_key(p) ==> (match side {
                        Side::Bid => p <= l.price,
                        Side::Ask => p >= l.price,
                    })),
                None => self@ == Map::<u64, u64>::empty(),
            },
    {
        proof {
            lemma_as_map_keys(self.levels@);
            lemma_as_map_at(self.levels@);
        }
        let n = self.levels.len();
        if n == 0 {
            proof {
                assert(self@ =~= Map::<u64, u64>::empty());
            }
            return None;
        }
        match side {
            Side::Bid => {
                let l = self.levels[n - 1];
                proof {
                    assert forall|p: u64| self@.contains_key(p) implies p <= l.price by {
                        let i = choose|i: int|
                            0 <= i < self.levels@.len() && self.levels@[i].price == p;
                        if i < n - 1 {
                            assert(self.levels@[i].price < self.levels@[n - 1].price);
                        }
                    }
                }
                Some(l)
            },
            Side::Ask => {
                let l = self.levels[0];
                proof {
                    assert forall|p: u64| self@.contains_key(p) implies p >= l.price by {
                        let i = choose|i: int|
                            0 <= i < self.levels@.len() && self.levels@[i].price == p;
                        if i > 0 {
                            assert(self.levels@[0].price < self.levels@[i].price);
                        }
                    }
                }
                Some(l)
            },
        }
    }

    /// The levels as stored: ascending prices, positive sizes.
    pub fn to_levels(&self) -> (r: Vec<PriceLevel>)
        requires
            self.wf(),
        ensures
            side_wf(r@),
            as_price_map(r@) == self@,
            r@.len() == self@.dom().len(),
    {
        proof {
            lemma_side_len(self.levels@);
        }
        let mut out: Vec<PriceLevel> = Vec::new();
        let n = self.levels.len();
        let mut i: usize = 0;
        while i < n
            invariant
                i <= n == self.levels@.len(),
                out@ =~= self.levels@.take(i as int),
            decreases n - i,
        {
            out.push(self.levels[i]);
            i += 1;
            proof {
                assert(out@ =~= self.levels@.take(i as int));
            }
        }
        proof {
            assert(out@ =~= self.levels@);
        }
        out
    }
}

proof fn lemma_side_len(s: Seq<PriceLevel>)
    requires
        forall|i: int, j: int| 0 <= i < j < s.len() ==> s[i].price < s[j].price,
    ensures
        as_price_map(s).dom().len() == s.len(),
        as_price_map(s).dom().finite(),
    decreases s.len(),
{
    if s.len() > 0 {
        assert(forall|i: int, j: int|
            0 <= i < j < s.drop_last().len() ==> s.drop_last()[i].price < s.drop_last()[
                j
            ].price);
        lemma_side_len(s.drop_last());
        lemma_as_map_keys(s.drop_last());
        assert(!as_price_map(s.drop_last()).contains_key(s.last().price)) by {
            if as_price_map(s.drop_last()).contains_key(s.last().price) {
                let i = choose|i: int|
                    0 <= i < s.drop_last().len() && s.drop_last()[i].price == s.last().price;
                assert(s[i].price < s.last().price);
            }
        }
        assert(as_price_map(s).dom() =~= as_price_map(s.drop_last()).dom().insert(
            s.last().price,
        ));
        vstd::set::axiom_set_insert_len(as_price_map(s.drop_last()).dom(), s.last().price);
    } else {
        assert(as_price_map(s).dom() =~= Set::<u64>::empty());
    }
}

/// The current local image of one pair's book: both sides plus the last
/// applied update-id, unset until a snapshot lands.
#[derive(Debug)]
pub struct OrderBookReplica {
    pair: CurrencyPair,
    bids: OrderBookSide,
    asks: OrderBookSide,
    last_applied_update_id: Option<u64>,
}

/// What applying a diff did.
#[derive(Clone, Copy, PartialEq, Eq, Structural, Debug)]
pub enum DiffOutcome {
    /// The levels were applied and the update-id advanced.
    Applied,
    /// The whole range was already covered: a stale duplicate, dropped.
    Stale,
}

impl OrderBookReplica {
    /// The structural invariant every reachable replica satisfies.
    pub closed spec fn inv(&self) -> bool {
        self.bids.wf() && self.asks.wf()
    }

    pub closed spec fn bid_map(&self) -> Map<u64, u64> {
        self.bids@
    }

    pub closed spec fn ask_map(&self) -> Map<u64, u64> {
        self.asks@
    }

    pub closed spec fn last_id(&self) -> Option<u64> {
        self.last_applied_update_id
    }

    pub closed spec fn spec_pair(&self) -> CurrencyPair {
        self.pair
    }

    /// A fresh replica: empty sides, no update-id yet.
    pub fn new(pair: CurrencyPair) -> (r: OrderBookReplica)
        ensures
            r.inv(),
            r.bid_map() == Map::<u64, u64>::empty(),
            r.ask_map() == Map::<u64, u64>::empty(),
            r.last_id() is None,
            r.spec_pair() == pair,
    {
        OrderBookReplica {
            pair,
            bids: OrderBookSide::new(),
            asks: OrderBookSide::new(),
            last_applied_update_id: None,
        }
    }

    pub fn pair(&self) -> (r: CurrencyPair)
        ensures
            r == self.spec_pair(),
    {
        self.pair
    }

    pub fn last_applied_update_id(&self) -> (r: Option<u64>)
        ensures
            r == self.last_id(),
    {
        self.last_applied_update_id
    }

    /// Replaces the whole book with the snapshot's levels and update-id.
    /// Always succeeds on well-formed input.
    pub fn apply_snapshot(&mut self, levels: &L2Update, snapshot_update_id: u64)
        requires
            old(self).inv(),
        ensures
            final(self).inv(),
            final(self).bid_map() == map_of_levels(levels.spec_get(Side::Bid)),
            final(self).ask_map() == map_of_levels(levels.spec_get(Side::Ask)),
            final(self).last_id() == Some(snapshot_update_id),
            final(self).spec_pair() == old(self).spec_pair(),
    {
        self.bids.clear();
        self.asks.clear();
        apply_side_levels(&mut self.bids, levels.get(Side::Bid));
        apply_side_levels(&mut self.asks, levels.get(Side::Ask));
        self.last_applied_update_id = Some(snapshot_update_id);
    }

    /// Applies one diff.
    ///
    /// Fails with `NotInitialized` before any snapshot. A diff whose whole
    /// range is already covered (`last_update_id` at or below the replica's
    /// update-id) is dropped unchanged: applying it again is a no-op.
    /// Otherwise every touched level is applied and the update-id becomes
    /// the diff's `last_update_id`.
    pub fn apply_diff(&mut self, diff: &DiffRecord) -> (r: Result<DiffOutcome, InitError>)
        requires
            old(self).inv(),
        ensures
            final(self).inv(),
            final(self).spec_pair() == old(self).spec_pair(),
            match old(self).last_id() {
                None => r == Err::<DiffOutcome, InitError>(InitError::NotInitialized)
                    && *final(self) == *old(self),
                Some(applied) => if diff.last_update_id <= applied {
                    r == Ok::<DiffOutcome, InitError>(DiffOutcome::Stale)
                        && *final(self) == *old(self)
                } else {
                    &&& r == Ok::<DiffOutcome, InitError>(DiffOutcome::Applied)
                    &&& final(self).bid_map() == apply_levels(
                        old(self).bid_map(),
                        diff.levels.spec_get(Side::Bid),
                    )
                    &&& final(self).ask_map() == apply_levels(
                        old(self).ask_map(),
                        diff.levels.spec_get(Side::Ask),
                    )
                    &&& final(self).last_id() == Some(diff.last_update_id)
                },
            },
    {
        let applied = match self.last_applied_update_id {
            None => {
                return Err(InitError::NotInitialized);
            },
            Some(a) => a,
        };
        if diff.last_update_id <= applied {
            return Ok(DiffOutcome::Stale);
        }
        apply_side_levels(&mut self.bids, diff.levels.get(Side::Bid));
        apply_side_levels(&mut self.asks, diff.levels.get(Side::Ask));
        self.last_applied_update_id = Some(diff.last_update_id);
        Ok(DiffOutcome::Applied)
    }

    /// The highest-priced bid level, `None` on an empty side.
    pub fn best_bid(&self) -> (r: Option<PriceLevel>)
        requires
            self.inv(),
        ensures
            match r {
                Some(l) => self.bid_map().contains_key(l.price) && self.bid_map()[l.price]
                    == l.size && (forall|p: u64| self.bid_map().contains_key(p) ==> p <= l.price),
                None => self.bid_map() == Map::<u64, u64>::empty(),
            },
    {
        self.bids.best(Side::Bid)
    }

    /// The lowest-priced ask level, `None` on an empty side.
    pub fn best_ask(&self) -> (r: Option<PriceLevel>)
        requires
            self.inv(),
        ensures
            match r {
                Some(l) => self.ask_map().contains_key(l.price) && self.ask_map()[l.price]
                    == l.size && (forall|p: u64| self.ask_map().contains_key(p) ==> p >= l.price),
                None => self.ask_map() == Map::<u64, u64>::empty(),
            },
    {
        self.asks.best(Side::Ask)
    }

    /// The stored bid levels, ascending by price.
    pub fn bid_levels(&self) -> (r: Vec<PriceLevel>)
        requires
            self.inv(),
        ensures
            side_wf(r@),
            as_price_map(r@) == self.bid_map(),
    {
        self.bids.to_levels()
    }

    /// The stored ask levels, ascending by price.
    pub fn ask_levels(&self) -> (r: Vec<PriceLevel>)
        requires
            self.inv(),
        ensures
            side_wf(r@),
            as_price_map(r@) == self.ask_map(),
    {
        self.asks.to_levels()
    }
}

/// What kind of change an outward book event reports.
#[derive(Clone, Copy, PartialEq, Eq, Structural, Debug)]
pub enum BookEventKind {
    Snapshot,
    Update,
}

/// The event handed to downstream consumers after an apply: what kind
/// of change landed, and the book's best levels after it.
#[derive(Clone, Copy, PartialEq, Debug)]
pub struct BookEvent {
    pub kind: BookEventKind,
    pub best_bid: Option<PriceLevel>,
    pub best_ask: Option<PriceLevel>,
}

impl OrderBookReplica {
    /// The outward event for the book as it now stands.
    pub fn book_event(&self, kind: BookEventKind) -> (e: BookEvent)
        requires
            self.inv(),
        ensures
            e.kind == kind,
            match e.best_bid {
                Some(l) => self.bid_map().contains_key(l.price) && self.bid_map()[l.price]
                    == l.size && (forall|p: u64| self.bid_map().contains_key(p) ==> p <= l.price),
                None => self.bid_map() == Map::<u64, u64>::empty(),
            },
            match e.best_ask {
                Some(l) => self.ask_map().contains_key(l.price) && self.ask_map()[l.price]
                    == l.size && (forall|p: u64| self.ask_map().contains_key(p) ==> p >= l.price),
                None => self.ask_map() == Map::<u64, u64>::empty(),
            },
    {
        BookEvent { kind, best_bid: self.best_bid(), best_ask: self.best_ask() }
    }
}

/// Applies a level list to one side, first to last.
fn apply_side_levels(side: &mut OrderBookSide, ls: &L2Side)
    requires
        old(side).wf(),
    ensures
        final(side).wf(),
        final(side)@ == apply_levels(old(side)@, ls@),
{
    let n = ls.len();
    let mut i: usize = 0;
    while i < n
        invariant
            i <= n == ls@.len(),
            side.wf(),
            side@ == apply_levels(old(side)@, ls@.take(i as int)),
        decreases n - i,
    {
        let l = ls.level_at(i);
        side.set_level(l.price, l.size);
        i += 1;
        proof {
            let t = ls@.take(i as int);
            assert(t.drop_last() =~= ls@.take(i - 1));
            assert(t.last() == ls@[i - 1]);
        }
    }
    proof {
        assert(ls@.take(n as int) =~= ls@);
    }
}

// Laws of the replica, stated over its map views.

/// Every reachable replica stores no zero-size level: whatever price a
/// side holds, it holds with a positive size. (Price keys are unique by
/// construction: each side is a map.)
pub proof fn lemma_no_zero_size_levels(r: &OrderBookReplica)
    requires
        r.inv(),
    ensures
        forall|p: u64| r.bid_map().contains_key(p) ==> r.bid_map()[p] > 0,
        forall|p: u64| r.ask_map().contains_key(p) ==> r.ask_map()[p] > 0,
{
    lemma_wf_side_positive(r.bids);
    lemma_wf_side_positive(r.asks);
}

proof fn lemma_wf_side_positive(side: OrderBookSide)
    requires
        side.wf(),
    ensures
        forall|p: u64| side@.contains_key(p) ==> side@[p] > 0,
{
    lemma_as_map_keys(side.levels@);
    lemma_as_map_at(side.levels@);
    assert forall|p: u64| side@.contains_key(p) implies side@[p] > 0 by {
        let i = choose|i: int| 0 <= i < side.levels@.len() && side.levels@[i].price == p;
        assert(side@[side.levels@[i].price] == side.levels@[i].size);
    }
}

/// A diff that touches no level mutates no side: applying an empty level
/// list returns the side unchanged.
pub proof fn lemma_empty_diff_no_mutation(m: Map<u64, u64>)
    ensures
        apply_levels(m, Seq::<PriceLevel>::empty()) == m,
{
}

} // verus!
