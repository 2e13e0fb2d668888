use vstd::prelude::*;

verus! {

/// Which half of the book a level belongs to.
#[derive(Clone, Copy, PartialEq, Eq, Structural, Debug, Hash)]
pub enum Side {
    Bid,
    Ask,
}

impl Side {
    /// Both sides, bids first.
    pub fn iter() -> (r: Vec<Side>)
        ensures
            r@ =~= seq![Side::Bid, Side::Ask],
    {
        let mut v: Vec<Side> = Vec::new();
        v.push(Side::Bid);
        v.push(Side::Ask);
        v
    }

    pub open spec fn spec_opposite(self) -> Side {
        match self {
            Side::Bid => Side::Ask,
            Side::Ask => Side::Bid,
        }
    }
}

/// One price level; price and size are multiples of 1e-8 (see `decimal`).
#[derive(Clone, Copy, Debug)]
pub struct PriceLevel {
    pub price: u64,
    pub size: u64,
}

impl PartialEq for PriceLevel {
    fn eq(&self, other: &Self) -> bool {
        self.price == other.price && self.size == other.size
    }
}

impl vstd::std_specs::cmp::PartialEqSpecImpl for PriceLevel {
    open spec fn obeys_eq_spec() -> bool {
        true
    }

    open spec fn eq_spec(&self, other: &PriceLevel) -> bool {
        self.price == other.price && self.size == other.size
    }
}

/// The levels decoded for one side, in wire order; duplicates allowed here.
#[derive(Debug)]
pub struct L2Side {
    pub levels: Vec<PriceLevel>,
}

impl View for L2Side {
    type V = Seq<PriceLevel>;

    open spec fn view(&self) -> Seq<PriceLevel> {
        self.levels@
    }
}

impl PartialEq for L2Side {
    fn eq(&self, other: &Self) -> (r: bool) {
        let r = self.levels == other.levels;
        proof {
            if r {
                assert(forall|i: int|
                    0 <= i < self.levels@.len() ==> self.levels@[i] == other.levels@[i]);
                assert(self.levels@ =~= other.levels@);
            }
        }
        r
    }
}

impl vstd::std_specs::cmp::PartialEqSpecImpl for L2Side {
    open spec fn obeys_eq_spec() -> bool {
        true
    }

    open spec fn eq_spec(&self, other: &L2Side) -> bool {
        self@ == other@
    }
}

impl L2Side {
    pub fn new() -> (r: L2Side)
        ensures
            r@ =~= Seq::<PriceLevel>::empty(),
    {
        L2Side { levels: Vec::new() }
    }

    pub fn clear(&mut self)
        ensures
            final(self)@ =~= Seq::<PriceLevel>::empty(),
    {
        self.levels.clear()
    }

    /// Appends a level; returns the side again so calls can chain.
    pub fn add(&mut self, price: u64, size: u64) -> (r: &mut L2Side)
        ensures
            (*r)@ == old(self)@.push(PriceLevel { price, size }),
            *final(self) == *final(r),
    {
        self.levels.push(PriceLevel { price, size });
        self
    }

    pub fn len(&self) -> (r: usize)
        ensures
            r == self@.len(),
    {
        self.levels.len()
    }

    pub fn level_at(&self, i: usize) -> (r: PriceLevel)
        requires
            i < self@.len(),
        ensures
            r == self@[i as int],
    {
        self.levels[i]
    }
}

/// One decoded message body: the touched levels of both sides.
/// Serves snapshots and increments alike.
#[derive(Debug)]
pub struct L2Update {
    pub bid: L2Side,
    pub ask: L2Side,
}

impl PartialEq for L2Update {
    fn eq(&self, other: &Self) -> bool {
        self.bid == other.bid && self.ask == other.ask
    }
}

impl vstd::std_specs::cmp::PartialEqSpecImpl for L2Update {
    open spec fn obeys_eq_spec() -> bool {
        true
    }

    open spec fn eq_spec(&self, other: &L2Update) -> bool {
        self.bid@ == other.bid@ && self.ask@ == other.ask@
    }
}

impl L2Update {
    pub open spec fn spec_get(self, side: Side) -> Seq<PriceLevel> {
        match side {
            Side::Bid => self.bid@,
            Side::Ask => self.ask@,
        }
    }

    pub fn new() -> (r: L2Update)
        ensures
            r.spec_get(Side::Bid) =~= Seq::<PriceLevel>::empty(),
            r.spec_get(Side::Ask) =~= Seq::<PriceLevel>::empty(),
    {
        L2Update { bid: L2Side::new(), ask: L2Side::new() }
    }

    pub fn get(&self, side: Side) -> (r: &L2Side)
        ensures
            r@ == self.spec_get(side),
    {
        match side {
            Side::Bid => &self.bid,
            Side::Ask => &self.ask,
        }
    }

    pub fn get_mut(&mut self, side: Side) -> (r: &mut L2Side)
        ensures
            (*r)@ == old(self).spec_get(side),
            final(self).spec_get(side) == final(r)@,
            final(self).spec_get(side.spec_opposite()) == old(self).spec_get(
                side.spec_opposite(),
            ),
    {
        match side {
            Side::Bid => &mut self.bid,
            Side::Ask => &mut self.ask,
        }
    }
}

/// An incremental change: the touched levels plus the inclusive
/// update-id range the exchange stamped on it.
#[derive(Debug, PartialEq)]
pub struct DiffRecord {
    pub first_update_id: u64,
    pub last_update_id: u64,
    pub levels: L2Update,
}

impl DiffRecord {
    /// A diff's range must be a real inclusive range.
    pub open spec fn wf(self) -> bool {
        self.first_update_id <= self.last_update_id
    }
}

/// A full book image at one update-id.
#[derive(Debug, PartialEq)]
pub struct SnapshotRecord {
    pub update_id: u64,
    pub levels: L2Update,
}

} // verus!
