use vstd::prelude::*;

use crate::base::{L2Update, Side, SnapshotRecord};
use crate::binance_utils::{
    parse_binance_update_side, spec_levels_of, spec_levels_ok, BinanceUpdate,
};
use crate::errors::DecodeError;
use crate::json::{
    after_comma, after_key, expect_comma, expect_key, parse_levels_array_tok, parse_u64_tok,
    skip_ws, spec_parse_levels_array, spec_parse_uint, ws_end,
};

verus! {

// The snapshot message: an object with members lastUpdateId, bids, asks,
// for example
//   {"lastUpdateId":160,"bids":[["0.0024","10"]],"asks":[["0.0026","100"]]}
//
// As with the diff message, the grammar of record is this exact shape:
// the members in the order the exchange emits them, each exactly once,
// and no others; anything else is a schema error.

/// Key "lastUpdateId".
pub open spec fn key_last_update_id() -> Seq<u8> {
    seq![108u8, 97, 115, 116, 85, 112, 100, 97, 116, 101, 73, 100]
}

/// Key "bids".
pub open spec fn key_bids() -> Seq<u8> {
    seq![98u8, 105, 100, 115]
}

/// Key "asks".
pub open spec fn key_asks() -> Seq<u8> {
    seq![97u8, 115, 107, 115]
}

/// What a well-shaped snapshot message denotes, before any range or
/// level checking: its update-id (unbounded) and raw per-side levels.
pub struct RawSnapshot {
    pub last: nat,
    pub bids: Seq<Seq<Seq<u8>>>,
    pub asks: Seq<Seq<Seq<u8>>>,
}

/// The snapshot message grammar: the members in canonical order,
/// nothing else (see the module comment).
pub open spec fn spec_parse_snapshot(s: Seq<u8>) -> Option<RawSnapshot> {
    let i0 = ws_end(s, 0);
    if !(i0 < s.len() && s[i0] == 123) {
        None
    } else {
        match after_key(s, ws_end(s, i0 + 1), key_last_update_id()) {
            None => None,
            Some(v1) => match spec_parse_uint(s, v1) {
                None => None,
                Some((last, p1)) => match after_comma(s, p1) {
                    None => None,
                    Some(i2) => match after_key(s, i2, key_bids()) {
                        None => None,
                        Some(v2) => match spec_parse_levels_array(s, v2) {
                            None => None,
                            Some((bids, p2)) => match after_comma(s, p2) {
                                None => None,
                                Some(i3) => match after_key(s, i3, key_asks()) {
                                    None => None,
                                    Some(v3) => match spec_parse_levels_array(s, v3) {
                                        None => None,
                                        Some((asks, p3)) => {
                                            let q = ws_end(s, p3);
                                            if q < s.len() && s[q] == 125 && ws_end(s, q + 1)
                                                == s.len() {
                                                Some(RawSnapshot { last, bids, asks })
                                            } else {
                                                None
                                            }
                                        },
                                    },
                                },
                            },
                        },
                    },
                },
            },
        }
    }
}

/// A snapshot message parses and its update-id fits `u64`.
pub open spec fn spec_snapshot_shape_ok(s: Seq<u8>) -> bool {
    &&& spec_parse_snapshot(s) is Some
    &&& spec_parse_snapshot(s)->Some_0.last <= u64::MAX
}

/// The raw fields of one snapshot message.
#[derive(Debug)]
pub struct BinanceSnapshot {
    pub last_update_id: u64,
    pub bids: Vec<Vec<Vec<u8>>>,
    pub asks: Vec<Vec<Vec<u8>>>,
}

impl BinanceUpdate for BinanceSnapshot {
    open spec fn spec_get(&self, side: Side) -> Seq<Seq<Seq<u8>>> {
        match side {
            Side::Bid => self.bids.deep_view(),
            Side::Ask => self.asks.deep_view(),
        }
    }

    fn get(&self, side: Side) -> (r: &Vec<Vec<Vec<u8>>>) {
        match side {
            Side::Bid => &self.bids,
            Side::Ask => &self.asks,
        }
    }
}

/// Does `snap` carry exactly what the message `s` denotes?
pub open spec fn snapshot_matches(snap: BinanceSnapshot, raw: RawSnapshot) -> bool {
    &&& snap.last_update_id == raw.last
    &&& snap.bids.deep_view() == raw.bids
    &&& snap.asks.deep_view() == raw.asks
}

/// Reads the raw fields out of a snapshot message; agrees with
/// `spec_parse_snapshot` wherever the update-id is representable.
fn parse_snapshot_json(data: &[u8]) -> (r: Option<BinanceSnapshot>)
    ensures
        r is Some <==> spec_snapshot_shape_ok(data@),
        r is Some ==> snapshot_matches(r->Some_0, spec_parse_snapshot(data@)->Some_0),
{
    let n = data.len();
    let i0 = skip_ws(data, 0);
    if !(i0 < n && data[i0] == 123) {
        return None;
    }
    let i1 = skip_ws(data, i0 + 1);
    let key1: [u8; 12] = [108u8, 97, 115, 116, 85, 112, 100, 97, 116, 101, 73, 100];
    proof {
        assert(key1@ =~= key_last_update_id());
    }
    let v1 = match expect_key(data, i1, key1.as_slice()) {
        Some(v) => v,
        None => {
            return None;
        },
    };
    let (last, p1) = match parse_u64_tok(data, v1) {
        Some(x) => x,
        None => {
            return None;
        },
    };
    let i2 = match expect_comma(data, p1) {
        Some(x) => x,
        None => {
            return None;
        },
    };
    let key2: [u8; 4] = [98u8, 105, 100, 115];
    proof {
        assert(key2@ =~= key_bids());
    }
    let v2 = match expect_key(data, i2, key2.as_slice()) {
        Some(v) => v,
        None => {
            return None;
        },
    };
    let (bids, p2) = match parse_levels_array_tok(data, v2) {
        Some(x) => x,
        None => {
            return None;
        },
    };
    let i3 = match expect_comma(data, p2) {
        Some(x) => x,
        None => {
            return None;
        },
    };
    let key3: [u8; 4] = [97u8, 115, 107, 115];
    proof {
        assert(key3@ =~= key_asks());
    }
    let v3 = match expect_key(data, i3, key3.as_slice()) {
        Some(v) => v,
        None => {
            return None;
        },
    };
    let (asks, p3) = match parse_levels_array_tok(data, v3) {
        Some(x) => x,
        None => {
            return None;
        },
    };
    let q = skip_ws(data, p3);
    if q < n && data[q] == 125 {
        let e = skip_ws(data, q + 1);
        if e == n {
            return Some(BinanceSnapshot { last_update_id: last, bids, asks });
        }
    }
    None
}

/// Both sides of a message hold only usable levels.
pub open spec fn spec_snapshot_levels_ok(raw: RawSnapshot) -> bool {
    spec_levels_ok(raw.bids) && spec_levels_ok(raw.asks)
}

/// Parses a snapshot message into `result`.
///
/// Returns true exactly when the message is well-shaped, its update-id
/// fits, and every level is usable; `result` then holds the denoted
/// levels. A rejected message is dropped whole: `result` is untouched.
pub fn parse_binance_snapshot(result: &mut L2Update, data: &[u8]) -> (r: bool)
    ensures
        r <==> (spec_snapshot_shape_ok(data@) && spec_snapshot_levels_ok(
            spec_parse_snapshot(data@)->Some_0,
        )),
        !r ==> *final(result) == *old(result),
        r ==> {
            let raw = spec_parse_snapshot(data@)->Some_0;
            &&& final(result).spec_get(Side::Bid) == spec_levels_of(raw.bids)
            &&& final(result).spec_get(Side::Ask) == spec_levels_of(raw.asks)
        },
{
    match parse_snapshot_json(data) {
        None => false,
        Some(snap) => {
            let mut parsed = L2Update::new();
            if !parse_binance_snapshot_side(Side::Bid, &mut parsed, &snap) {
                return false;
            }
            if !parse_binance_snapshot_side(Side::Ask, &mut parsed, &snap) {
                return false;
            }
            *result = parsed;
            true
        },
    }
}

/// Parses one side of a snapshot into `holder`; see
/// `parse_binance_update_side`, which does the work. On failure the
/// holder is untouched.
pub fn parse_binance_snapshot_side(
    side: Side,
    holder: &mut L2Update,
    binance_snapshot: &BinanceSnapshot,
) -> (r: bool)
    ensures
        r <==> spec_levels_ok(binance_snapshot.spec_get(side)),
        r ==> final(holder).spec_get(side) == spec_levels_of(binance_snapshot.spec_get(side)),
        !r ==> *final(holder) == *old(holder),
        final(holder).spec_get(side.spec_opposite()) == old(holder).spec_get(
            side.spec_opposite(),
        ),
{
    parse_binance_update_side(side, holder, binance_snapshot)
}

/// A well-decoded snapshot: the message's shape, id and levels are all
/// in order and `rec` carries exactly what it denotes.
pub open spec fn spec_snapshot_decodes_to(s: Seq<u8>, rec: SnapshotRecord) -> bool {
    let raw = spec_parse_snapshot(s)->Some_0;
    &&& spec_snapshot_shape_ok(s)
    &&& spec_snapshot_levels_ok(raw)
    &&& rec.update_id == raw.last
    &&& rec.levels.spec_get(Side::Bid) == spec_levels_of(raw.bids)
    &&& rec.levels.spec_get(Side::Ask) == spec_levels_of(raw.asks)
}

/// The inputs a snapshot decode rejects as `Schema`.
pub open spec fn spec_snapshot_schema_err(s: Seq<u8>) -> bool {
    !spec_snapshot_shape_ok(s)
}

/// The inputs a snapshot decode rejects as `MalformedLevel`.
pub open spec fn spec_snapshot_malformed_err(s: Seq<u8>) -> bool {
    spec_snapshot_shape_ok(s) && !spec_snapshot_levels_ok(spec_parse_snapshot(s)->Some_0)
}

/// Decodes a snapshot message, or says exactly why it is rejected:
/// `Schema` for a shape or field problem, `MalformedLevel` for a bad
/// price-level entry.
pub fn decode_snapshot(data: &[u8]) -> (r: Result<SnapshotRecord, DecodeError>)
    ensures
        match r {
            Ok(rec) => spec_snapshot_decodes_to(data@, rec),
            Err(DecodeError::Schema) => spec_snapshot_schema_err(data@),
            Err(DecodeError::MalformedLevel) => spec_snapshot_malformed_err(data@),
        },
{
    match parse_snapshot_json(data) {
        None => Err(DecodeError::Schema),
        Some(snap) => {
            let mut levels = L2Update::new();
            if !parse_binance_snapshot_side(Side::Bid, &mut levels, &snap) {
                return Err(DecodeError::MalformedLevel);
            }
            if !parse_binance_snapshot_side(Side::Ask, &mut levels, &snap) {
                return Err(DecodeError::MalformedLevel);
            }
            Ok(SnapshotRecord { update_id: snap.last_update_id, levels })
        },
    }
}

} // verus!
