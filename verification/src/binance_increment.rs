use vstd::prelude::*;
use vstd::string::StringExecFns;

use crate::base::{DiffRecord, L2Update, Side};
use crate::binance_utils::{
    parse_binance_update_side, spec_levels_of, spec_levels_ok, symbol, BinanceUpdate,
};
use crate::currencies::CurrencyPair;
use crate::errors::DecodeError;
use crate::json::{
    after_comma, after_key, expect_comma, expect_key, parse_levels_array_tok, parse_string_tok,
    parse_u64_tok, skip_ws, spec_parse_levels_array, spec_parse_string, spec_parse_uint, ws_end,
};

verus! {

// The increment (diff) message: an object with members e, E, s, U, u, b, a,
// for example
//   {"e":"depthUpdate","E":123456789,"s":"BNBBTC","U":157,"u":160,
//    "b":[["0.0024","10"]],"a":[["0.0026","100"]]}
//
// The grammar of record is deliberately this exact shape: the members in
// the order the exchange emits them, each exactly once, and no others. A
// reordered or extended object is rejected as a schema error, where a
// reflection-style decoder would have accepted it; the narrowing keeps
// the accepted language fully stated and verified.

/// Key "e": the event type.
pub open spec fn key_event() -> Seq<u8> {
    seq![101u8]
}

/// Key "E": the event time.
pub open spec fn key_event_time() -> Seq<u8> {
    seq![69u8]
}

/// Key "s": the symbol.
pub open spec fn key_symbol() -> Seq<u8> {
    seq![115u8]
}

/// Key "U": the first update-id of the diff's range.
pub open spec fn key_first_id() -> Seq<u8> {
    seq![85u8]
}

/// Key "u": the last update-id of the diff's range.
pub open spec fn key_last_id() -> Seq<u8> {
    seq![117u8]
}

/// Key "b": the touched bid levels.
pub open spec fn key_bid_levels() -> Seq<u8> {
    seq![98u8]
}

/// Key "a": the touched ask levels.
pub open spec fn key_ask_levels() -> Seq<u8> {
    seq![97u8]
}

/// What a well-shaped diff message denotes, before any range or level
/// checking: event fields, the unbounded update-id range, raw levels.
pub struct RawDiff {
    pub event: Seq<u8>,
    pub event_time: nat,
    pub sym: Seq<u8>,
    pub first: nat,
    pub last: nat,
    pub bids: Seq<Seq<Seq<u8>>>,
    pub asks: Seq<Seq<Seq<u8>>>,
}

/// The diff message grammar: the members in canonical order, nothing
/// else (see the module comment).
pub open spec fn spec_parse_diff(s: Seq<u8>) -> Option<RawDiff> {
    let i0 = ws_end(s, 0);
    if !(i0 < s.len() && s[i0] == 123) {
        None
    } else {
        match after_key(s, ws_end(s, i0 + 1), key_event()) {
            None => None,
            Some(v1) => match spec_parse_string(s, v1) {
                None => None,
                Some((event, p1)) => match after_comma(s, p1) {
                    None => None,
                    Some(i2) => match after_key(s, i2, key_event_time()) {
                        None => None,
                        Some(v2) => match spec_parse_uint(s, v2) {
                            None => None,
                            Some((event_time, p2)) => match after_comma(s, p2) {
                                None => None,
                                Some(i3) => match after_key(s, i3, key_symbol()) {
                                    None => None,
                                    Some(v3) => match spec_parse_string(s, v3) {
                                        None => None,
                                        Some((sym, p3)) => match after_comma(s, p3) {
                                            None => None,
                                            Some(i4) => match after_key(s, i4, key_first_id()) {
                                                None => None,
                                                Some(v4) => match spec_parse_uint(s, v4) {
                                                    None => None,
                                                    Some((first, p4)) => match after_comma(
                                                        s,
                                                        p4,
                                                    ) {
                                                        None => None,
                                                        Some(i5) => match after_key(
                                                            s,
                                                            i5,
                                                            key_last_id(),
                                                        ) {
                                                            None => None,
                                                            Some(v5) => match spec_parse_uint(
                                                                s,
                                                                v5,
                                                            ) {
                                                                None => None,
                                                                Some((last, p5)) => spec_parse_diff_tail(
                                                                    s,
                                                                    RawDiff {
                                                                        event,
                                                                        event_time,
                                                                        sym,
                                                                        first,
                                                                        last,
                                                                        bids: Seq::empty(),
                                                                        asks: Seq::empty(),
                                                                    },
                                                                    p5,
                                                                ),
                                                            },
                                                        },
                                                    },
                                                },
                                            },
                                        },
                                    },
                                },
                            },
                        },
                    },
                },
            },
        }
    }
}

/// The level members and the closing brace of a diff message.
pub open spec fn spec_parse_diff_tail(s: Seq<u8>, head: RawDiff, p5: int) -> Option<RawDiff> {
    match after_comma(s, p5) {
        None => None,
        Some(i6) => match after_key(s, i6, key_bid_levels()) {
            None => None,
            Some(v6) => match spec_parse_levels_array(s, v6) {
                None => None,
                Some((bids, p6)) => match after_comma(s, p6) {
                    None => None,
                    Some(i7) => match after_key(s, i7, key_ask_levels()) {
                        None => None,
                        Some(v7) => match spec_parse_levels_array(s, v7) {
                            None => None,
                            Some((asks, p7)) => {
                                let q = ws_end(s, p7);
                                if q < s.len() && s[q] == 125 && ws_end(s, q + 1) == s.len() {
                                    Some(RawDiff { bids, asks, ..head })
                                } else {
                                    None
                                }
                            },
                        },
                    },
                },
            },
        },
    }
}

/// All numeric fields of the message fit `u64`.
pub open spec fn spec_diff_fits(raw: RawDiff) -> bool {
    raw.event_time <= u64::MAX && raw.first <= u64::MAX && raw.last <= u64::MAX
}

/// A diff message parses and its numeric fields fit.
pub open spec fn spec_diff_shape_ok(s: Seq<u8>) -> bool {
    spec_parse_diff(s) is Some && spec_diff_fits(spec_parse_diff(s)->Some_0)
}

/// The raw fields of one diff message.
#[derive(Debug)]
pub struct BinanceIncrement {
    pub event_type: Vec<u8>,
    pub event_time: u64,
    pub symbol: Vec<u8>,
    pub first_update_id: u64,
    pub last_update_id: u64,
    pub bids: Vec<Vec<Vec<u8>>>,
    pub asks: Vec<Vec<Vec<u8>>>,
}

impl BinanceUpdate for BinanceIncrement {
    open spec fn spec_get(&self, side: Side) -> Seq<Seq<Seq<u8>>> {
        match side {
            Side::Bid => self.bids.deep_view(),
            Side::Ask => self.asks.deep_view(),
        }
    }

    fn get(&self, side: Side) -> (r: &Vec<Vec<Vec<u8>>>) {
        match side {
            Side::Bid => &self.bids,
            Side::Ask => &self.asks,
        }
    }
}

/// Does `inc` carry exactly what the message denotes?
pub open spec fn increment_matches(inc: BinanceIncrement, raw: RawDiff) -> bool {
    &&& inc.event_type@ == raw.event
    &&& inc.event_time == raw.event_time
    &&& inc.symbol@ == raw.sym
    &&& inc.first_update_id == raw.first
    &&& inc.last_update_id == raw.last
    &&& inc.bids.deep_view() == raw.bids
    &&& inc.asks.deep_view() == raw.asks
}

/// Reads the raw fields out of a diff message; agrees with
/// `spec_parse_diff` wherever the numeric fields are representable.
#[verifier::rlimit(50)]
fn parse_increment_json(data: &[u8]) -> (r: Option<BinanceIncrement>)
    ensures
        r is Some <==> spec_diff_shape_ok(data@),
        r is Some ==> increment_matches(r->Some_0, spec_parse_diff(data@)->Some_0),
{
    let n = data.len();
    let i0 = skip_ws(data, 0);
    if !(i0 < n && data[i0] == 123) {
        return None;
    }
    let i1 = skip_ws(data, i0 + 1);
    let key_e: [u8; 1] = [101u8];
    proof {
        assert(key_e@ =~= key_event());
    }
    let v1 = match expect_key(data, i1, key_e.as_slice()) {
        Some(v) => v,
        None => {
            return None;
        },
    };
    let (event_type, p1) = match parse_string_tok(data, v1) {
        Some(x) => x,
        None => {
            return None;
        },
    };
    let i2 = match expect_comma(data, p1) {
        Some(x) => x,
        None => {
            return None;
        },
    };
    let key_ev: [u8; 1] = [69u8];
    proof {
        assert(key_ev@ =~= key_event_time());
    }
    let v2 = match expect_key(data, i2, key_ev.as_slice()) {
        Some(v) => v,
        None => {
            return None;
        },
    };
    let (event_time, p2) = match parse_u64_tok(data, v2) {
        Some(x) => x,
        None => {
            return None;
        },
    };
    let i3 = match expect_comma(data, p2) {
        Some(x) => x,
        None => {
            return None;
        },
    };
    let key_s: [u8; 1] = [115u8];
    proof {
        assert(key_s@ =~= key_symbol());
    }
    let v3 = match expect_key(data, i3, key_s.as_slice()) {
        Some(v) => v,
        None => {
            return None;
        },
    };
    let (sym, p3) = match parse_string_tok(data, v3) {
        Some(x) => x,
        None => {
            return None;
        },
    };
    let i4 = match expect_comma(data, p3) {
        Some(x) => x,
        None => {
            return None;
        },
    };
    let key_fu: [u8; 1] = [85u8];
    proof {
        assert(key_fu@ =~= key_first_id());
    }
    let v4 = match expect_key(data, i4, key_fu.as_slice()) {
        Some(v) => v,
        None => {
            return None;
        },
    };
    let (first_update_id, p4) = match parse_u64_tok(data, v4) {
        Some(x) => x,
        None => {
            return None;
        },
    };
    let i5 = match expect_comma(data, p4) {
        Some(x) => x,
        None => {
            return None;
        },
    };
    let key_lu: [u8; 1] = [117u8];
    proof {
        assert(key_lu@ =~= key_last_id());
    }
    let v5 = match expect_key(data, i5, key_lu.as_slice()) {
        Some(v) => v,
        None => {
            return None;
        },
    };
    let (last_update_id, p5) = match parse_u64_tok(data, v5) {
        Some(x) => x,
        None => {
            return None;
        },
    };
    let i6 = match expect_comma(data, p5) {
        Some(x) => x,
        None => {
            return None;
        },
    };
    let key_b: [u8; 1] = [98u8];
    proof {
        assert(key_b@ =~= key_bid_levels());
    }
    let v6 = match expect_key(data, i6, key_b.as_slice()) {
        Some(v) => v,
        None => {
            return None;
        },
    };
    let (bids, p6) = match parse_levels_array_tok(data, v6) {
        Some(x) => x,
        None => {
            return None;
        },
    };
    let i7 = match expect_comma(data, p6) {
        Some(x) => x,
        None => {
            return None;
        },
    };
    let key_a: [u8; 1] = [97u8];
    proof {
        assert(key_a@ =~= key_ask_levels());
    }
    let v7 = match expect_key(data, i7, key_a.as_slice()) {
        Some(v) => v,
        None => {
            return None;
        },
    };
    let (asks, p7) = match parse_levels_array_tok(data, v7) {
        Some(x) => x,
        None => {
            return None;
        },
    };
    let q = skip_ws(data, p7);
    if q < n && data[q] == 125 {
        let e = skip_ws(data, q + 1);
        if e == n {
            return Some(
                BinanceIncrement {
                    event_type,
                    event_time,
                    symbol: sym,
                    first_update_id,
                    last_update_id,
                    bids,
                    asks,
                },
            );
        }
    }
    None
}

/// Both sides of a message hold only usable levels.
pub open spec fn spec_diff_levels_ok(raw: RawDiff) -> bool {
    spec_levels_ok(raw.bids) && spec_levels_ok(raw.asks)
}

/// Parses a diff message into `result`.
///
/// Returns true exactly when the message is well-shaped, its numeric
/// fields fit, and every level is usable; `result` then holds the denoted
/// levels. A rejected message is dropped whole: `result` is untouched.
pub fn parse_binance_increment(result: &mut L2Update, data: &[u8]) -> (r: bool)
    ensures
        r <==> (spec_diff_shape_ok(data@) && spec_diff_levels_ok(spec_parse_diff(data@)->Some_0)),
        !r ==> *final(result) == *old(result),
        r ==> {
            let raw = spec_parse_diff(data@)->Some_0;
            &&& final(result).spec_get(Side::Bid) == spec_levels_of(raw.bids)
            &&& final(result).spec_get(Side::Ask) == spec_levels_of(raw.asks)
        },
{
    match parse_increment_json(data) {
        None => false,
        Some(inc) => {
            let mut parsed = L2Update::new();
            if !parse_binance_update_side(Side::Bid, &mut parsed, &inc) {
                return false;
            }
            if !parse_binance_update_side(Side::Ask, &mut parsed, &inc) {
                return false;
            }
            *result = parsed;
            true
        },
    }
}

/// A well-decoded diff: the message's shape, range and levels are all
/// in order and `rec` carries exactly what it denotes.
pub open spec fn spec_diff_decodes_to(s: Seq<u8>, rec: DiffRecord) -> bool {
    let raw = spec_parse_diff(s)->Some_0;
    &&& spec_diff_shape_ok(s)
    &&& raw.first <= raw.last
    &&& spec_diff_levels_ok(raw)
    &&& rec.first_update_id == raw.first
    &&& rec.last_update_id == raw.last
    &&& rec.wf()
    &&& rec.levels.spec_get(Side::Bid) == spec_levels_of(raw.bids)
    &&& rec.levels.spec_get(Side::Ask) == spec_levels_of(raw.asks)
}

/// The inputs a diff decode rejects as `Schema`: no well-shaped message,
/// an id that does not fit, or a range read backwards.
pub open spec fn spec_diff_schema_err(s: Seq<u8>) -> bool {
    !spec_diff_shape_ok(s) || spec_parse_diff(s)->Some_0.first > spec_parse_diff(s)->Some_0.last
}

/// The inputs a diff decode rejects as `MalformedLevel`: a well-shaped
/// message with a bad price-level entry.
pub open spec fn spec_diff_malformed_err(s: Seq<u8>) -> bool {
    let raw = spec_parse_diff(s)->Some_0;
    spec_diff_shape_ok(s) && raw.first <= raw.last && !spec_diff_levels_ok(raw)
}

/// Decodes a diff message, or says exactly why it is rejected: `Schema`
/// for a shape, field or range problem (including members out of the
/// canonical order, see the module comment), `MalformedLevel` for a bad
/// price-level entry.
pub fn decode_diff(data: &[u8]) -> (r: Result<DiffRecord, DecodeError>)
    ensures
        match r {
            Ok(rec) => spec_diff_decodes_to(data@, rec),
            Err(DecodeError::Schema) => spec_diff_schema_err(data@),
            Err(DecodeError::MalformedLevel) => spec_diff_malformed_err(data@),
        },
{
    match parse_increment_json(data) {
        None => Err(DecodeError::Schema),
        Some(inc) => {
            if inc.first_update_id > inc.last_update_id {
                return Err(DecodeError::Schema);
            }
            let mut levels = L2Update::new();
            if !parse_binance_update_side(Side::Bid, &mut levels, &inc) {
                return Err(DecodeError::MalformedLevel);
            }
            if !parse_binance_update_side(Side::Ask, &mut levels, &inc) {
                return Err(DecodeError::MalformedLevel);
            }
            Ok(
                DiffRecord {
                    first_update_id: inc.first_update_id,
                    last_update_id: inc.last_update_id,
                    levels,
                },
            )
        },
    }
}

/// The stream endpoint for one pair's depth channel.
pub fn get_websocket_address(currency_pair: &CurrencyPair) -> (r: String)
    ensures
        r@ == "wss://stream.binance.com:9443/ws/"@ + currency_pair.base.spec_lower_code()
            + currency_pair.term.spec_lower_code() + "@depth"@,
{
    String::from_str("wss://stream.binance.com:9443/ws/").concat(
        currency_pair.base.lower_code(),
    ).concat(currency_pair.term.lower_code()).concat("@depth")
}

/// The market-data subscription request, as the exchange's API spells it.
pub struct BinanceMdRequest {
    pub method: String,
    pub topic: String,
    pub symbols: Vec<String>,
}

/// One pair's symbol, quoted.
pub open spec fn spec_quoted_symbol(pair: CurrencyPair) -> Seq<char> {
    "\""@ + pair.base.spec_code() + pair.term.spec_code() + "\""@
}

/// The serialized symbol list: each pair's symbol quoted, commas between.
pub open spec fn spec_symbols_json(pairs: Seq<CurrencyPair>) -> Seq<char>
    decreases pairs.len(),
{
    if pairs.len() == 0 {
        Seq::empty()
    } else {
        let sep: Seq<char> = if pairs.len() == 1 {
            Seq::empty()
        } else {
            ","@
        };
        spec_symbols_json(pairs.drop_last()) + sep + spec_quoted_symbol(pairs.last())
    }
}

/// The serialized subscription request for a list of pairs.
pub open spec fn spec_subscribe_request(pairs: Seq<CurrencyPair>) -> Seq<char> {
    "{\"method\":\"subscribe\",\"topic\":\"marketDepth\",\"symbols\":["@ + spec_symbols_json(
        pairs,
    ) + "]}"@
}

impl BinanceMdRequest {
    /// Serializes the subscription request for `currency_pairs`.
    pub fn subscribe(currency_pairs: Vec<CurrencyPair>) -> (r: String)
        ensures
            r@ == spec_subscribe_request(currency_pairs@),
    {
        let mut out = String::from_str(
            "{\"method\":\"subscribe\",\"topic\":\"marketDepth\",\"symbols\":[",
        );
        let ghost prefix =
            "{\"method\":\"subscribe\",\"topic\":\"marketDepth\",\"symbols\":["@;
        let n = currency_pairs.len();
        let mut i: usize = 0;
        while i < n
            invariant
                i <= n == currency_pairs@.len(),
                out@ == prefix + spec_symbols_json(currency_pairs@.take(i as int)),
            decreases n - i,
        {
            if i > 0 {
                out.append(",");
            }
            out.append("\"");
            let pair = currency_pairs[i];
            let sym = symbol(&pair);
            out.append(sym.as_str());
            out.append("\"");
            i += 1;
            proof {
                let t1 = currency_pairs@.take(i as int);
                assert(t1.drop_last() =~= currency_pairs@.take(i - 1));
                assert(t1.last() == currency_pairs@[i - 1]);
                assert(out@ =~= prefix + spec_symbols_json(t1));
            }
        }
        out.append("]}");
        proof {
            assert(currency_pairs@.take(n as int) =~= currency_pairs@);
            assert(out@ =~= spec_subscribe_request(currency_pairs@));
        }
        out
    }
}

} // verus!
