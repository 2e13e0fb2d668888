use vstd::prelude::*;
use vstd::string::StringExecFns;

use crate::base::{L2Update, PriceLevel, Side};
use crate::currencies::CurrencyPair;
use crate::decimal::{parse_units, spec_decimal_units, spec_is_decimal};

verus! {

/// Root of the exchange's REST endpoints.
pub const HTTP_ADDRESS: &'static str = "https://api.binance.com/api/v3/";

/// The exchange's symbol for a pair: both codes, base first.
pub fn symbol(currency_pair: &CurrencyPair) -> (r: String)
    ensures
        r@ == currency_pair.base.spec_code() + currency_pair.term.spec_code(),
{
    String::from_str(currency_pair.base.code()).concat(currency_pair.term.code())
}

/// What the exchange's update messages have in common: per-side lists of
/// levels, each level a list of decimal string tokens (as raw bytes).
pub trait BinanceUpdate {
    spec fn spec_get(&self, side: Side) -> Seq<Seq<Seq<u8>>>;

    fn get(&self, side: Side) -> (r: &Vec<Vec<Vec<u8>>>)
        ensures
            r.deep_view() == self.spec_get(side),
    ;
}

/// One wire level is usable when it has exactly two tokens, both decimal
/// numbers whose unit value fits.
pub open spec fn spec_level_ok(entry: Seq<Seq<u8>>) -> bool {
    &&& entry.len() == 2
    &&& spec_is_decimal(entry[0])
    &&& spec_decimal_units(entry[0]) <= u64::MAX
    &&& spec_is_decimal(entry[1])
    &&& spec_decimal_units(entry[1]) <= u64::MAX
}

/// The level a usable wire level denotes.
pub open spec fn spec_level_of(entry: Seq<Seq<u8>>) -> PriceLevel {
    PriceLevel {
        price: spec_decimal_units(entry[0]) as u64,
        size: spec_decimal_units(entry[1]) as u64,
    }
}

pub open spec fn spec_levels_ok(entries: Seq<Seq<Seq<u8>>>) -> bool {
    forall|i: int| 0 <= i < entries.len() ==> #[trigger] spec_level_ok(entries[i])
}

pub open spec fn spec_levels_of(entries: Seq<Seq<Seq<u8>>>) -> Seq<PriceLevel> {
    entries.map_values(|e: Seq<Seq<u8>>| spec_level_of(e))
}

/// Parses every wire level of one list, or reports the list unusable.
fn parse_levels(data: &Vec<Vec<Vec<u8>>>) -> (r: Option<Vec<PriceLevel>>)
    ensures
        match r {
            Some(v) => spec_levels_ok(data.deep_view()) && v@ == spec_levels_of(data.deep_view()),
            None => !spec_levels_ok(data.deep_view()),
        },
{
    let ghost dv = data.deep_view();
    let mut out: Vec<PriceLevel> = Vec::new();
    let n = data.len();
    proof {
        assert(dv.len() == n);
    }
    let mut i: usize = 0;
    while i < n
        invariant
            i <= n,
            n == data@.len(),
            dv == data.deep_view(),
            dv.len() == n,
            forall|j: int| 0 <= j < i ==> #[trigger] spec_level_ok(dv[j]),
            out@ =~= spec_levels_of(dv.take(i as int)),
        decreases n - i,
    {
        let entry = &data[i];
        proof {
            assert(entry.deep_view() == dv[i as int]);
            assert(dv[i as int].len() == entry@.len());
        }
        if entry.len() != 2 {
            proof {
                assert(!spec_level_ok(dv[i as int]));
            }
            return None;
        }
        proof {
            assert(dv[i as int][0] == entry@[0].deep_view());
            assert(dv[i as int][1] == entry@[1].deep_view());
            assert(entry@[0].deep_view() =~= entry@[0]@);
            assert(entry@[1].deep_view() =~= entry@[1]@);
        }
        let price = match parse_units(entry[0].as_slice()) {
            Some(p) => p,
            None => {
                proof {
                    assert(!spec_level_ok(dv[i as int]));
                }
                return None;
            },
        };
        let size = match parse_units(entry[1].as_slice()) {
            Some(sz) => sz,
            None => {
                proof {
                    assert(!spec_level_ok(dv[i as int]));
                }
                return None;
            },
        };
        proof {
            assert(spec_level_ok(dv[i as int]));
        }
        out.push(PriceLevel { price, size });
        i += 1;
        proof {
            assert(out@ =~= spec_levels_of(dv.take(i as int)));
        }
    }
    proof {
        assert(dv.take(n as int) =~= dv);
    }
    Some(out)
}

/// Parses one side of a message into `holder`.
///
/// On success that side holds exactly the denoted levels. On failure the
/// whole holder is left untouched: a malformed side has no side effects.
/// The other side is never touched either way.
pub fn parse_binance_update_side<U: BinanceUpdate>(
    side: Side,
    holder: &mut L2Update,
    binance_update: &U,
) -> (r: bool)
    ensures
        r <==> spec_levels_ok(binance_update.spec_get(side)),
        r ==> final(holder).spec_get(side) == spec_levels_of(binance_update.spec_get(side)),
        !r ==> *final(holder) == *old(holder),
        final(holder).spec_get(side.spec_opposite()) == old(holder).spec_get(
            side.spec_opposite(),
        ),
{
    let data = binance_update.get(side);
    match parse_levels(data) {
        Some(v) => {
            let result = holder.get_mut(side);
            result.clear();
            let mut parsed = v;
            let mut k: usize = 0;
            let n = parsed.len();
            while k < n
                invariant
                    k <= n,
                    n == parsed@.len(),
                    (*result)@ =~= parsed@.take(k as int),
                decreases n - k,
            {
                let lvl = parsed[k];
                result.add(lvl.price, lvl.size);
                k += 1;
                proof {
                    assert((*result)@ =~= parsed@.take(k as int));
                }
            }
            proof {
                assert(parsed@.take(n as int) =~= parsed@);
            }
            true
        },
        None => false,
    }
}

} // verus!
