use vstd::prelude::*;
use vstd::string::StringExecFns;

verus! {

/// The currencies the feed can subscribe to.
#[derive(Clone, Copy, PartialEq, Eq, Structural, Debug, Hash)]
pub enum Currency {
    BNB,
    BTC,
    LTC,
    ETH,
    GBP,
    USDT,
    XRP,
}

impl Currency {
    /// The exchange's upper-case code for this currency.
    pub open spec fn spec_code(self) -> Seq<char> {
        match self {
            Currency::BNB => "BNB"@,
            Currency::BTC => "BTC"@,
            Currency::LTC => "LTC"@,
            Currency::ETH => "ETH"@,
            Currency::GBP => "GBP"@,
            Currency::USDT => "USDT"@,
            Currency::XRP => "XRP"@,
        }
    }

    /// The same code in lower case, as stream endpoints spell it.
    pub open spec fn spec_lower_code(self) -> Seq<char> {
        match self {
            Currency::BNB => "bnb"@,
            Currency::BTC => "btc"@,
            Currency::LTC => "ltc"@,
            Currency::ETH => "eth"@,
            Currency::GBP => "gbp"@,
            Currency::USDT => "usdt"@,
            Currency::XRP => "xrp"@,
        }
    }

    pub fn code(self) -> (r: &'static str)
        ensures
            r@ == self.spec_code(),
    {
        match self {
            Currency::BNB => "BNB",
            Currency::BTC => "BTC",
            Currency::LTC => "LTC",
            Currency::ETH => "ETH",
            Currency::GBP => "GBP",
            Currency::USDT => "USDT",
            Currency::XRP => "XRP",
        }
    }

    pub fn lower_code(self) -> (r: &'static str)
        ensures
            r@ == self.spec_lower_code(),
    {
        match self {
            Currency::BNB => "bnb",
            Currency::BTC => "btc",
            Currency::LTC => "ltc",
            Currency::ETH => "eth",
            Currency::GBP => "gbp",
            Currency::USDT => "usdt",
            Currency::XRP => "xrp",
        }
    }

    /// Which currency a code denotes, `None` for an unknown code.
    pub open spec fn spec_from_code(s: Seq<char>) -> Option<Currency> {
        if s == "BNB"@ {
            Some(Currency::BNB)
        } else if s == "BTC"@ {
            Some(Currency::BTC)
        } else if s == "LTC"@ {
            Some(Currency::LTC)
        } else if s == "ETH"@ {
            Some(Currency::ETH)
        } else if s == "GBP"@ {
            Some(Currency::GBP)
        } else if s == "USDT"@ {
            Some(Currency::USDT)
        } else if s == "XRP"@ {
            Some(Currency::XRP)
        } else {
            None
        }
    }

    /// Parses an upper-case currency code.
    pub fn from_code(s: &str) -> (r: Option<Currency>)
        ensures
            r == Self::spec_from_code(s@),
    {
        if str_eq(s, "BNB") {
            Some(Currency::BNB)
        } else if str_eq(s, "BTC") {
            Some(Currency::BTC)
        } else if str_eq(s, "LTC") {
            Some(Currency::LTC)
        } else if str_eq(s, "ETH") {
            Some(Currency::ETH)
        } else if str_eq(s, "GBP") {
            Some(Currency::GBP)
        } else if str_eq(s, "USDT") {
            Some(Currency::USDT)
        } else if str_eq(s, "XRP") {
            Some(Currency::XRP)
        } else {
            None
        }
    }
}

/// Character-wise string comparison; vstd gives no contract for `==` on `&str`.
pub fn str_eq(a: &str, b: &str) -> (r: bool)
    ensures
        r <==> a@ == b@,
{
    let a_len = a.unicode_len();
    let b_len = b.unicode_len();
    if a_len != b_len {
        proof {
            assert(a@ != b@) by {
                assert(a@.len() != b@.len());
            }
        }
        return false;
    }
    let mut i: usize = 0;
    while i < a_len
        invariant
            a_len == a@.len(),
            b_len == b@.len(),
            a_len == b_len,
            i <= a_len,
            forall|j: int| 0 <= j < i ==> a@[j] == b@[j],
        decreases a_len - i,
    {
        if a.get_char(i) != b.get_char(i) {
            return false;
        }
        i += 1;
    }
    proof {
        assert(a@ =~= b@);
    }
    true
}

/// A traded pair: `base` quoted in `term`.
#[derive(Clone, Copy, PartialEq, Eq, Structural, Debug, Hash)]
pub struct CurrencyPair {
    pub base: Currency,
    pub term: Currency,
}

impl CurrencyPair {
    pub fn new(base: Currency, term: Currency) -> (r: CurrencyPair)
        ensures
            r.base == base,
            r.term == term,
    {
        CurrencyPair { base, term }
    }

    /// The pair written out: base code, a slash, term code.
    pub fn label(&self) -> (r: String)
        ensures
            r@ == self.base.spec_code() + "/"@ + self.term.spec_code(),
    {
        String::from_str(self.base.code()).concat("/").concat(self.term.code())
    }
}

} // verus!
