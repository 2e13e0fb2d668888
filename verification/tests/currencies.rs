use binance_l2::binance_utils::symbol;
use binance_l2::currencies::{Currency, CurrencyPair};

#[test]
fn test_parse_currency() {
    let currency = Currency::from_code("BTC").unwrap();
    assert_eq!(Currency::BTC, currency);
}

#[test]
fn test_print_currency() {
    let currency = Currency::from_code("BTC").unwrap();
    assert_eq!("BTC", currency.code());
}

#[test]
fn parse_unknown_currency() {
    assert_eq!(None, Currency::from_code("DOGE"));
    assert_eq!(None, Currency::from_code(""));
    assert_eq!(None, Currency::from_code("btc"));
}

#[test]
fn parse_every_currency_code() {
    for c in [
        Currency::BNB,
        Currency::BTC,
        Currency::LTC,
        Currency::ETH,
        Currency::GBP,
        Currency::USDT,
        Currency::XRP,
    ] {
        assert_eq!(Some(c), Currency::from_code(c.code()));
        assert_eq!(c.code().to_lowercase(), c.lower_code());
    }
}

#[test]
fn symbol_concatenates_codes() {
    let pair = CurrencyPair::new(Currency::BNB, Currency::BTC);
    assert_eq!("BNBBTC", symbol(&pair).as_str());
    let pair = CurrencyPair::new(Currency::ETH, Currency::USDT);
    assert_eq!("ETHUSDT", symbol(&pair).as_str());
}

#[test]
fn currency_pair_keeps_fields() {
    let pair = CurrencyPair::new(Currency::XRP, Currency::GBP);
    assert_eq!(Currency::XRP, pair.base);
    assert_eq!(Currency::GBP, pair.term);
}

#[test]
fn pair_label_is_slash_separated() {
    let pair = CurrencyPair::new(Currency::BNB, Currency::BTC);
    assert_eq!("BNB/BTC", pair.label().as_str());
}
