use yp_quote::error::QuoutesError;
use yp_quote::{QuoteRecord, StockQuote, StockQuoteSet};

fn quote(t: &str, volume: u32) -> StockQuote {
    StockQuote { ticker: t.to_string(), price: 2.5f64.to_bits(), volume, timestamp: 7 }
}

fn names(set: &StockQuoteSet) -> Vec<String> {
    set.tickers.iter().map(|q| q.ticker.clone()).collect()
}

fn strings(v: &[&str]) -> Vec<String> {
    v.iter().map(|x| x.to_string()).collect()
}

#[test]
fn new_quote_is_empty() {
    let q = StockQuote::new();
    assert_eq!(q.ticker, "");
    assert_eq!(f64::from_bits(q.price), 0.0);
    assert_eq!(q.volume, 0);
    assert_eq!(q.timestamp, 0);
    assert_eq!(StockQuote::default(), q);
}

#[test]
fn quote_line_has_four_fields() {
    let q = StockQuote { ticker: "AAPL".to_string(), price: 1.5f64.to_bits(), volume: 1234, timestamp: 1700000000000 };
    assert_eq!(q.to_string_with_price("1.5"), "AAPL|1.5|1234|1700000000000");
}

#[test]
fn quote_line_reads_back() {
    let q = quote("MSFT", 4321);
    let line = q.to_string_with_price("2.5");
    let r = StockQuote::parse_record(&line).unwrap();
    assert_eq!(
        r,
        QuoteRecord { ticker: "MSFT".to_string(), price: "2.5".to_string(), volume: 4321, timestamp: 7 }
    );
}

#[test]
fn malformed_quote_lines_are_refused() {
    assert_eq!(StockQuote::parse_record("A|1.0|2"), None);
    assert_eq!(StockQuote::parse_record("A|1.0|2|3|4"), None);
    assert_eq!(StockQuote::parse_record("A|1.0|x|3"), None);
    assert_eq!(StockQuote::parse_record("A|1.0|4294967296|3"), None);
    assert_eq!(StockQuote::parse_record("A|1.0|2|-3"), None);
    assert_eq!(StockQuote::parse_record(""), None);
    let r = StockQuote::parse_record("|x|+5|0").unwrap();
    assert_eq!(r.ticker, "");
    assert_eq!(r.price, "x");
    assert_eq!(r.volume, 5);
    assert_eq!(r.timestamp, 0);
}

#[test]
fn indicators_are_set() {
    let mut q = StockQuote::new();
    assert_eq!(q.generate_indicators("TSLA", 3.0f64.to_bits(), 250, Ok(99)), Ok(()));
    assert_eq!(q.ticker, "TSLA");
    assert_eq!(f64::from_bits(q.price), 3.0);
    assert_eq!(q.volume, 1250);
    assert_eq!(q.timestamp, 99);
}

#[test]
fn clock_failure_keeps_the_timestamp() {
    let mut q = StockQuote::new();
    q.timestamp = 42;
    let e = QuoutesError::DateParse("clock".to_string());
    assert_eq!(q.generate_indicators("AAPL", 2.0f64.to_bits(), 0, Err(e.clone())), Err(e));
    assert_eq!(q.ticker, "AAPL");
    assert_eq!(f64::from_bits(q.price), 2.0);
    assert_eq!(q.volume, 1000);
    assert_eq!(q.timestamp, 42);
}

#[test]
fn prices_compare_as_floating_point() {
    let mut a = quote("A", 1);
    let mut b = quote("A", 1);
    a.price = 0.0f64.to_bits();
    b.price = (-0.0f64).to_bits();
    assert!(a == b);
    a.price = f64::NAN.to_bits();
    b.price = f64::NAN.to_bits();
    assert!(a != b);
    assert!(a != a.clone());
    a.price = 1.5f64.to_bits();
    b.price = 1.5f64.to_bits();
    assert!(a == b);
    b.price = 1.25f64.to_bits();
    assert!(a != b);
    for (x, y) in [(0.0f64, -0.0f64), (f64::NAN, 1.0), (f64::INFINITY, f64::INFINITY), (2.0, 3.0)] {
        a.price = x.to_bits();
        b.price = y.to_bits();
        assert_eq!(a == b, x == y);
    }
}

#[test]
fn set_accessors() {
    let mut set = StockQuoteSet::new();
    assert_eq!(set.get_size(), 0);
    assert_eq!(StockQuoteSet::default(), set);
    set.push(quote("A", 1));
    set.push(quote("B", 2));
    assert_eq!(set.get_size(), 2);
    set.set_quotes(vec![quote("C", 3)]);
    assert_eq!(names(&set), strings(&["C"]));
    assert_eq!(set.get_quotes(), vec![quote("C", 3)]);
}

#[test]
fn filter_keeps_requested_tickers_in_order() {
    let mut set = StockQuoteSet::new();
    set.set_quotes(vec![quote("AAPL", 1), quote("MSFT", 2), quote("AAPL", 3), quote("TSLA", 4)]);
    let f = set.clone().filter(strings(&["TSLA", "AAPL", "XYZ"]));
    assert_eq!(names(&f), strings(&["AAPL", "AAPL", "TSLA"]));
    assert_eq!(f.tickers[1].volume, 3);
    let none = set.clone().filter(strings(&["aapl"]));
    assert_eq!(none.get_size(), 0);
    let empty = set.clone().filter(Vec::new());
    assert_eq!(empty.get_size(), 0);
}

#[test]
fn wildcard_keeps_everything() {
    let mut set = StockQuoteSet::new();
    set.set_quotes(vec![quote("AAPL", 1), quote("MSFT", 2)]);
    let all = set.clone().filter(strings(&["NOPE", "*"]));
    assert_eq!(all, set);
}

#[test]
fn listing_has_one_line_per_quote() {
    let mut set = StockQuoteSet::new();
    set.set_quotes(vec![quote("AAPL", 1), quote("MSFT", 2)]);
    let text = set.to_string_with_prices(&strings(&["2.5", "2.5"]));
    assert_eq!(text, "AAPL|2.5|1|7\nMSFT|2.5|2|7\n");
    assert_eq!(StockQuoteSet::new().to_string_with_prices(&Vec::new()), "");
}

#[test]
fn filters_commute_and_repeat_harmlessly() {
    let mut set = StockQuoteSet::new();
    set.set_quotes(vec![quote("AAPL", 1), quote("MSFT", 2), quote("TSLA", 3), quote("AAPL", 4)]);
    let a = strings(&["AAPL", "TSLA"]);
    let b = strings(&["MSFT", "AAPL"]);
    let ab = set.clone().filter(a.clone()).filter(b.clone());
    let ba = set.clone().filter(b.clone()).filter(a.clone());
    assert_eq!(ab, ba);
    assert_eq!(names(&ab), strings(&["AAPL", "AAPL"]));
    let aa = set.clone().filter(a.clone()).filter(a.clone());
    assert_eq!(aa, set.clone().filter(a));
}

#[test]
fn smaller_request_gets_a_subsequence() {
    let mut set = StockQuoteSet::new();
    set.set_quotes(vec![quote("AAPL", 1), quote("MSFT", 2), quote("TSLA", 3), quote("AAPL", 4)]);
    let small = set.clone().filter(strings(&["AAPL"]));
    let large = set.clone().filter(strings(&["TSLA", "AAPL"]));
    assert_eq!(names(&small), strings(&["AAPL", "AAPL"]));
    assert_eq!(names(&large), strings(&["AAPL", "TSLA", "AAPL"]));
    assert_eq!(large.clone().filter(strings(&["AAPL"])), small);
    assert!(small.get_size() <= large.get_size() && large.get_size() <= set.get_size());
}
