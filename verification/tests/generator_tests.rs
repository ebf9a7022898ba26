use std::cell::Cell;

use yp_quote::error::QuoutesError;
use yp_quote::quotes_generator::{generate_quotes, IndicatorDraw};

fn draw() -> IndicatorDraw {
    IndicatorDraw { price: 4.0f64.to_bits(), volume_offset: 10, clock: Ok(5) }
}

#[test]
fn wildcard_generates_every_listed_ticker() {
    let v = generate_quotes(vec!["*"], draw).unwrap();
    assert_eq!(v.len(), 110);
    assert_eq!(v[0].ticker, "AAPL");
    assert_eq!(v[1].ticker, "MSFT");
    assert_eq!(v[109].ticker, "EW");
    assert!(v.iter().all(|q| q.volume == 1010 && q.timestamp == 5 && f64::from_bits(q.price) == 4.0));
}

#[test]
fn selection_follows_listing_order() {
    let v = generate_quotes(vec!["TSLA", "AAPL", "NOPE"], draw).unwrap();
    let names: Vec<&str> = v.iter().map(|q| q.ticker.as_str()).collect();
    assert_eq!(names, vec!["AAPL", "TSLA"]);
    assert!(generate_quotes(vec![], draw).unwrap().is_empty());
}

#[test]
fn first_clock_error_is_returned() {
    let calls = Cell::new(0);
    let r = generate_quotes(vec!["MSFT", "AAPL", "TSLA"], || {
        calls.set(calls.get() + 1);
        let clock = if calls.get() == 2 {
            Err(QuoutesError::DateParse("clock".to_string()))
        } else {
            Ok(5)
        };
        IndicatorDraw { price: 1.0f64.to_bits(), volume_offset: 0, clock }
    });
    assert_eq!(r, Err(QuoutesError::DateParse("clock".to_string())));
    assert_eq!(calls.get(), 2);
}

#[test]
fn nothing_chosen_draws_nothing() {
    let calls = Cell::new(0);
    let r = generate_quotes(vec!["NOPE"], || {
        calls.set(calls.get() + 1);
        IndicatorDraw { price: 0, volume_offset: 0, clock: Err(QuoutesError::DateParse(String::new())) }
    });
    assert_eq!(r, Ok(Vec::new()));
    assert_eq!(calls.get(), 0);
}

#[test]
fn smaller_request_generates_a_subsequence() {
    let small = generate_quotes(vec!["TSLA", "MSFT"], draw).unwrap();
    let large = generate_quotes(vec!["TSLA", "AAPL", "MSFT", "EW"], draw).unwrap();
    let s: Vec<&str> = small.iter().map(|q| q.ticker.as_str()).collect();
    let l: Vec<&str> = large.iter().map(|q| q.ticker.as_str()).collect();
    assert_eq!(s, vec!["MSFT", "TSLA"]);
    assert_eq!(l, vec!["AAPL", "MSFT", "TSLA", "EW"]);
    let kept: Vec<&str> = l.iter().copied().filter(|t| s.contains(t)).collect();
    assert_eq!(kept, s);
}
