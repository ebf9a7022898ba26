use yp_quote::broadcaster::{is_ping, on_poll, BroadcastAction, PollOutcome, StreamState};
use yp_quote::{StockQuote, PING_MESSAGE};

fn quote(t: &str) -> StockQuote {
    StockQuote { ticker: t.to_string(), price: 1.0f64.to_bits(), volume: 1000, timestamp: 1 }
}

#[test]
fn pings_are_recognised() {
    assert!(is_ping(PING_MESSAGE.as_bytes()));
    assert!(is_ping(b"  pInG\n"));
    assert!(!is_ping(b"Pong"));
    assert!(!is_ping(b""));
    assert!(!is_ping(&[0xff, 0xfe]));
    assert!(!is_ping("Ping\u{200B}".as_bytes()));
}

#[test]
fn ping_resets_the_timer() {
    let mut s = StreamState::new(0);
    assert!(!s.should_stop(10_000_000_000));
    s.mark_sent();
    assert!(s.streaming);
    assert!(!s.should_stop(5_000_000_000));
    assert!(s.should_stop(5_000_000_001));
    s.note_datagram(b"Ping", 5_000_000_001);
    assert_eq!(s.last_ping, 5_000_000_001);
    assert!(!s.should_stop(5_000_000_001));
    s.note_datagram(b"hello", 9_000_000_000);
    assert_eq!(s.last_ping, 5_000_000_001);
    assert!(!s.should_stop(3));
}

#[test]
fn polls() {
    let tickers = vec!["MSFT".to_string()];
    match on_poll(PollOutcome::Quotes(vec![quote("AAPL"), quote("MSFT")]), &tickers) {
        BroadcastAction::Send(set) => {
            assert_eq!(set.get_size(), 1);
            assert_eq!(set.tickers[0].ticker, "MSFT");
        }
        _ => panic!("expected a send"),
    }
    assert!(matches!(on_poll(PollOutcome::Timeout, &tickers), BroadcastAction::Wait));
    assert!(matches!(on_poll(PollOutcome::Disconnected, &tickers), BroadcastAction::Stop));
}
