//! Stock quote streaming: a server generates quotes for a fixed list of
//! tickers; a client subscribes to some tickers over TCP and receives the
//! quotes of those tickers over UDP, pinging the server to keep the stream
//! alive.
use vstd::prelude::*;

pub mod broadcaster;
pub mod client;
pub mod error;
pub mod quote;
pub mod quotes_generator;
pub mod server;
pub mod text;

pub use quote::{QuoteRecord, StockQuote, StockQuoteSet};

verus! {

/// Smallest generated volume.
pub const BASE_VOLUME: u32 = 1000;

/// Subscription file read by the client when none is named.
pub const SUBSCRIBE_FILE_PATH: &'static str = "c:/tmp/ss.txt";

/// Host the quote server listens on.
pub const SERVER_HOST: &'static str = "127.0.0.1";

/// TCP port of the quote server.
pub const SERVER_PORT: &'static str = "7878";

/// UDP port the server streams quotes from.
pub const SERVER_UDP_PORT: &'static str = "7879";

/// Host of the UDP socket the client listens on.
pub const UDP_HOST: &'static str = "127.0.0.1";

/// Port of the UDP socket the client listens on.
pub const UDP_PORT: u16 = 34254;

/// First word of a subscription request.
pub const BASE_COMMAND_PREFIX: &'static str = "STREAM";

/// Greeting the server sends on a new connection.
pub const SUCCESS_SERVER_RESPONSE: &'static str = "Connection ok";

/// Keep-alive datagram sent by a client to its stream.
pub const PING_MESSAGE: &'static str = "Ping";

/// Seconds between two rounds of generated quotes.
pub const GENERATE_QUOTES_PERIOD: u64 = 10;

/// Seconds a client waits for a datagram before trying again.
pub const CLIENT_QUOTES_PERIOD: u64 = 10;

/// Seconds between two pings of a client.
pub const PING_PERIOD: u64 = 2;

/// Seconds without a ping after which a stream stops.
pub const PING_TIMEOUT_SEC: u64 = 5;

/// Milliseconds a stream waits for new quotes before checking its pings.
pub const CLIENT_TIME_OUT_MS: u64 = 1000;

/// Command-line settings of the client.
pub struct ClientArgs {
    pub tcp_host: String,
    pub tcp_port: String,
    pub udp_host: String,
    pub udp_port: u16,
    pub subscribe_file: String,
}

impl Default for ClientArgs {
    /// The settings used when the command line names none.
    fn default() -> (a: Self)
        ensures
            a.tcp_host@ == SERVER_HOST@,
            a.tcp_port@ == SERVER_PORT@,
            a.udp_host@ == UDP_HOST@,
            a.udp_port == UDP_PORT,
            a.subscribe_file@ == SUBSCRIBE_FILE_PATH@,
    {
        ClientArgs {
            tcp_host: SERVER_HOST.to_owned(),
            tcp_port: SERVER_PORT.to_owned(),
            udp_host: UDP_HOST.to_owned(),
            udp_port: UDP_PORT,
            subscribe_file: SUBSCRIBE_FILE_PATH.to_owned(),
        }
    }
}

} // verus!
