//! Error messages and the error type of the library.
use vstd::prelude::*;

verus! {

/// Read error message.
pub const ERR_READ_MSG: &'static str = "I\\O error while reading from data source";

/// Message when a client connection cannot be served.
pub const ERR_SERVICE_CONNECTION: &'static str = "Error while creating stream service";

/// Message when a connection cannot be accepted.
pub const ERR_CONNECTION_FAILED: &'static str = "Connection failed";

/// Message for a subscription request whose parameters are incomplete
/// (the usage line of `STREAM`).
pub const ERR_CONVERTER_PARAMS: &'static str = "Usage STREAM <host:port> <Ticker,Ticker, ... | * >";

/// Message for a subscription request that names no host and port.
pub const ERR_HOST_PORT_PARAMS: &'static str = "You have to set <host:port>";

/// Reply to an unknown command.
pub const ERR_UNKNOWN_COMMAND: &'static str = "Unknown command";

/// Message when reading a command fails.
pub const ERR_STREAMING: &'static str = "Error while streaming";

/// Message when generating quotes fails.
pub const ERR_START_STOCK_GENERATOR: &'static str = "Quotes generator has not started";

/// Message when reading a ping fails.
pub const ERR_PING_READING: &'static str = "Error while reading a ping";

/// Message when sending a ping fails.
pub const ERR_PING_SENDING: &'static str = "Error while sending a ping";

/// Message for an invalid UDP address.
pub const ERR_INVALID_UDP_INPUT: &'static str = "Invalid UDP adress";

/// Message when the server refuses the subscription.
pub const ERR_SERVER_RESPONSE: &'static str = "Server could'nt set connection";

/// Message when receiving a datagram fails.
pub const ERR_UDP_RECIVE: &'static str = "Server could'nt set connection";

/// Message when a datagram does not decode to quotes.
pub const ERR_DESERIALIZE: &'static str = "Invalid json data of quotes";

/// Message when a stream ends with an error.
pub const ERR_BROADCASTING: &'static str = "Error while start broadcasting";

/// Message when a stream cannot be set up.
pub const ERR_BROADCASTER_CREATE: &'static str = "Error while create broadcaster";

/// Errors. A variant that stands for an error of the operating system or
/// of another library holds that error's message.
#[derive(Debug, Clone, PartialEq)]
pub enum QuoutesError {
    /// Input or output failed.
    Io(String),
    /// Encoding or decoding quotes failed.
    Binary(String),
    /// Quotes could not be handed on; holds them as text.
    SenderError(String),
    /// The clock could not be read.
    DateParse(String),
    /// A subscription named no tickers.
    InvalidTickers,
    /// An input is malformed; holds it.
    InvalidInput(String),
    /// Any other error.
    Unknown(String),
}

impl QuoutesError {
    /// The human-readable message of the error.
    pub fn message(&self) -> (m: String)
        ensures
            m@ == match self {
                QuoutesError::Io(d) => "Input-output error: "@ + d@,
                QuoutesError::Binary(d) => "Sereliazation or desereliazation error: "@ + d@,
                QuoutesError::SenderError(d) => "Sender error. Message has not sent: "@ + d@,
                QuoutesError::DateParse(d) => "Parsing date/time error: "@ + d@,
                QuoutesError::InvalidTickers =>
                    "You have to set tickers for streaming or \"*\" for streaming all tickers."@,
                QuoutesError::InvalidInput(d) => "Input data error. Data "@ + d@ + " is incorrect"@,
                QuoutesError::Unknown(d) => "Unknown error "@ + d@,
            },
    {
        match self {
            QuoutesError::Io(d) => "Input-output error: ".to_owned().concat(d.as_str()),
            QuoutesError::Binary(d) => "Sereliazation or desereliazation error: ".to_owned().concat(
                d.as_str(),
            ),
            QuoutesError::SenderError(d) => "Sender error. Message has not sent: ".to_owned().concat(
                d.as_str(),
            ),
            QuoutesError::DateParse(d) => "Parsing date/time error: ".to_owned().concat(d.as_str()),
            QuoutesError::InvalidTickers =>
                "You have to set tickers for streaming or \"*\" for streaming all tickers.".to_owned(),
            QuoutesError::InvalidInput(d) => "Input data error. Data ".to_owned().concat(
                d.as_str(),
            ).concat(" is incorrect"),
            QuoutesError::Unknown(d) => "Unknown error ".to_owned().concat(d.as_str()),
        }
    }
}

} // verus!
