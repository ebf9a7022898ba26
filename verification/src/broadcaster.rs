//! The decisions of one quote stream: which datagrams are pings, when the
//! stream has gone too long without one, and what to do with each poll of
//! the quote channel.
use vstd::prelude::*;
use vstd::utf8::{decode_utf8, encode_utf8, encode_utf8_decode_utf8, encode_utf8_valid_utf8, valid_utf8};
use crate::quote::selected_quotes;
use crate::text::{
    chars_eq_ignore_case, chars_of, clone_strings, eq_ignore_case, lemma_trim_plain, string_views,
    trim, trim_chars,
};
use crate::{StockQuote, StockQuoteSet, PING_MESSAGE};

verus! {

/// Nanoseconds without a ping after which a stream stops
/// (`PING_TIMEOUT_SEC` seconds).
pub const PING_TIMEOUT_NS: u64 = 5_000_000_000;

/// The text of a datagram: its UTF-8 decoding, or nothing when it is not
/// valid UTF-8.
pub open spec fn datagram_text(data: Seq<u8>) -> Seq<char> {
    if valid_utf8(data) {
        decode_utf8(data)
    } else {
        Seq::empty()
    }
}

/// Whether a datagram is a ping: its text, trimmed, is `Ping` up to ASCII
/// case.
pub open spec fn is_ping_datagram(data: Seq<u8>) -> bool {
    eq_ignore_case(trim(datagram_text(data)), PING_MESSAGE@)
}

/// Decodes UTF-8 text (`std::str::from_utf8`): `Some` exactly for valid
/// UTF-8, holding the decoded characters.
#[verifier::external_body]
fn utf8_text(data: &[u8]) -> (r: Option<&str>)
    ensures
        r is Some <==> valid_utf8(data@),
        r matches Some(s) ==> s@ == decode_utf8(data@),
{
    std::str::from_utf8(data).ok()
}

/// Whether a datagram is a ping.
pub fn is_ping(data: &[u8]) -> (r: bool)
    ensures
        r == is_ping_datagram(data@),
{
    let text = match utf8_text(data) {
        Some(s) => chars_of(s),
        None => Vec::new(),
    };
    let trimmed = trim_chars(&text);
    let ping = chars_of(PING_MESSAGE);
    chars_eq_ignore_case(&trimmed, &ping)
}

/// The state of a stream: whether it has sent quotes yet, and the time of
/// the last ping (or of its start), in nanoseconds on a monotonic clock.
#[derive(Debug, Clone, Copy, PartialEq, Eq)]
pub struct StreamState {
    pub streaming: bool,
    pub last_ping: u64,
}

/// The state after a datagram arrives at `now`.
pub open spec fn after_datagram(s: StreamState, data: Seq<u8>, now: u64) -> StreamState {
    StreamState {
        streaming: s.streaming,
        last_ping: if is_ping_datagram(data) {
            now
        } else {
            s.last_ping
        },
    }
}

/// Whether the stream stops at `now` for want of pings: it has sent quotes
/// and more than `PING_TIMEOUT_NS` have passed since the last ping (no time
/// passes when the clock reads earlier than the last ping).
pub open spec fn stops_at(s: StreamState, now: u64) -> bool {
    s.streaming && now > s.last_ping && now - s.last_ping > PING_TIMEOUT_NS
}

impl StreamState {
    /// The state of a stream started at `now`.
    pub fn new(now: u64) -> (s: Self)
        ensures
            !s.streaming,
            s.last_ping == now,
    {
        StreamState { streaming: false, last_ping: now }
    }

    /// Takes note of a datagram received at `now`.
    pub fn note_datagram(&mut self, data: &[u8], now: u64)
        ensures
            *final(self) == after_datagram(*old(self), data@, now),
    {
        if is_ping(data) {
            self.last_ping = now;
        }
    }

    /// Whether the stream stops at `now` for want of pings.
    pub fn should_stop(&self, now: u64) -> (r: bool)
        ensures
            r == stops_at(*self, now),
    {
        self.streaming && now > self.last_ping && now - self.last_ping > PING_TIMEOUT_NS
    }

    /// Takes note that quotes were sent.
    pub fn mark_sent(&mut self)
        ensures
            final(self).streaming,
            final(self).last_ping == old(self).last_ping,
    {
        self.streaming = true;
    }
}

/// What waiting on the quote channel gave.
pub enum PollOutcome {
    /// A round of quotes.
    Quotes(Vec<StockQuote>),
    /// Nothing arrived in time.
    Timeout,
    /// The channel is closed.
    Disconnected,
}

/// What the stream does after a poll.
pub enum BroadcastAction {
    /// Send these quotes to the subscriber.
    Send(StockQuoteSet),
    /// Poll again.
    Wait,
    /// End the stream.
    Stop,
}

/// The stream's decision after polling the quote channel: quotes are cut
/// down to the subscribed tickers and sent; a closed channel ends the
/// stream.
pub fn on_poll(outcome: PollOutcome, tickers_to_send: &Vec<String>) -> (a: BroadcastAction)
    ensures
        match outcome {
            PollOutcome::Quotes(q) => a matches BroadcastAction::Send(set) && set.tickers@
                == selected_quotes(q@, string_views(tickers_to_send@)),
            PollOutcome::Timeout => a is Wait,
            PollOutcome::Disconnected => a is Stop,
        },
{
    match outcome {
        PollOutcome::Quotes(quotes) => {
            let mut quotes_set = StockQuoteSet::new();
            quotes_set.set_quotes(quotes);
            let filtered = quotes_set.filter(clone_strings(tickers_to_send));
            BroadcastAction::Send(filtered)
        },
        PollOutcome::Timeout => BroadcastAction::Wait,
        PollOutcome::Disconnected => BroadcastAction::Stop,
    }
}

/// The ping a client sends, `Ping` encoded as UTF-8, is taken as a ping.
pub proof fn law_client_ping_recognised()
    ensures
        is_ping_datagram(encode_utf8(PING_MESSAGE@)),
{
    reveal_strlit("Ping");
    encode_utf8_valid_utf8(PING_MESSAGE@);
    encode_utf8_decode_utf8(PING_MESSAGE@);
    lemma_trim_plain(PING_MESSAGE@);
}

/// A stream that has just received a ping does not stop, and a stream that
/// has not sent quotes yet never stops for want of pings.
pub proof fn law_ping_keeps_stream_alive(s: StreamState, data: Seq<u8>, now: u64)
    ensures
        is_ping_datagram(data) ==> !stops_at(after_datagram(s, data, now), now),
        !s.streaming ==> !stops_at(s, now),
{
}

/// A ping received at `now` sets the time of the last ping to `now`, so the
/// stream does not stop before `PING_TIMEOUT_NS` have passed from `now`;
/// any other datagram changes nothing; a datagram never changes whether the
/// stream has sent quotes.
pub proof fn law_ping_resets_timer(s: StreamState, data: Seq<u8>, now: u64, later: u64)
    ensures
        after_datagram(s, data, now).streaming == s.streaming,
        is_ping_datagram(data) ==> after_datagram(s, data, now).last_ping == now,
        is_ping_datagram(data) && now <= later <= now + PING_TIMEOUT_NS ==> !stops_at(
            after_datagram(s, data, now),
            later,
        ),
        !is_ping_datagram(data) ==> after_datagram(s, data, now) == s,
{
}

/// A stream that has sent quotes stops exactly when more than
/// `PING_TIMEOUT_NS` have passed since its last ping; once it would stop, it
/// would stop at every later time too.
pub proof fn law_timeout(s: StreamState, now: u64, later: u64)
    ensures
        s.streaming ==> (stops_at(s, now) <==> now > s.last_ping + PING_TIMEOUT_NS),
        stops_at(s, now) && now <= later ==> stops_at(s, later),
        stops_at(s, now) ==> s.streaming,
{
}

/// A ping is valid UTF-8 whose text, trimmed, is four characters long: a
/// datagram that is not valid UTF-8 is never a ping.
pub proof fn law_ping_is_text(data: Seq<u8>)
    ensures
        is_ping_datagram(data) ==> valid_utf8(data) && trim(datagram_text(data)).len() == 4,
{
    reveal_strlit("Ping");
    if !valid_utf8(data) {
        assert(datagram_text(data) =~= Seq::<char>::empty());
        assert(trim(Seq::<char>::empty()) =~= Seq::<char>::empty());
    }
}

} // verus!
