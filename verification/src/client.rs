//! The client side of a subscription: which tickers to ask for, the
//! request line, the addresses, and the check of the server's answer.
use vstd::prelude::*;
use crate::quote::wildcard;
use crate::server::{command_of, CommandSpec};
use crate::text::{
    chars_eq_ignore_case, chars_of, decimal, eq_ignore_case, has_no_white_space,
    join, join_strings, lemma_join_no_white_space, lemma_split_join, lemma_trim_line,
    lemma_ws_tokens_append_space, lemma_ws_tokens_append_word, push_decimal,
    string_from_chars, string_views, trim, trim_chars, ws_tokens,
};
use crate::{BASE_COMMAND_PREFIX, SUCCESS_SERVER_RESPONSE};

verus! {

/// The tickers a client asks for: the lines of its subscription file, or
/// `*` (every ticker) when the file cannot be read or holds no line.
pub open spec fn subscription_of(lines: Option<Seq<Seq<char>>>) -> Seq<Seq<char>> {
    match lines {
        Some(l) => if l.len() == 0 {
            seq![wildcard()]
        } else {
            l
        },
        None => seq![wildcard()],
    }
}

/// The tickers to ask for, given the lines of the subscription file, or
/// `None` when it could not be opened.
pub fn subscription_tickers(lines: Option<Vec<String>>) -> (r: Vec<String>)
    ensures
        string_views(r@) == subscription_of(
            match lines {
                Some(l) => Some(string_views(l@)),
                None => None,
            },
        ),
        r@.len() >= 1,
{
    let use_all = match &lines {
        Some(l) => l.len() == 0,
        None => true,
    };
    if use_all {
        let mut star: Vec<char> = Vec::new();
        star.push('*');
        let mut r: Vec<String> = Vec::new();
        r.push(string_from_chars(&star));
        assert(string_views(r@) =~= seq![wildcard()]);
        r
    } else {
        match lines {
            Some(l) => l,
            None => Vec::new(),
        }
    }
}

/// The request line a client sends: `STREAM <address> <t1,t2,...>` and a
/// line feed.
pub open spec fn stream_command_text(addr: Seq<char>, tickers: Seq<Seq<char>>) -> Seq<char> {
    (BASE_COMMAND_PREFIX@.push(' ') + addr).push(' ') + join(tickers, seq![',']) + seq!['\n']
}

/// The request line asking for the quotes of `tickers` at `addr`.
pub fn stream_command(addr: &str, tickers: &Vec<String>) -> (s: String)
    ensures
        s@ == stream_command_text(addr@, string_views(tickers@)),
{
    let list = join_strings(tickers, ",");
    proof {
        reveal_strlit(",");
        reveal_strlit(" ");
        reveal_strlit("\n");
        assert(","@ =~= seq![',']);
    }
    let s = BASE_COMMAND_PREFIX.to_owned().concat(" ").concat(addr).concat(" ").concat(
        list.as_str(),
    ).concat("\n");
    assert(s@ =~= stream_command_text(addr@, string_views(tickers@)));
    s
}

/// `host:port`.
pub fn address(host: &str, port: &str) -> (s: String)
    ensures
        s@ == host@.push(':') + port@,
{
    proof {
        reveal_strlit(":");
    }
    let s = host.to_owned().concat(":").concat(port);
    assert(s@ =~= host@.push(':') + port@);
    s
}

/// `host:port` with the port in decimal.
pub fn udp_address(host: &str, port: u16) -> (s: String)
    ensures
        s@ == host@.push(':') + decimal(port as nat),
{
    let mut v = chars_of(host);
    v.push(':');
    push_decimal(&mut v, port as u64);
    let s = string_from_chars(&v);
    assert(s@ =~= host@.push(':') + decimal(port as nat));
    s
}

/// Whether the server's first line accepts the connection: trimmed, it is
/// `Connection ok` up to ASCII case.
pub open spec fn accepts(response: Seq<char>) -> bool {
    eq_ignore_case(trim(response), SUCCESS_SERVER_RESPONSE@)
}

/// Whether the server's first line accepts the connection.
pub fn is_success_response(response: &str) -> (r: bool)
    ensures
        r == accepts(response@),
{
    let v = chars_of(response);
    let t = trim_chars(&v);
    let ok = chars_of(SUCCESS_SERVER_RESPONSE);
    chars_eq_ignore_case(&t, &ok)
}

/// The server reads a client's request line as a subscription to exactly
/// the tickers asked for at the address given, provided the address is a
/// single word and the tickers hold neither whitespace nor commas and do
/// not join to an empty list.
pub proof fn law_request_understood(addr: Seq<char>, tickers: Seq<Seq<char>>)
    requires
        addr.len() > 0,
        has_no_white_space(addr),
        forall|i: int|
            0 <= i < tickers.len() ==> has_no_white_space(#[trigger] tickers[i]) && !tickers[i].contains(
                ',',
            ),
        join(tickers, seq![',']).len() > 0,
    ensures
        command_of(stream_command_text(addr, tickers)) == (CommandSpec::Stream {
            url: addr,
            tickers,
        }),
{
    reveal_strlit("STREAM");
    let p = BASE_COMMAND_PREFIX@;
    let comma = seq![','];
    let j = join(tickers, comma);
    assert(has_no_white_space(comma));
    lemma_join_no_white_space(tickers, comma);
    assert(has_no_white_space(p));
    assert(tickers.len() >= 1) by {
        if tickers.len() == 0 {
            assert(j.len() == 0);
        }
    }
    let a = p.push(' ');
    let b = (a + addr).push(' ');
    let core = b + j;
    assert(stream_command_text(addr, tickers) =~= core.push('\n'));
    assert(core[0] == p[0]);
    assert(core.last() == j.last());
    lemma_trim_line(core, '\n');
    let e = Seq::<char>::empty();
    assert(e + p =~= p);
    lemma_ws_tokens_append_word(e, p);
    assert(ws_tokens(e) == Seq::<Seq<char>>::empty());
    lemma_ws_tokens_append_space(p, ' ');
    lemma_ws_tokens_append_word(a, addr);
    lemma_ws_tokens_append_space(a + addr, ' ');
    lemma_ws_tokens_append_word(b, j);
    let words = ws_tokens(core);
    assert(words =~= seq![p, addr, j]);
    assert(trim(j) == j) by {
        assert(j[0] == j[0]);
    }
    lemma_split_join(tickers, ',');
}

/// The server's greeting is accepted by the client.
pub proof fn law_greeting_accepted()
    ensures
        accepts(SUCCESS_SERVER_RESPONSE@ + "\n"@),
{
    reveal_strlit("Connection ok");
    reveal_strlit("\n");
    let s = SUCCESS_SERVER_RESPONSE@;
    assert(s + "\n"@ =~= s.push('\n'));
    lemma_trim_line(s, '\n');
}

/// A subscription file with at least one line subscribes to exactly its
/// lines, in order; `*` (every ticker) is asked for only when the file
/// cannot be opened or holds no line.
pub proof fn law_subscription_lines(lines: Seq<Seq<char>>)
    ensures
        lines.len() >= 1 ==> subscription_of(Some(lines)) == lines,
        subscription_of(Some(Seq::empty())) == seq![seq!['*']],
        subscription_of(None) == seq![seq!['*']],
{
    assert(wildcard() =~= seq!['*']);
}

} // verus!
