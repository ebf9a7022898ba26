//! The server side of a client connection: the greeting, the reading of a
//! command line, the reply to it, and what the connection does next.
use vstd::prelude::*;
use crate::error::{ERR_CONVERTER_PARAMS, ERR_HOST_PORT_PARAMS, ERR_UNKNOWN_COMMAND};
use crate::text::{
    chars_equal, chars_of, has_no_white_space, is_white_space, law_trim_cuts_whitespace,
    lemma_split_on_nonempty, lemma_trim_plain, lemma_ws_tokens_append_space,
    lemma_ws_tokens_append_word, split_chars, split_on, string_views, tokens_of, trim, trim_chars,
    ws_tokens,
};
use crate::{BASE_COMMAND_PREFIX, SUCCESS_SERVER_RESPONSE};

verus! {

/// Word that ends a session.
pub const EXIT_COMMAND: &'static str = "EXIT";

/// Reply to an accepted subscription.
pub const STREAM_STARTED: &'static str = "Start to streaming...\n";

/// A command line as the server reads it.
#[derive(Debug, Clone, PartialEq)]
pub enum Command {
    /// A line of whitespace only.
    Blank,
    /// `STREAM <address> <tickers>`: stream the quotes of the comma-separated
    /// tickers to the UDP address.
    Stream { url: String, tickers: Vec<String> },
    /// `STREAM <address>` with no tickers: answered with the usage line.
    MissingTickers,
    /// `STREAM` alone: answered with the request for a host and port.
    MissingAddress,
    /// `EXIT`: end the session.
    Exit,
    /// Anything else.
    Unknown,
}

/// What a command line says, over texts.
pub enum CommandSpec {
    Blank,
    Stream { url: Seq<char>, tickers: Seq<Seq<char>> },
    MissingTickers,
    MissingAddress,
    Exit,
    Unknown,
}

impl View for Command {
    type V = CommandSpec;

    open spec fn view(&self) -> CommandSpec {
        match self {
            Command::Blank => CommandSpec::Blank,
            Command::Stream { url, tickers } => CommandSpec::Stream {
                url: url@,
                tickers: string_views(tickers@),
            },
            Command::MissingTickers => CommandSpec::MissingTickers,
            Command::MissingAddress => CommandSpec::MissingAddress,
            Command::Exit => CommandSpec::Exit,
            Command::Unknown => CommandSpec::Unknown,
        }
    }
}

/// The command that `line` holds: the line is trimmed and cut into
/// whitespace-separated words; `STREAM` takes an address and a
/// comma-separated ticker list (the words after them are ignored), `EXIT`
/// takes nothing.
pub open spec fn command_of(line: Seq<char>) -> CommandSpec {
    let t = trim(line);
    let words = ws_tokens(t);
    if t.len() == 0 {
        CommandSpec::Blank
    } else if words.len() == 0 {
        CommandSpec::Unknown
    } else if words[0] == BASE_COMMAND_PREFIX@ {
        if words.len() >= 3 {
            CommandSpec::Stream { url: words[1], tickers: split_on(trim(words[2]), ',') }
        } else if words.len() == 2 {
            CommandSpec::MissingTickers
        } else {
            CommandSpec::MissingAddress
        }
    } else if words[0] == EXIT_COMMAND@ {
        CommandSpec::Exit
    } else {
        CommandSpec::Unknown
    }
}

/// Reads a command line.
pub fn parse_command(line: &str) -> (c: Command)
    ensures
        c@ == command_of(line@),
        c matches Command::Stream { tickers, .. } ==> tickers@.len() >= 1,
{
    let raw = chars_of(line);
    let t = trim_chars(&raw);
    if t.len() == 0 {
        return Command::Blank;
    }
    let mut words = tokens_of(&t);
    let ghost w = string_views(words@);
    if words.len() == 0 {
        return Command::Unknown;
    }
    let first = chars_of(words[0].as_str());
    let stream = chars_of(BASE_COMMAND_PREFIX);
    let exit = chars_of(EXIT_COMMAND);
    if chars_equal(&first, &stream) {
        if words.len() >= 3 {
            let list = chars_of(words[2].as_str());
            let list = trim_chars(&list);
            let tickers = split_chars(&list, ',');
            proof {
                lemma_split_on_nonempty(list@, ',');
                assert(w[2] == words@[2]@);
            }
            let url = words.remove(1);
            assert(url@ == w[1]);
            Command::Stream { url, tickers }
        } else if words.len() == 2 {
            Command::MissingTickers
        } else {
            Command::MissingAddress
        }
    } else if chars_equal(&first, &exit) {
        Command::Exit
    } else {
        Command::Unknown
    }
}

/// The reply that the server writes back for a command, if any.
pub open spec fn reply_of(c: CommandSpec) -> Option<Seq<char>> {
    match c {
        CommandSpec::Stream { .. } => Some(STREAM_STARTED@),
        CommandSpec::MissingTickers => Some(ERR_CONVERTER_PARAMS@ + "\n"@),
        CommandSpec::MissingAddress => Some(ERR_HOST_PORT_PARAMS@ + "\n"@),
        CommandSpec::Unknown => Some(ERR_UNKNOWN_COMMAND@ + "\n"@),
        CommandSpec::Blank => None,
        CommandSpec::Exit => None,
    }
}

/// The reply to a command, if any.
pub fn reply_to(c: &Command) -> (r: Option<String>)
    ensures
        r is Some <==> reply_of(c@) is Some,
        r matches Some(s) ==> reply_of(c@) == Some(s@),
{
    match c {
        Command::Stream { .. } => Some(STREAM_STARTED.to_owned()),
        Command::MissingTickers => Some(ERR_CONVERTER_PARAMS.to_owned().concat("\n")),
        Command::MissingAddress => Some(ERR_HOST_PORT_PARAMS.to_owned().concat("\n")),
        Command::Unknown => Some(ERR_UNKNOWN_COMMAND.to_owned().concat("\n")),
        Command::Blank => None,
        Command::Exit => None,
    }
}

/// The line the server greets a new connection with.
pub fn greeting() -> (s: String)
    ensures
        s@ == SUCCESS_SERVER_RESPONSE@ + "\n"@,
{
    SUCCESS_SERVER_RESPONSE.to_owned().concat("\n")
}

/// What reading the next line of a connection gave.
pub enum ReadOutcome {
    /// A line, with its line ending.
    Line(String),
    /// The peer closed the connection.
    Eof,
    /// The peer reset the connection.
    ConnectionReset,
    /// Reading failed otherwise.
    Failed,
}

/// What the connection does next.
pub enum SessionAction {
    /// Read the next line without replying.
    Skip,
    /// Write the reply, then read the next line.
    Reply(String),
    /// Start streaming the tickers' quotes to the address, write the reply,
    /// then read the next line.
    StartStream { url: String, tickers: Vec<String>, reply: String },
    /// End the session.
    Finish,
    /// Shut the connection down and end the session, reporting the read
    /// error when `report` holds.
    Shutdown { report: bool },
}

/// The server's decision after reading from a client connection.
pub fn session_step(outcome: ReadOutcome) -> (a: SessionAction)
    ensures
        match outcome {
            ReadOutcome::Line(l) => match command_of(l@) {
                CommandSpec::Blank => a is Skip,
                CommandSpec::Exit => a is Finish,
                CommandSpec::Stream { url, tickers } => a matches SessionAction::StartStream {
                    url: u,
                    tickers: t,
                    reply,
                } && u@ == url && string_views(t@) == tickers && t@.len() >= 1 && reply@
                    == STREAM_STARTED@,
                other => a matches SessionAction::Reply(r) && reply_of(other) == Some(r@),
            },
            ReadOutcome::Eof => a is Finish,
            ReadOutcome::ConnectionReset => a matches SessionAction::Shutdown { report } && !report,
            ReadOutcome::Failed => a matches SessionAction::Shutdown { report } && report,
        },
{
    match outcome {
        ReadOutcome::Line(l) => {
            let c = parse_command(l.as_str());
            let reply = reply_to(&c);
            match c {
                Command::Blank => SessionAction::Skip,
                Command::Exit => SessionAction::Finish,
                Command::Stream { url, tickers } => {
                    SessionAction::StartStream { url, tickers, reply: STREAM_STARTED.to_owned() }
                },
                _ => match reply {
                    Some(r) => SessionAction::Reply(r),
                    None => SessionAction::Skip,
                },
            }
        },
        ReadOutcome::Eof => SessionAction::Finish,
        ReadOutcome::ConnectionReset => SessionAction::Shutdown { report: false },
        ReadOutcome::Failed => SessionAction::Shutdown { report: true },
    }
}

/// A line is blank exactly when all its characters are whitespace; a blank
/// line gets no reply.
pub proof fn law_blank_lines(line: Seq<char>)
    ensures
        (command_of(line) is Blank) <==> forall|i: int|
            0 <= i < line.len() ==> is_white_space(#[trigger] line[i]),
        (command_of(line) is Blank) ==> reply_of(command_of(line)) is None,
{
    law_trim_cuts_whitespace(line);
    let (i, j) = choose|i: int, j: int|
        {
            &&& 0 <= i <= j <= line.len()
            &&& #[trigger] trim(line) == line.subrange(i, j)
            &&& forall|k: int| 0 <= k < i ==> is_white_space(#[trigger] line[k])
            &&& forall|k: int| j <= k < line.len() ==> is_white_space(#[trigger] line[k])
            &&& i < j ==> !is_white_space(line[i]) && !is_white_space(line[j - 1])
        };
    if forall|k: int| 0 <= k < line.len() ==> is_white_space(#[trigger] line[k]) {
        if i < j {
            assert(is_white_space(line[i]));
        }
    }
}

/// A line holding one word: `STREAM` alone asks for the address, `EXIT`
/// ends the session, and any other word is unknown.
pub proof fn law_single_word(word: Seq<char>)
    requires
        word.len() > 0,
        has_no_white_space(word),
    ensures
        command_of(word) == if word == BASE_COMMAND_PREFIX@ {
            CommandSpec::MissingAddress
        } else if word == EXIT_COMMAND@ {
            CommandSpec::Exit
        } else {
            CommandSpec::Unknown
        },
{
    assert(!is_white_space(word[0]) && !is_white_space(word.last()));
    lemma_trim_plain(word);
    let e = Seq::<char>::empty();
    assert(e + word =~= word);
    lemma_ws_tokens_append_word(e, word);
    assert(ws_tokens(word) =~= seq![word]);
}

/// `STREAM` followed by an address and nothing more is answered with the
/// usage line, not taken as a subscription.
pub proof fn law_stream_without_tickers(addr: Seq<char>)
    requires
        addr.len() > 0,
        has_no_white_space(addr),
    ensures
        command_of(BASE_COMMAND_PREFIX@.push(' ') + addr) is MissingTickers,
        reply_of(command_of(BASE_COMMAND_PREFIX@.push(' ') + addr)) == Some(
            ERR_CONVERTER_PARAMS@ + "\n"@,
        ),
{
    reveal_strlit("STREAM");
    let p = BASE_COMMAND_PREFIX@;
    let line = p.push(' ') + addr;
    assert(has_no_white_space(p));
    assert(line[0] == p[0]);
    assert(line.last() == addr.last());
    lemma_trim_plain(line);
    let e = Seq::<char>::empty();
    assert(e + p =~= p);
    lemma_ws_tokens_append_word(e, p);
    lemma_ws_tokens_append_space(p, ' ');
    lemma_ws_tokens_append_word(p.push(' '), addr);
    assert(ws_tokens(line) =~= seq![p, addr]);
}

} // verus!
