use yp_quote::error::{ERR_CONVERTER_PARAMS, ERR_HOST_PORT_PARAMS, ERR_UNKNOWN_COMMAND};
use yp_quote::server::{
    greeting, parse_command, reply_to, session_step, Command, ReadOutcome, SessionAction,
};

fn strings(v: &[&str]) -> Vec<String> {
    v.iter().map(|x| x.to_string()).collect()
}

#[test]
fn greeting_line() {
    assert_eq!(greeting(), "Connection ok\n");
}

#[test]
fn stream_command_is_read() {
    assert_eq!(
        parse_command("  STREAM 127.0.0.1:34254 AAPL,MSFT extra\r\n"),
        Command::Stream { url: "127.0.0.1:34254".to_string(), tickers: strings(&["AAPL", "MSFT"]) }
    );
    assert_eq!(
        parse_command("STREAM host:1 *"),
        Command::Stream { url: "host:1".to_string(), tickers: strings(&["*"]) }
    );
    assert_eq!(
        parse_command("STREAM host:1 ,A,"),
        Command::Stream { url: "host:1".to_string(), tickers: strings(&["", "A", ""]) }
    );
}

#[test]
fn incomplete_and_other_commands() {
    assert_eq!(parse_command("STREAM host:1\n"), Command::MissingTickers);
    assert_eq!(parse_command("STREAM"), Command::MissingAddress);
    assert_eq!(parse_command("EXIT\n"), Command::Exit);
    assert_eq!(parse_command("exit"), Command::Unknown);
    assert_eq!(parse_command("stream a b"), Command::Unknown);
    assert_eq!(parse_command(" \t\r\n"), Command::Blank);
    assert_eq!(parse_command(""), Command::Blank);
}

#[test]
fn replies() {
    let c = Command::Stream { url: "a".to_string(), tickers: strings(&["b"]) };
    assert_eq!(reply_to(&c), Some("Start to streaming...\n".to_string()));
    assert_eq!(reply_to(&Command::MissingTickers), Some(format!("{}\n", ERR_CONVERTER_PARAMS)));
    assert_eq!(reply_to(&Command::MissingAddress), Some(format!("{}\n", ERR_HOST_PORT_PARAMS)));
    assert_eq!(reply_to(&Command::Unknown), Some(format!("{}\n", ERR_UNKNOWN_COMMAND)));
    assert_eq!(reply_to(&Command::Blank), None);
    assert_eq!(reply_to(&Command::Exit), None);
}

#[test]
fn session_steps() {
    match session_step(ReadOutcome::Line("STREAM 1.2.3.4:5 AAPL\n".to_string())) {
        SessionAction::StartStream { url, tickers, reply } => {
            assert_eq!(url, "1.2.3.4:5");
            assert_eq!(tickers, strings(&["AAPL"]));
            assert_eq!(reply, "Start to streaming...\n");
        }
        _ => panic!("expected a stream"),
    }
    match session_step(ReadOutcome::Line("HELLO\n".to_string())) {
        SessionAction::Reply(r) => assert_eq!(r, "Unknown command\n"),
        _ => panic!("expected a reply"),
    }
    match session_step(ReadOutcome::Line("STREAM x\n".to_string())) {
        SessionAction::Reply(r) => {
            assert_eq!(r, "Usage STREAM <host:port> <Ticker,Ticker, ... | * >\n")
        }
        _ => panic!("expected a reply"),
    }
    match session_step(ReadOutcome::Line("STREAM\n".to_string())) {
        SessionAction::Reply(r) => assert_eq!(r, "You have to set <host:port>\n"),
        _ => panic!("expected a reply"),
    }
    assert!(matches!(session_step(ReadOutcome::Line("\n".to_string())), SessionAction::Skip));
    assert!(matches!(session_step(ReadOutcome::Line("EXIT".to_string())), SessionAction::Finish));
    assert!(matches!(session_step(ReadOutcome::Eof), SessionAction::Finish));
    assert!(matches!(
        session_step(ReadOutcome::ConnectionReset),
        SessionAction::Shutdown { report: false }
    ));
    assert!(matches!(session_step(ReadOutcome::Failed), SessionAction::Shutdown { report: true }));
}
