use yp_quote::client::{address, is_success_response, stream_command, subscription_tickers, udp_address};
use yp_quote::server::{greeting, parse_command, Command};
use yp_quote::{ClientArgs, SERVER_HOST, SERVER_PORT, UDP_HOST, UDP_PORT};

fn strings(v: &[&str]) -> Vec<String> {
    v.iter().map(|x| x.to_string()).collect()
}

#[test]
fn subscription_defaults_to_everything() {
    assert_eq!(subscription_tickers(None), strings(&["*"]));
    assert_eq!(subscription_tickers(Some(Vec::new())), strings(&["*"]));
    assert_eq!(subscription_tickers(Some(strings(&["AAPL", "TSLA"]))), strings(&["AAPL", "TSLA"]));
}

#[test]
fn request_line() {
    assert_eq!(
        stream_command("127.0.0.1:34254", &strings(&["AAPL", "MSFT"])),
        "STREAM 127.0.0.1:34254 AAPL,MSFT\n"
    );
}

#[test]
fn server_understands_the_request() {
    let tickers = strings(&["AAPL", "MSFT", "*"]);
    let line = stream_command("10.0.0.1:9", &tickers);
    assert_eq!(parse_command(&line), Command::Stream { url: "10.0.0.1:9".to_string(), tickers });
}

#[test]
fn addresses() {
    assert_eq!(address(SERVER_HOST, SERVER_PORT), "127.0.0.1:7878");
    assert_eq!(udp_address(UDP_HOST, UDP_PORT), "127.0.0.1:34254");
    assert_eq!(udp_address("h", 0), "h:0");
}

#[test]
fn server_answer() {
    assert!(is_success_response(&greeting()));
    assert!(is_success_response(" connection OK \r\n"));
    assert!(!is_success_response("Connection refused\n"));
    assert!(!is_success_response(""));
}

#[test]
fn default_client_settings() {
    let a = ClientArgs::default();
    assert_eq!(a.tcp_host, "127.0.0.1");
    assert_eq!(a.tcp_port, "7878");
    assert_eq!(a.udp_host, "127.0.0.1");
    assert_eq!(a.udp_port, 34254);
    assert_eq!(a.subscribe_file, "c:/tmp/ss.txt");
}
