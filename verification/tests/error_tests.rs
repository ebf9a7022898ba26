use yp_quote::error::QuoutesError;

#[test]
fn messages() {
    let cases = vec![
        (QuoutesError::Io("x".to_string()), "Input-output error: x"),
        (QuoutesError::Binary("x".to_string()), "Sereliazation or desereliazation error: x"),
        (QuoutesError::SenderError("x".to_string()), "Sender error. Message has not sent: x"),
        (QuoutesError::DateParse("x".to_string()), "Parsing date/time error: x"),
        (
            QuoutesError::InvalidTickers,
            "You have to set tickers for streaming or \"*\" for streaming all tickers.",
        ),
        (QuoutesError::InvalidInput("x".to_string()), "Input data error. Data x is incorrect"),
        (QuoutesError::Unknown("x".to_string()), "Unknown error x"),
    ];
    for (e, m) in cases {
        assert_eq!(e.message(), m);
    }
}
