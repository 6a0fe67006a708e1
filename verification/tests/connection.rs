use coast_daemon::connection::{classify_request_line, malformed_request_message, RequestLine};

#[test]
fn request_lines_are_classified() {
    assert_eq!(classify_request_line(0, ""), RequestLine::Disconnected);
    assert_eq!(classify_request_line(3, "  \n"), RequestLine::Blank);
    assert_eq!(
        classify_request_line(20, "  {\"type\":\"Ls\"}\n"),
        RequestLine::Payload("{\"type\":\"Ls\"}".to_string())
    );
}

#[test]
fn malformed_request_reply() {
    assert_eq!(malformed_request_message("expected value"), "malformed request: expected value");
}
