//! The framing of a client connection: one newline-terminated request line, and
//! the reply to a line that does not decode.

use vstd::prelude::*;
use vstd::string::*;
use crate::text::{trim_ws, trimmed, concat2};

verus! {

/// What the first line read from a client connection holds.
#[derive(Debug, PartialEq, Eq)]
pub enum RequestLine {
    /// The client closed the connection without sending anything.
    Disconnected,
    /// The line holds only whitespace; nothing is answered.
    Blank,
    /// The request text to decode, without surrounding whitespace.
    Payload(String),
}

/// Classifies the line a connection sent, given how many bytes were read.
pub fn classify_request_line(bytes_read: usize, line: &str) -> (r: RequestLine)
    ensures
        bytes_read == 0 ==> r == RequestLine::Disconnected,
        bytes_read > 0 && trim_ws(line@).len() == 0 ==> r == RequestLine::Blank,
        bytes_read > 0 && trim_ws(line@).len() > 0 ==> (r matches RequestLine::Payload(p) && p@ == trim_ws(line@)),
{
    if bytes_read == 0 {
        return RequestLine::Disconnected;
    }
    let t = trimmed(line);
    if t.unicode_len() == 0 {
        RequestLine::Blank
    } else {
        RequestLine::Payload(t)
    }
}

/// The error reply to a request line that does not decode.
pub fn malformed_request_message(error: &str) -> (msg: String)
    ensures
        msg@ == "malformed request: "@ + error@,
{
    concat2("malformed request: ", error)
}

} // verus!
