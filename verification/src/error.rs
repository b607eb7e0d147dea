//! The errors of the client.
use vstd::prelude::*;
use vstd::string::*;

verus! {

/// What went wrong with a request.
#[derive(Debug, Clone)]
pub enum Error {
    HttpParse(String),
    Connection(String),
    Timeout,
    InvalidUrl(String),
    InvalidResponse(String),
    Io(String),
    Json(String),
}

pub type Result<T> = std::result::Result<T, Error>;

/// The text that describes an error.
pub open spec fn error_text(e: Error) -> Seq<char> {
    match e {
        Error::HttpParse(s) => "HTTP parse error: "@ + s@,
        Error::Connection(s) => "Connection error: "@ + s@,
        Error::Timeout => "Request timeout"@,
        Error::InvalidUrl(s) => "Invalid URL: "@ + s@,
        Error::InvalidResponse(s) => "Invalid response: "@ + s@,
        Error::Io(s) => "IO error: "@ + s@,
        Error::Json(s) => "JSON error: "@ + s@,
    }
}

fn prefixed(prefix: &str, s: &String) -> (r: String)
    ensures
        r@ == prefix@ + s@,
{
    let mut t = String::from_str(prefix);
    t.append(s.as_str());
    t
}

impl Error {
    /// The text that describes the error.
    #[allow(clippy::inherent_to_string)]
    pub fn to_string(&self) -> (r: String)
        ensures
            r@ == error_text(*self),
    {
        match self {
            Error::HttpParse(s) => prefixed("HTTP parse error: ", s),
            Error::Connection(s) => prefixed("Connection error: ", s),
            Error::Timeout => String::from_str("Request timeout"),
            Error::InvalidUrl(s) => prefixed("Invalid URL: ", s),
            Error::InvalidResponse(s) => prefixed("Invalid response: ", s),
            Error::Io(s) => prefixed("IO error: ", s),
            Error::Json(s) => prefixed("JSON error: ", s),
        }
    }

    /// The error for a failed I/O operation: `Timeout` when it timed out, else `Io` with the
    /// operation's message.
    pub fn from_io(timed_out: bool, message: String) -> (r: Self)
        ensures
            timed_out ==> r is Timeout,
            !timed_out ==> (r matches Error::Io(m) && m@ == message@),
    {
        if timed_out {
            Error::Timeout
        } else {
            Error::Io(message)
        }
    }
}

} // verus!
