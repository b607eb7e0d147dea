pub mod headers;
pub mod parser;
pub mod roundtrip;

pub use headers::{HeaderMap, HeaderName, HeaderValue};
pub use parser::{
    HttpParser, HttpVersion, Method, ParseError, ParsedRequest, ParsedResponse, RequestLine,
    ResponseStart, StatusCode,
};
