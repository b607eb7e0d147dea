//! HTTP/1.x message heads: methods, status codes, versions, the request and response
//! parsers, and the functions that lay a request or response out as bytes.
//!
//! Each parser is stated against a function on the input bytes (`request_model`,
//! `response_model`) that reads the start line, then header lines up to the first empty line,
//! and takes what follows as the body.
use vstd::prelude::*;
use vstd::string::*;
use vstd::utf8::*;
use crate::buf::{
    bytes_copy_from_slice, bytes_mut_extend, bytes_mut_freeze, bytes_mut_view,
    bytes_mut_with_capacity, bytes_new, bytes_view, opt_bytes_view,
};
use crate::http::headers::{header_append, valid_header_name, HeaderMap, HeaderName, HeaderValue};
use crate::text::{
    ascii_bytes, decimal_chars, decimal_string, eq_bytes, lemma_ascii_bytes, lower, parse_unsigned,
    parse_unsigned_exec, to_upper, upper, COLON, CR, LF, QUOTE, SPACE,
};

verus! {

/// A request method.
#[derive(Debug, Clone, Copy, PartialEq, Eq)]
pub enum Method {
    Get,
    Post,
    Put,
    Delete,
    Head,
    Options,
    Patch,
    Connect,
    Trace,
    Custom(&'static str),
}

/// The name of a method as it is written on the wire.
pub open spec fn method_name(m: Method) -> Seq<char> {
    match m {
        Method::Get => seq!['G', 'E', 'T'],
        Method::Post => seq!['P', 'O', 'S', 'T'],
        Method::Put => seq!['P', 'U', 'T'],
        Method::Delete => seq!['D', 'E', 'L', 'E', 'T', 'E'],
        Method::Head => seq!['H', 'E', 'A', 'D'],
        Method::Options => seq!['O', 'P', 'T', 'I', 'O', 'N', 'S'],
        Method::Patch => seq!['P', 'A', 'T', 'C', 'H'],
        Method::Connect => seq!['C', 'O', 'N', 'N', 'E', 'C', 'T'],
        Method::Trace => seq!['T', 'R', 'A', 'C', 'E'],
        Method::Custom(s) => s@,
    }
}

/// The bytes of a method's name.
pub open spec fn method_bytes(m: Method) -> Seq<u8> {
    encode_utf8(method_name(m))
}

/// The method that a token names, compared without regard to ASCII case.
pub open spec fn method_of(b: Seq<u8>) -> Option<Method> {
    let u = upper(b);
    if u == ascii_bytes(method_name(Method::Get)) {
        Some(Method::Get)
    } else if u == ascii_bytes(method_name(Method::Post)) {
        Some(Method::Post)
    } else if u == ascii_bytes(method_name(Method::Put)) {
        Some(Method::Put)
    } else if u == ascii_bytes(method_name(Method::Delete)) {
        Some(Method::Delete)
    } else if u == ascii_bytes(method_name(Method::Head)) {
        Some(Method::Head)
    } else if u == ascii_bytes(method_name(Method::Options)) {
        Some(Method::Options)
    } else if u == ascii_bytes(method_name(Method::Patch)) {
        Some(Method::Patch)
    } else if u == ascii_bytes(method_name(Method::Connect)) {
        Some(Method::Connect)
    } else if u == ascii_bytes(method_name(Method::Trace)) {
        Some(Method::Trace)
    } else {
        None
    }
}

pub open spec fn is_standard(m: Method) -> bool {
    !(m is Custom)
}

pub(crate) proof fn lemma_standard_name_ascii(m: Method)
    requires
        is_standard(m),
    ensures
        is_ascii_chars(method_name(m)),
        method_bytes(m) == ascii_bytes(method_name(m)),
{
    lemma_ascii_bytes(method_name(m));
}

/// The name of every method but a custom one reads back as that method.
pub proof fn lemma_method_name_roundtrip(m: Method)
    requires
        is_standard(m),
    ensures
        method_of(method_bytes(m)) == Some(m),
{
    lemma_standard_name_ascii(m);
    let b = ascii_bytes(method_name(m));
    assert(upper(b) =~= b);
    assert(ascii_bytes(method_name(Method::Get)) =~= seq![71u8, 69, 84]);
    assert(ascii_bytes(method_name(Method::Post)) =~= seq![80u8, 79, 83, 84]);
    assert(ascii_bytes(method_name(Method::Put)) =~= seq![80u8, 85, 84]);
    assert(ascii_bytes(method_name(Method::Delete)) =~= seq![68u8, 69, 76, 69, 84, 69]);
    assert(ascii_bytes(method_name(Method::Head)) =~= seq![72u8, 69, 65, 68]);
    assert(ascii_bytes(method_name(Method::Options)) =~= seq![79u8, 80, 84, 73, 79, 78, 83]);
    assert(ascii_bytes(method_name(Method::Patch)) =~= seq![80u8, 65, 84, 67, 72]);
    assert(ascii_bytes(method_name(Method::Connect)) =~= seq![67u8, 79, 78, 78, 69, 67, 84]);
    assert(ascii_bytes(method_name(Method::Trace)) =~= seq![84u8, 82, 65, 67, 69]);
}

impl Method {
    /// The method named by a token, ignoring ASCII case; `None` for any other token.
    pub fn from_bytes(bytes: &[u8]) -> (r: Option<Self>)
        ensures
            r == method_of(bytes@),
    {
        let u = to_upper(bytes);
        let u = u.as_slice();
        if eq_bytes(u, Method::Get.name_bytes()) {
            Some(Method::Get)
        } else if eq_bytes(u, Method::Post.name_bytes()) {
            Some(Method::Post)
        } else if eq_bytes(u, Method::Put.name_bytes()) {
            Some(Method::Put)
        } else if eq_bytes(u, Method::Delete.name_bytes()) {
            Some(Method::Delete)
        } else if eq_bytes(u, Method::Head.name_bytes()) {
            Some(Method::Head)
        } else if eq_bytes(u, Method::Options.name_bytes()) {
            Some(Method::Options)
        } else if eq_bytes(u, Method::Patch.name_bytes()) {
            Some(Method::Patch)
        } else if eq_bytes(u, Method::Connect.name_bytes()) {
            Some(Method::Connect)
        } else if eq_bytes(u, Method::Trace.name_bytes()) {
            Some(Method::Trace)
        } else {
            None
        }
    }

    /// The bytes of a standard method's name.
    fn name_bytes(&self) -> (r: &'static [u8])
        requires
            is_standard(*self),
        ensures
            r@ == ascii_bytes(method_name(*self)),
            r@ == method_bytes(*self),
    {
        proof {
            lemma_standard_name_ascii(*self);
        }
        self.as_str().as_bytes()
    }

    /// The method's name.
    pub fn as_str(&self) -> (r: &'static str)
        ensures
            r@ == method_name(*self),
    {
        proof {
            reveal_strlit("GET");
            reveal_strlit("POST");
            reveal_strlit("PUT");
            reveal_strlit("DELETE");
            reveal_strlit("HEAD");
            reveal_strlit("OPTIONS");
            reveal_strlit("PATCH");
            reveal_strlit("CONNECT");
            reveal_strlit("TRACE");
        }
        match self {
            Method::Get => "GET",
            Method::Post => "POST",
            Method::Put => "PUT",
            Method::Delete => "DELETE",
            Method::Head => "HEAD",
            Method::Options => "OPTIONS",
            Method::Patch => "PATCH",
            Method::Connect => "CONNECT",
            Method::Trace => "TRACE",
            Method::Custom(s) => s,
        }
    }
}

/// The reason phrase that the library knows for a status code.
pub open spec fn reason_phrase(code: u16) -> Seq<char> {
    if code == 100 {
        "Continue"@
    } else if code == 101 {
        "Switching Protocols"@
    } else if code == 200 {
        "OK"@
    } else if code == 201 {
        "Created"@
    } else if code == 202 {
        "Accepted"@
    } else if code == 204 {
        "No Content"@
    } else if code == 301 {
        "Moved Permanently"@
    } else if code == 302 {
        "Found"@
    } else if code == 304 {
        "Not Modified"@
    } else if code == 400 {
        "Bad Request"@
    } else if code == 401 {
        "Unauthorized"@
    } else if code == 403 {
        "Forbidden"@
    } else if code == 404 {
        "Not Found"@
    } else if code == 405 {
        "Method Not Allowed"@
    } else if code == 408 {
        "Request Timeout"@
    } else if code == 409 {
        "Conflict"@
    } else if code == 413 {
        "Payload Too Large"@
    } else if code == 414 {
        "URI Too Long"@
    } else if code == 429 {
        "Too Many Requests"@
    } else if code == 500 {
        "Internal Server Error"@
    } else if code == 501 {
        "Not Implemented"@
    } else if code == 502 {
        "Bad Gateway"@
    } else if code == 503 {
        "Service Unavailable"@
    } else if code == 504 {
        "Gateway Timeout"@
    } else {
        "Unknown"@
    }
}

/// A status code in 100..600.
#[derive(Debug, Clone, Copy, PartialEq, Eq)]
pub struct StatusCode(u16);

impl View for StatusCode {
    type V = u16;

    closed spec fn view(&self) -> u16 {
        self.0
    }
}

impl StatusCode {
    /// Every status code lies in 100..600.
    #[verifier::type_invariant]
    pub open spec fn wf(self) -> bool {
        100 <= self@ < 600
    }

    pub fn new(code: u16) -> (r: Option<Self>)
        ensures
            r is Some <==> 100 <= code < 600,
            r matches Some(c) ==> c@ == code,
    {
        if 100 <= code && code < 600 {
            Some(Self(code))
        } else {
            None
        }
    }

    pub fn as_u16(&self) -> (r: u16)
        ensures
            r == self@,
            100 <= r < 600,
    {
        proof {
            use_type_invariant(self);
        }
        self.0
    }

    pub fn as_str(&self) -> (r: &'static str)
        ensures
            r@ == reason_phrase(self@),
    {
        match self.0 {
            100 => "Continue",
            101 => "Switching Protocols",
            200 => "OK",
            201 => "Created",
            202 => "Accepted",
            204 => "No Content",
            301 => "Moved Permanently",
            302 => "Found",
            304 => "Not Modified",
            400 => "Bad Request",
            401 => "Unauthorized",
            403 => "Forbidden",
            404 => "Not Found",
            405 => "Method Not Allowed",
            408 => "Request Timeout",
            409 => "Conflict",
            413 => "Payload Too Large",
            414 => "URI Too Long",
            429 => "Too Many Requests",
            500 => "Internal Server Error",
            501 => "Not Implemented",
            502 => "Bad Gateway",
            503 => "Service Unavailable",
            504 => "Gateway Timeout",
            _ => "Unknown",
        }
    }

    /// The code and its reason phrase, as `404 Not Found`.
    #[allow(clippy::inherent_to_string)]
    pub fn to_string(&self) -> (r: String)
        ensures
            r@ == decimal_chars(self@ as nat) + " "@ + reason_phrase(self@),
    {
        let mut s = String::new();
        crate::text::push_decimal(&mut s, self.0 as u64);
        s.append(" ");
        s.append(self.as_str());
        s
    }

    pub fn is_informational(&self) -> (r: bool)
        ensures
            r == (100 <= self@ < 200),
    {
        100 <= self.0 && self.0 < 200
    }

    pub fn is_success(&self) -> (r: bool)
        ensures
            r == (200 <= self@ < 300),
    {
        200 <= self.0 && self.0 < 300
    }

    pub fn is_redirection(&self) -> (r: bool)
        ensures
            r == (300 <= self@ < 400),
    {
        300 <= self.0 && self.0 < 400
    }

    pub fn is_client_error(&self) -> (r: bool)
        ensures
            r == (400 <= self@ < 500),
    {
        400 <= self.0 && self.0 < 500
    }

    pub fn is_server_error(&self) -> (r: bool)
        ensures
            r == (500 <= self@ < 600),
    {
        500 <= self.0 && self.0 < 600
    }
}

/// Every status code falls in exactly one of the five classes.
pub proof fn lemma_status_class(c: StatusCode)
    requires
        c.wf(),
    ensures
        (100 <= c@ < 200) || (200 <= c@ < 300) || (300 <= c@ < 400) || (400 <= c@ < 500) || (
        500 <= c@ < 600),
{
}

pub open spec fn http_1_0_text() -> Seq<char> {
    seq!['H', 'T', 'T', 'P', '/', '1', '.', '0']
}

pub open spec fn http_1_1_text() -> Seq<char> {
    seq!['H', 'T', 'T', 'P', '/', '1', '.', '1']
}

/// The version that a token names: exactly `HTTP/1.0` or `HTTP/1.1`.
pub open spec fn version_of(b: Seq<u8>) -> Option<(u8, u8)> {
    if b == ascii_bytes(http_1_0_text()) {
        Some((1u8, 0u8))
    } else if b == ascii_bytes(http_1_1_text()) {
        Some((1u8, 1u8))
    } else {
        None
    }
}

/// How a version is written: `HTTP/1.0` for 1.0, `HTTP/1.1` for every other.
pub open spec fn version_text(v: (u8, u8)) -> Seq<char> {
    if v == (1u8, 0u8) {
        http_1_0_text()
    } else {
        http_1_1_text()
    }
}

/// An HTTP version, as major and minor number.
#[derive(Debug, Clone, PartialEq)]
pub struct HttpVersion(u8, u8);

impl View for HttpVersion {
    type V = (u8, u8);

    closed spec fn view(&self) -> (u8, u8) {
        (self.0, self.1)
    }
}

pub(crate) fn version_bytes(minor: u8) -> (r: &'static [u8])
    requires
        minor <= 1,
    ensures
        minor == 0 ==> r@ == ascii_bytes(http_1_0_text()),
        minor == 1 ==> r@ == ascii_bytes(http_1_1_text()),
{
    proof {
        reveal_strlit("HTTP/1.0");
        reveal_strlit("HTTP/1.1");
        assert("HTTP/1.0"@ =~= http_1_0_text());
        assert("HTTP/1.1"@ =~= http_1_1_text());
        lemma_ascii_bytes(http_1_0_text());
        lemma_ascii_bytes(http_1_1_text());
    }
    if minor == 0 {
        "HTTP/1.0".as_bytes()
    } else {
        "HTTP/1.1".as_bytes()
    }
}

/// Each version the library writes reads back as itself.
pub proof fn lemma_version_roundtrip(v: (u8, u8))
    requires
        v == (1u8, 0u8) || v == (1u8, 1u8),
    ensures
        version_of(ascii_bytes(version_text(v))) == Some(v),
{
    assert(ascii_bytes(http_1_0_text())[7] != ascii_bytes(http_1_1_text())[7]);
}

impl HttpVersion {
    pub fn http_1_0() -> (r: Self)
        ensures
            r@ == (1u8, 0u8),
    {
        HttpVersion(1, 0)
    }

    pub fn http_1_1() -> (r: Self)
        ensures
            r@ == (1u8, 1u8),
    {
        HttpVersion(1, 1)
    }

    pub fn from_bytes(bytes: &[u8]) -> (r: Option<Self>)
        ensures
            match version_of(bytes@) {
                Some(v) => r matches Some(x) && x@ == v,
                None => r is None,
            },
    {
        if eq_bytes(bytes, version_bytes(0)) {
            Some(Self::http_1_0())
        } else if eq_bytes(bytes, version_bytes(1)) {
            Some(Self::http_1_1())
        } else {
            None
        }
    }

    pub fn as_str(&self) -> (r: &'static str)
        ensures
            r@ == version_text(self@),
    {
        proof {
            reveal_strlit("HTTP/1.0");
            reveal_strlit("HTTP/1.1");
        }
        if self.0 == 1 && self.1 == 0 {
            "HTTP/1.0"
        } else {
            "HTTP/1.1"
        }
    }
}

impl Default for HttpVersion {
    fn default() -> (r: Self)
        ensures
            r@ == (1u8, 1u8),
    {
        Self::http_1_1()
    }
}

/// Why a message could not be parsed.
#[derive(Debug, Clone, Copy, PartialEq, Eq)]
pub enum ParseError {
    InvalidMethod,
    InvalidUri,
    InvalidVersion,
    InvalidStatusCode,
    InvalidHeader,
    Incomplete,
    TooLarge,
}

pub open spec fn parse_error_text(e: ParseError) -> Seq<char> {
    match e {
        ParseError::InvalidMethod => "invalid HTTP method"@,
        ParseError::InvalidUri => "invalid URI"@,
        ParseError::InvalidVersion => "invalid HTTP version"@,
        ParseError::InvalidStatusCode => "invalid status code"@,
        ParseError::InvalidHeader => "invalid header"@,
        ParseError::Incomplete => "incomplete HTTP message"@,
        ParseError::TooLarge => "HTTP message too large"@,
    }
}

impl ParseError {
    /// The text that describes the error.
    pub fn message(&self) -> (r: &'static str)
        ensures
            r@ == parse_error_text(*self),
    {
        match self {
            ParseError::InvalidMethod => "invalid HTTP method",
            ParseError::InvalidUri => "invalid URI",
            ParseError::InvalidVersion => "invalid HTTP version",
            ParseError::InvalidStatusCode => "invalid status code",
            ParseError::InvalidHeader => "invalid header",
            ParseError::Incomplete => "incomplete HTTP message",
            ParseError::TooLarge => "HTTP message too large",
        }
    }
}

/// The start line of a request.
pub struct RequestLine<'a> {
    pub method: Method,
    pub uri: &'a str,
    pub version: HttpVersion,
}

/// The start line of a response.
pub struct ResponseStart {
    pub version: HttpVersion,
    pub status_code: StatusCode,
    pub reason: bytes::Bytes,
}

/// A parsed request.
pub struct ParsedRequest {
    pub method: Method,
    pub uri: bytes::Bytes,
    pub version: HttpVersion,
    pub headers: HeaderMap,
    pub body: Option<bytes::Bytes>,
}

/// A parsed response.
pub struct ParsedResponse {
    pub version: HttpVersion,
    pub status_code: StatusCode,
    pub reason: bytes::Bytes,
    pub headers: HeaderMap,
    pub body: Option<bytes::Bytes>,
}

/* The grammar, as functions on bytes. */

/// The index of the first line feed at or after `pos`.
pub open spec fn find_lf(data: Seq<u8>, pos: int) -> Option<int>
    decreases data.len() - pos,
{
    if pos < 0 || pos >= data.len() {
        None
    } else if data[pos] == LF {
        Some(pos)
    } else {
        find_lf(data, pos + 1)
    }
}

/// A line without the carriage return that ends it, if any.
pub open spec fn strip_cr(l: Seq<u8>) -> Seq<u8> {
    if l.len() > 0 && l.last() == CR {
        l.drop_last()
    } else {
        l
    }
}

/// The line that starts at `pos` and the position after its line feed.
pub open spec fn next_line(data: Seq<u8>, pos: int) -> Option<(Seq<u8>, int)> {
    match find_lf(data, pos) {
        Some(j) => Some((strip_cr(data.subrange(pos, j)), j + 1)),
        None => None,
    }
}

pub proof fn lemma_find_lf(data: Seq<u8>, pos: int)
    ensures
        find_lf(data, pos) matches Some(j) ==> 0 <= pos <= j < data.len() && data[j] == LF
            && forall|k: int| pos <= k < j ==> data[k] != LF,
    decreases data.len() - pos,
{
    if 0 <= pos < data.len() && data[pos] != LF {
        lemma_find_lf(data, pos + 1);
    }
}

/// The pieces of `s[start..]` between separators, given that `s[start..i]` holds none.
pub open spec fn split_from(s: Seq<u8>, sep: u8, start: int, i: int) -> Seq<Seq<u8>>
    decreases s.len() - i,
{
    if i >= s.len() {
        seq![s.subrange(start, s.len() as int)]
    } else if s[i] == sep {
        seq![s.subrange(start, i)] + split_from(s, sep, i + 1, i + 1)
    } else {
        split_from(s, sep, start, i + 1)
    }
}

/// The pieces of `s` between separators, empty ones included: `slice::split`.
pub open spec fn split_on(s: Seq<u8>, sep: u8) -> Seq<Seq<u8>> {
    split_from(s, sep, 0, 0)
}

/// The index of the first `b` at or after `i`.
pub open spec fn find_byte(s: Seq<u8>, b: u8, i: int) -> Option<int>
    decreases s.len() - i,
{
    if i < 0 || i >= s.len() {
        None
    } else if s[i] == b {
        Some(i)
    } else {
        find_byte(s, b, i + 1)
    }
}

pub proof fn lemma_find_byte(s: Seq<u8>, b: u8, i: int)
    ensures
        find_byte(s, b, i) matches Some(j) ==> 0 <= i <= j < s.len() && s[j] == b && forall|k: int|
            i <= k < j ==> s[k] != b,
        find_byte(s, b, i) is None ==> forall|k: int| 0 <= i <= k < s.len() ==> s[k] != b,
    decreases s.len() - i,
{
    if 0 <= i < s.len() && s[i] != b {
        lemma_find_byte(s, b, i + 1);
    }
}

/// The index past the spaces that start at `i`.
pub open spec fn skip_spaces(l: Seq<u8>, i: int) -> int
    decreases l.len() - i,
{
    if 0 <= i < l.len() && l[i] == SPACE {
        skip_spaces(l, i + 1)
    } else {
        i
    }
}

/// The end of `l[start..end]` without trailing spaces and carriage returns.
pub open spec fn value_end(l: Seq<u8>, start: int, end: int) -> int
    decreases end - start,
{
    if end > start && (l[end - 1] == SPACE || l[end - 1] == CR) {
        value_end(l, start, end - 1)
    } else {
        end
    }
}

pub proof fn lemma_skip_spaces(l: Seq<u8>, i: int)
    requires
        0 <= i <= l.len(),
    ensures
        i <= skip_spaces(l, i) <= l.len(),
    decreases l.len() - i,
{
    if i < l.len() && l[i] == SPACE {
        lemma_skip_spaces(l, i + 1);
    }
}

pub proof fn lemma_value_end(l: Seq<u8>, start: int, end: int)
    requires
        start <= end,
    ensures
        start <= value_end(l, start, end) <= end,
    decreases end - start,
{
    if end > start && (l[end - 1] == SPACE || l[end - 1] == CR) {
        lemma_value_end(l, start, end - 1);
    }
}

/// A header line `name: value`: the name up to the first colon must be a valid header name
/// and is made lowercase; the value is what follows, without leading spaces and without
/// trailing spaces and carriage returns.
pub open spec fn parse_header_line(l: Seq<u8>) -> Option<(Seq<u8>, Seq<u8>)> {
    match find_byte(l, COLON, 0) {
        None => None,
        Some(c) => {
            let name = l.subrange(0, c);
            if !valid_header_name(name) {
                None
            } else {
                let vs = skip_spaces(l, c + 1);
                let ve = value_end(l, vs, l.len() as int);
                Some((lower(name), l.subrange(vs, ve)))
            }
        },
    }
}

/// The header lines from `pos` up to the first empty line, appended to `acc`, with the
/// position after that empty line. More than 100 headers, or a header section that reaches
/// past `max`, is too large.
pub open spec fn parse_header_lines(
    data: Seq<u8>,
    pos: int,
    max: nat,
    acc: Seq<(Seq<u8>, Seq<u8>)>,
) -> Result<(Seq<(Seq<u8>, Seq<u8>)>, int), ParseError>
    decreases data.len() - pos,
{
    match find_lf(data, pos) {
        None => Err(ParseError::Incomplete),
        Some(j) => {
            let line = strip_cr(data.subrange(pos, j));
            if line.len() == 0 {
                Ok((acc, j + 1))
            } else if acc.len() > 100 || j + 1 > max {
                Err(ParseError::TooLarge)
            } else {
                match parse_header_line(line) {
                    None => Err(ParseError::InvalidHeader),
                    Some((n, v)) => {
                        proof {
                            lemma_find_lf(data, pos);
                        }
                        parse_header_lines(data, j + 1, max, header_append(acc, n, v))
                    },
                }
            }
        },
    }
}

/// Everything after the head, if anything.
pub open spec fn body_from(data: Seq<u8>, pos: int) -> Option<Seq<u8>> {
    if pos < data.len() {
        Some(data.subrange(pos, data.len() as int))
    } else {
        None
    }
}

/// What a request parses to.
pub struct RequestModel {
    pub method: Method,
    pub uri: Seq<u8>,
    pub version: (u8, u8),
    pub headers: Seq<(Seq<u8>, Seq<u8>)>,
    pub body: Option<Seq<u8>>,
}

/// What a response parses to.
pub struct ResponseModel {
    pub version: (u8, u8),
    pub status: u16,
    pub reason: Seq<u8>,
    pub headers: Seq<(Seq<u8>, Seq<u8>)>,
    pub body: Option<Seq<u8>>,
}

/// A request: `METHOD SP URI SP VERSION`, then the headers and the body.
pub open spec fn request_model(data: Seq<u8>, max: nat) -> Result<RequestModel, ParseError> {
    match next_line(data, 0) {
        None => Err(ParseError::Incomplete),
        Some((line, np)) => {
            let parts = split_on(line, SPACE);
            if parts.len() != 3 {
                Err(ParseError::InvalidUri)
            } else {
                match method_of(parts[0]) {
                    None => Err(ParseError::InvalidMethod),
                    Some(m) => match version_of(parts[2]) {
                        None => Err(ParseError::InvalidVersion),
                        Some(v) => match parse_header_lines(data, np, max, Seq::empty()) {
                            Err(e) => Err(e),
                            Ok((h, p)) => Ok(
                                RequestModel {
                                    method: m,
                                    uri: parts[1],
                                    version: v,
                                    headers: h,
                                    body: body_from(data, p),
                                },
                            ),
                        },
                    },
                }
            }
        },
    }
}

/// The status code that a token gives: an unsigned number in 100..600.
pub open spec fn status_of(b: Seq<u8>) -> Option<u16> {
    match parse_unsigned(b, 65535) {
        Some(v) => if 100 <= v < 600 {
            Some(v as u16)
        } else {
            None
        },
        None => None,
    }
}

/// The reason phrase from the third piece of a status line, without one surrounding quote
/// on either side.
pub open spec fn reason_of(p: Seq<u8>) -> Seq<u8> {
    let s: int = if p[0] == QUOTE {
        1
    } else {
        0
    };
    let e: int = p.len() - (if p.last() == QUOTE {
        1int
    } else {
        0int
    });
    p.subrange(s, e)
}

/// The status lines on which the response parser cannot take the reason phrase apart: a third
/// piece that is empty or a lone quote, after a valid version and status code.
pub open spec fn response_reason_panics(data: Seq<u8>) -> bool {
    match next_line(data, 0) {
        None => false,
        Some((line, _)) => {
            let parts = split_on(line, SPACE);
            &&& parts.len() > 2
            &&& version_of(parts[0]) is Some
            &&& status_of(parts[1]) is Some
            &&& (parts[2].len() == 0 || parts[2] == seq![QUOTE])
        },
    }
}

/// A response: `VERSION SP STATUS [SP REASON ...]`, then the headers and the body.
pub open spec fn response_model(data: Seq<u8>, max: nat) -> Result<ResponseModel, ParseError> {
    match next_line(data, 0) {
        None => Err(ParseError::Incomplete),
        Some((line, np)) => {
            let parts = split_on(line, SPACE);
            if parts.len() < 2 {
                Err(ParseError::InvalidStatusCode)
            } else {
                match version_of(parts[0]) {
                    None => Err(ParseError::InvalidVersion),
                    Some(v) => match status_of(parts[1]) {
                        None => Err(ParseError::InvalidStatusCode),
                        Some(code) => {
                            let reason = if parts.len() > 2 {
                                reason_of(parts[2])
                            } else {
                                Seq::empty()
                            };
                            match parse_header_lines(data, np, max, Seq::empty()) {
                                Err(e) => Err(e),
                                Ok((h, p)) => Ok(
                                    ResponseModel {
                                        version: v,
                                        status: code,
                                        reason: reason,
                                        headers: h,
                                        body: body_from(data, p),
                                    },
                                ),
                            }
                        },
                    },
                }
            }
        },
    }
}

pub open spec fn request_matches(p: ParsedRequest, m: RequestModel) -> bool {
    &&& p.method == m.method
    &&& bytes_view(p.uri) == m.uri
    &&& p.version@ == m.version
    &&& p.headers@ == m.headers
    &&& opt_bytes_view(p.body) == m.body
}

pub open spec fn response_matches(p: ParsedResponse, m: ResponseModel) -> bool {
    &&& p.version@ == m.version
    &&& p.status_code@ == m.status
    &&& bytes_view(p.reason) == m.reason
    &&& p.headers@ == m.headers
    &&& opt_bytes_view(p.body) == m.body
}

/// A parser with limits on the size of the head and of the body.
pub struct HttpParser {
    max_header_size: usize,
    #[allow(dead_code)]
    max_body_size: usize,
}

impl Default for HttpParser {
    fn default() -> (r: Self)
        ensures
            r.header_limit() == 80 * 1024,
            r.body_limit() == 64 * 1024 * 1024,
    {
        Self::new()
    }
}

impl HttpParser {
    /// How far into the input the header section may reach.
    pub closed spec fn header_limit(&self) -> nat {
        self.max_header_size as nat
    }

    pub closed spec fn body_limit(&self) -> nat {
        self.max_body_size as nat
    }

    pub fn new() -> (r: Self)
        ensures
            r.header_limit() == 80 * 1024,
            r.body_limit() == 64 * 1024 * 1024,
    {
        Self { max_header_size: 80 * 1024, max_body_size: 64 * 1024 * 1024 }
    }

    pub fn with_limits(max_header_size: usize, max_body_size: usize) -> (r: Self)
        ensures
            r.header_limit() == max_header_size,
            r.body_limit() == max_body_size,
    {
        Self { max_header_size, max_body_size }
    }

    pub fn parse_request(&self, data: &[u8]) -> (r: Result<ParsedRequest, ParseError>)
        ensures
            match request_model(data@, self.header_limit()) {
                Ok(m) => r matches Ok(p) && request_matches(p, m),
                Err(e) => r matches Err(x) && x == e,
            },
    {
        let mut parser = RequestParser { data, pos: 0, max_header_size: self.max_header_size };
        parser.parse()
    }

    /// Whether the status line of `data` is one on which `parse_response` cannot take the
    /// reason phrase apart.
    pub fn reason_out_of_bounds(data: &[u8]) -> (r: bool)
        ensures
            r == response_reason_panics(data@),
    {
        let mut parser = ResponseParser { data, pos: 0, max_header_size: 0 };
        match parser.read_line() {
            Err(_) => false,
            Ok(line) => {
                let parts = split_bytes(line, SPACE);
                if parts.len() <= 2 {
                    return false;
                }
                if HttpVersion::from_bytes(parts[0]).is_none() {
                    return false;
                }
                if status_from_bytes(parts[1]).is_none() {
                    return false;
                }
                let p = parts[2];
                let lone_quote = p.len() == 1 && p[0] == QUOTE;
                assert(lone_quote == (p@ == seq![QUOTE])) by {
                    if p@.len() == 1 && p@[0] == QUOTE {
                        assert(p@ =~= seq![QUOTE]);
                    }
                }
                p.len() == 0 || lone_quote
            },
        }
    }

    pub fn parse_response(&self, data: &[u8]) -> (r: Result<ParsedResponse, ParseError>)
        requires
            !response_reason_panics(data@),
        ensures
            match response_model(data@, self.header_limit()) {
                Ok(m) => r matches Ok(p) && response_matches(p, m),
                Err(e) => r matches Err(x) && x == e,
            },
    {
        let mut parser = ResponseParser { data, pos: 0, max_header_size: self.max_header_size };
        parser.parse()
    }
}

/// The status code in a token, as the response parser reads it.
fn status_from_bytes(b: &[u8]) -> (r: Option<StatusCode>)
    ensures
        match status_of(b@) {
            Some(c) => r matches Some(x) && x@ == c,
            None => r is None,
        },
{
    match parse_unsigned_exec(b, 65535) {
        Some(v) => StatusCode::new(v as u16),
        None => None,
    }
}

/// Splits a slice at every separator byte, keeping empty pieces.
fn split_bytes<'b>(s: &'b [u8], sep: u8) -> (r: Vec<&'b [u8]>)
    ensures
        r@.map_values(|x: &[u8]| x@) == split_on(s@, sep),
{
    let mut parts: Vec<&'b [u8]> = Vec::new();
    let mut start: usize = 0;
    let mut i: usize = 0;
    while i < s.len()
        invariant
            start <= i <= s@.len(),
            parts@.map_values(|x: &[u8]| x@) + split_from(s@, sep, start as int, i as int)
                == split_on(s@, sep),
        decreases s@.len() - i,
    {
        if s[i] == sep {
            let piece = &s[start..i];
            let ghost before = parts@.map_values(|x: &[u8]| x@);
            parts.push(piece);
            assert(parts@.map_values(|x: &[u8]| x@) =~= before.push(piece@));
            assert(before.push(piece@) + split_from(s@, sep, i + 1, i + 1) =~= before + (seq![
                piece@,
            ] + split_from(s@, sep, i + 1, i + 1)));
            start = i + 1;
        }
        i = i + 1;
    }
    let piece = &s[start..s.len()];
    let ghost before = parts@.map_values(|x: &[u8]| x@);
    parts.push(piece);
    assert(parts@.map_values(|x: &[u8]| x@) =~= before.push(piece@));
    assert(before.push(piece@) =~= before + seq![piece@]);
    parts
}

/// Reads the line at `pos`.
fn read_line_at<'a>(data: &'a [u8], pos: &mut usize) -> (r: Result<&'a [u8], ParseError>)
    requires
        *old(pos) <= data@.len(),
    ensures
        *final(pos) <= data@.len(),
        match next_line(data@, *old(pos) as int) {
            Some((l, np)) => r matches Ok(x) && x@ == l && *final(pos) == np,
            None => r matches Err(e) && e == ParseError::Incomplete,
        },
{
    let start = *pos;
    while *pos < data.len()
        invariant
            start == *old(pos),
            start <= *pos <= data@.len(),
            find_lf(data@, start as int) == find_lf(data@, *pos as int),
        decreases data@.len() - *pos,
    {
        if data[*pos] == LF {
            let line = &data[start..*pos];
            assert(find_lf(data@, *pos as int) == Some(*pos as int));
            assert(line@ == data@.subrange(start as int, *pos as int));
            *pos = *pos + 1;
            if line.len() != 0 && line[line.len() - 1] == CR {
                let l = &line[0..line.len() - 1];
                assert(l@ =~= line@.drop_last());
                return Ok(l);
            }
            return Ok(line);
        }
        *pos = *pos + 1;
    }
    Err(ParseError::Incomplete)
}

/// Parses one header line.
fn parse_header_at(line: &[u8]) -> (r: Result<(HeaderName, HeaderValue), ParseError>)
    ensures
        match parse_header_line(line@) {
            Some((n, v)) => r matches Ok((a, b)) && a@ == n && b@ == v,
            None => r matches Err(e) && e == ParseError::InvalidHeader,
        },
{
    let mut colon_pos: usize = 0;
    while colon_pos < line.len() && line[colon_pos] != COLON
        invariant
            colon_pos <= line@.len(),
            find_byte(line@, COLON, 0) == find_byte(line@, COLON, colon_pos as int),
        decreases line@.len() - colon_pos,
    {
        colon_pos = colon_pos + 1;
    }
    if colon_pos == line.len() {
        return Err(ParseError::InvalidHeader);
    }
    let name = match HeaderName::from_bytes(&line[0..colon_pos]) {
        Some(n) => n,
        None => {
            return Err(ParseError::InvalidHeader);
        },
    };
    let mut value_start = colon_pos + 1;
    proof {
        lemma_skip_spaces(line@, value_start as int);
    }
    while value_start < line.len() && line[value_start] == SPACE
        invariant
            colon_pos < value_start <= line@.len(),
            skip_spaces(line@, colon_pos + 1) == skip_spaces(line@, value_start as int),
        decreases line@.len() - value_start,
    {
        value_start = value_start + 1;
    }
    let mut value_end_pos = line.len();
    proof {
        lemma_value_end(line@, value_start as int, value_end_pos as int);
    }
    while value_end_pos > value_start && (line[value_end_pos - 1] == SPACE || line[value_end_pos
        - 1] == CR)
        invariant
            value_start <= value_end_pos <= line@.len(),
            value_end(line@, value_start as int, line@.len() as int) == value_end(
                line@,
                value_start as int,
                value_end_pos as int,
            ),
        decreases value_end_pos - value_start,
    {
        value_end_pos = value_end_pos - 1;
    }
    let value = HeaderValue::from_bytes(&line[value_start..value_end_pos]);
    Ok((name.to_lowercase(), value))
}

struct RequestParser<'a> {
    data: &'a [u8],
    pos: usize,
    max_header_size: usize,
}

impl<'a> RequestParser<'a> {
    fn parse(&mut self) -> (r: Result<ParsedRequest, ParseError>)
        requires
            old(self).pos == 0,
        ensures
            match request_model(old(self).data@, old(self).max_header_size as nat) {
                Ok(m) => r matches Ok(p) && request_matches(p, m),
                Err(e) => r matches Err(x) && x == e,
            },
    {
        let line = match self.read_line() {
            Ok(l) => l,
            Err(e) => {
                return Err(e);
            },
        };
        let parts = split_bytes(line, SPACE);
        assert(parts@.map_values(|x: &[u8]| x@).len() == parts@.len());
        if parts.len() != 3 {
            return Err(ParseError::InvalidUri);
        }
        assert(parts@[0]@ == split_on(line@, SPACE)[0]);
        assert(parts@[1]@ == split_on(line@, SPACE)[1]);
        assert(parts@[2]@ == split_on(line@, SPACE)[2]);
        let method = match Method::from_bytes(parts[0]) {
            Some(m) => m,
            None => {
                return Err(ParseError::InvalidMethod);
            },
        };
        let uri = bytes_copy_from_slice(parts[1]);
        let version = match HttpVersion::from_bytes(parts[2]) {
            Some(v) => v,
            None => {
                return Err(ParseError::InvalidVersion);
            },
        };
        let (headers, body) = match self.parse_headers_and_body() {
            Ok(hb) => hb,
            Err(e) => {
                return Err(e);
            },
        };
        Ok(ParsedRequest { method, uri, version, headers, body })
    }

    fn read_line(&mut self) -> (r: Result<&'a [u8], ParseError>)
        requires
            old(self).pos <= old(self).data@.len(),
        ensures
            final(self).data == old(self).data,
            final(self).max_header_size == old(self).max_header_size,
            final(self).pos <= final(self).data@.len(),
            match next_line(old(self).data@, old(self).pos as int) {
                Some((l, np)) => r matches Ok(x) && x@ == l && final(self).pos == np,
                None => r matches Err(e) && e == ParseError::Incomplete,
            },
    {
        read_line_at(self.data, &mut self.pos)
    }

    fn parse_headers_and_body(&mut self) -> (r: Result<
        (HeaderMap, Option<bytes::Bytes>),
        ParseError,
    >)
        requires
            old(self).pos <= old(self).data@.len(),
        ensures
            match parse_header_lines(
                old(self).data@,
                old(self).pos as int,
                old(self).max_header_size as nat,
                Seq::empty(),
            ) {
                Ok((h, p)) => r matches Ok((m, b)) && m@ == h && opt_bytes_view(b) == body_from(
                    old(self).data@,
                    p,
                ),
                Err(e) => r matches Err(x) && x == e,
            },
    {
        let mut headers = HeaderMap::new();
        let ghost p0 = self.pos as int;
        loop
            invariant_except_break
                parse_header_lines(self.data@, p0, self.max_header_size as nat, Seq::empty())
                    == parse_header_lines(
                    self.data@,
                    self.pos as int,
                    self.max_header_size as nat,
                    headers@,
                ),
            invariant
                self.pos <= self.data@.len(),
                p0 == old(self).pos,
                self.data == old(self).data,
                self.max_header_size == old(self).max_header_size,
            ensures
                self.pos <= self.data@.len(),
                parse_header_lines(self.data@, p0, self.max_header_size as nat, Seq::empty())
                    == Ok::<(Seq<(Seq<u8>, Seq<u8>)>, int), ParseError>(
                    (headers@, self.pos as int),
                ),
            decreases self.data@.len() - self.pos,
        {
            let ghost here = self.pos as int;
            proof {
                lemma_find_lf(self.data@, here);
            }
            let line = match self.read_line() {
                Ok(l) => l,
                Err(e) => {
                    return Err(e);
                },
            };
            if line.len() == 0 {
                break ;
            }
            if headers.len() > 100 || self.pos > self.max_header_size {
                return Err(ParseError::TooLarge);
            }
            let (name, value) = match Self::parse_header(line) {
                Ok(p) => p,
                Err(e) => {
                    return Err(e);
                },
            };
            headers.append(name, value);
        }
        let body = if self.pos < self.data.len() {
            Some(bytes_copy_from_slice(&self.data[self.pos..self.data.len()]))
        } else {
            None
        };
        Ok((headers, body))
    }

    fn parse_header(line: &[u8]) -> (r: Result<(HeaderName, HeaderValue), ParseError>)
        ensures
            match parse_header_line(line@) {
                Some((n, v)) => r matches Ok((a, b)) && a@ == n && b@ == v,
                None => r matches Err(e) && e == ParseError::InvalidHeader,
            },
    {
        parse_header_at(line)
    }
}

struct ResponseParser<'a> {
    data: &'a [u8],
    pos: usize,
    max_header_size: usize,
}

impl<'a> ResponseParser<'a> {
    fn parse(&mut self) -> (r: Result<ParsedResponse, ParseError>)
        requires
            old(self).pos == 0,
            !response_reason_panics(old(self).data@),
        ensures
            match response_model(old(self).data@, old(self).max_header_size as nat) {
                Ok(m) => r matches Ok(p) && response_matches(p, m),
                Err(e) => r matches Err(x) && x == e,
            },
    {
        let line = match self.read_line() {
            Ok(l) => l,
            Err(e) => {
                return Err(e);
            },
        };
        let parts = split_bytes(line, SPACE);
        assert(parts@.map_values(|x: &[u8]| x@).len() == parts@.len());
        if parts.len() < 2 {
            return Err(ParseError::InvalidStatusCode);
        }
        assert(parts@[0]@ == split_on(line@, SPACE)[0]);
        assert(parts@[1]@ == split_on(line@, SPACE)[1]);
        let version = match HttpVersion::from_bytes(parts[0]) {
            Some(v) => v,
            None => {
                return Err(ParseError::InvalidVersion);
            },
        };
        let status_code = match status_from_bytes(parts[1]) {
            Some(c) => c,
            None => {
                return Err(ParseError::InvalidStatusCode);
            },
        };
        let reason = if parts.len() > 2 {
            let p = parts[2];
            assert(p@ == split_on(line@, SPACE)[2]);
            let start: usize = if p[0] == QUOTE {
                1
            } else {
                0
            };
            let trailing: usize = if p[p.len() - 1] == QUOTE {
                1
            } else {
                0
            };
            let end = p.len() - trailing;
            assert(start <= end) by {
                if start == 1 && end == 0 {
                    assert(p@ =~= seq![QUOTE]);
                }
            }
            bytes_copy_from_slice(&p[start..end])
        } else {
            bytes_new()
        };
        let (headers, body) = match self.parse_headers_and_body() {
            Ok(hb) => hb,
            Err(e) => {
                return Err(e);
            },
        };
        Ok(ParsedResponse { version, status_code, reason, headers, body })
    }

    fn read_line(&mut self) -> (r: Result<&'a [u8], ParseError>)
        requires
            old(self).pos <= old(self).data@.len(),
        ensures
            final(self).data == old(self).data,
            final(self).max_header_size == old(self).max_header_size,
            final(self).pos <= final(self).data@.len(),
            match next_line(old(self).data@, old(self).pos as int) {
                Some((l, np)) => r matches Ok(x) && x@ == l && final(self).pos == np,
                None => r matches Err(e) && e == ParseError::Incomplete,
            },
    {
        read_line_at(self.data, &mut self.pos)
    }

    fn parse_headers_and_body(&mut self) -> (r: Result<
        (HeaderMap, Option<bytes::Bytes>),
        ParseError,
    >)
        requires
            old(self).pos <= old(self).data@.len(),
        ensures
            match parse_header_lines(
                old(self).data@,
                old(self).pos as int,
                old(self).max_header_size as nat,
                Seq::empty(),
            ) {
                Ok((h, p)) => r matches Ok((m, b)) && m@ == h && opt_bytes_view(b) == body_from(
                    old(self).data@,
                    p,
                ),
                Err(e) => r matches Err(x) && x == e,
            },
    {
        let mut headers = HeaderMap::new();
        let ghost p0 = self.pos as int;
        loop
            invariant_except_break
                parse_header_lines(self.data@, p0, self.max_header_size as nat, Seq::empty())
                    == parse_header_lines(
                    self.data@,
                    self.pos as int,
                    self.max_header_size as nat,
                    headers@,
                ),
            invariant
                self.pos <= self.data@.len(),
                p0 == old(self).pos,
                self.data == old(self).data,
                self.max_header_size == old(self).max_header_size,
            ensures
                self.pos <= self.data@.len(),
                parse_header_lines(self.data@, p0, self.max_header_size as nat, Seq::empty())
                    == Ok::<(Seq<(Seq<u8>, Seq<u8>)>, int), ParseError>(
                    (headers@, self.pos as int),
                ),
            decreases self.data@.len() - self.pos,
        {
            let ghost here = self.pos as int;
            proof {
                lemma_find_lf(self.data@, here);
            }
            let line = match self.read_line() {
                Ok(l) => l,
                Err(e) => {
                    return Err(e);
                },
            };
            if line.len() == 0 {
                break ;
            }
            if headers.len() > 100 || self.pos > self.max_header_size {
                return Err(ParseError::TooLarge);
            }
            let (name, value) = match Self::parse_header(line) {
                Ok(p) => p,
                Err(e) => {
                    return Err(e);
                },
            };
            headers.append(name, value);
        }
        let body = if self.pos < self.data.len() {
            Some(bytes_copy_from_slice(&self.data[self.pos..self.data.len()]))
        } else {
            None
        };
        Ok((headers, body))
    }

    fn parse_header(line: &[u8]) -> (r: Result<(HeaderName, HeaderValue), ParseError>)
        ensures
            match parse_header_line(line@) {
                Some((n, v)) => r matches Ok((a, b)) && a@ == n && b@ == v,
                None => r matches Err(e) && e == ParseError::InvalidHeader,
            },
    {
        parse_header_at(line)
    }
}

/* Laying messages out as bytes. */

/// One header line: `name: value` and CRLF.
pub open spec fn header_line_bytes(p: (Seq<u8>, Seq<u8>)) -> Seq<u8> {
    p.0 + seq![COLON, SPACE] + p.1 + seq![CR, LF]
}

/// The header lines of a header map, in its order.
pub open spec fn header_block(e: Seq<(Seq<u8>, Seq<u8>)>) -> Seq<u8>
    decreases e.len(),
{
    if e.len() == 0 {
        Seq::empty()
    } else {
        header_block(e.drop_last()) + header_line_bytes(e.last())
    }
}

pub open spec fn opt_slice_view(b: Option<&[u8]>) -> Option<Seq<u8>> {
    match b {
        Some(x) => Some(x@),
        None => None,
    }
}

pub open spec fn body_bytes(b: Option<Seq<u8>>) -> Seq<u8> {
    match b {
        Some(x) => x,
        None => Seq::empty(),
    }
}

/// A request as `build_request` lays it out.
pub open spec fn request_bytes(
    m: Method,
    uri: Seq<u8>,
    e: Seq<(Seq<u8>, Seq<u8>)>,
    body: Option<Seq<u8>>,
) -> Seq<u8> {
    method_bytes(m) + seq![SPACE] + uri + seq![SPACE] + ascii_bytes(http_1_1_text()) + seq![
        CR,
        LF,
    ] + header_block(e) + seq![CR, LF] + body_bytes(body)
}

/// A response as `build_response` lays it out.
pub open spec fn response_bytes(
    v: (u8, u8),
    code: u16,
    reason: Seq<u8>,
    e: Seq<(Seq<u8>, Seq<u8>)>,
    body: Option<Seq<u8>>,
) -> Seq<u8> {
    ascii_bytes(version_text(v)) + seq![SPACE] + encode_utf8(decimal_chars(code as nat)) + seq![
        SPACE,
    ] + reason + seq![CR, LF] + header_block(e) + seq![CR, LF] + body_bytes(body)
}

pub(crate) proof fn lemma_header_block_prefix(e: Seq<(Seq<u8>, Seq<u8>)>, i: int)
    requires
        0 <= i < e.len(),
    ensures
        header_block(e.subrange(0, i + 1)) == header_block(e.subrange(0, i)) + header_line_bytes(
            e[i],
        ),
{
    assert(e.subrange(0, i + 1).drop_last() =~= e.subrange(0, i));
}

pub(crate) proof fn lemma_header_block_len(e: Seq<(Seq<u8>, Seq<u8>)>, i: int)
    requires
        0 <= i <= e.len(),
    ensures
        header_block(e.subrange(0, i)).len() <= header_block(e).len(),
    decreases e.len() - i,
{
    if i < e.len() {
        lemma_header_block_prefix(e, i);
        lemma_header_block_len(e, i + 1);
    } else {
        assert(e.subrange(0, i) =~= e);
    }
}

/// Appends the header lines of `headers` to `buf`.
fn extend_with_headers(buf: &mut bytes::BytesMut, headers: &HeaderMap)
    requires
        bytes_mut_view(*old(buf)).len() + header_block(headers@).len() <= isize::MAX,
    ensures
        bytes_mut_view(*final(buf)) == bytes_mut_view(*old(buf)) + header_block(headers@),
{
    let entries = headers.as_slice();
    let ghost e = headers@;
    let sep: [u8; 2] = [COLON, SPACE];
    let crlf: [u8; 2] = [CR, LF];
    assert(sep@ =~= seq![COLON, SPACE]);
    assert(crlf@ =~= seq![CR, LF]);
    let mut i: usize = 0;
    assert(e.subrange(0, 0) =~= Seq::<(Seq<u8>, Seq<u8>)>::empty());
    while i < entries.len()
        invariant
            entries@.map_values(|p: (HeaderName, HeaderValue)| (p.0@, p.1@)) == e,
            e == headers@,
            i <= e.len(),
            sep@ == seq![COLON, SPACE],
            crlf@ == seq![CR, LF],
            bytes_mut_view(*old(buf)).len() + header_block(e).len() <= isize::MAX,
            bytes_mut_view(*buf) == bytes_mut_view(*old(buf)) + header_block(e.subrange(0, i as int)),
        decreases e.len() - i,
    {
        proof {
            lemma_header_block_prefix(e, i as int);
            lemma_header_block_len(e, i + 1);
        }
        assert(e[i as int] == (entries@[i as int].0@, entries@[i as int].1@));
        bytes_mut_extend(buf, entries[i].0.as_bytes());
        bytes_mut_extend(buf, sep.as_slice());
        bytes_mut_extend(buf, entries[i].1.as_bytes());
        bytes_mut_extend(buf, crlf.as_slice());
        assert(bytes_mut_view(*buf) =~= bytes_mut_view(*old(buf)) + header_block(
            e.subrange(0, i + 1),
        ));
        i = i + 1;
    }
    assert(e.subrange(0, e.len() as int) =~= e);
}

/// Lays a request out as bytes: the request line, the header lines, an empty line, the body.
pub fn build_request(method: Method, uri: &str, headers: &HeaderMap, body: Option<&[u8]>) -> (r:
    bytes::Bytes)
    requires
        request_bytes(method, uri.spec_bytes(), headers@, opt_slice_view(body)).len()
            <= isize::MAX,
    ensures
        bytes_view(r) == request_bytes(method, uri.spec_bytes(), headers@, opt_slice_view(body)),
{
    let ghost total = request_bytes(method, uri.spec_bytes(), headers@, opt_slice_view(body));
    let sp: [u8; 1] = [SPACE];
    let crlf: [u8; 2] = [CR, LF];
    assert(sp@ =~= seq![SPACE]);
    assert(crlf@ =~= seq![CR, LF]);
    let mut buf = bytes_mut_with_capacity(256);
    bytes_mut_extend(&mut buf, method.as_str().as_bytes());
    bytes_mut_extend(&mut buf, sp.as_slice());
    bytes_mut_extend(&mut buf, uri.as_bytes());
    bytes_mut_extend(&mut buf, sp.as_slice());
    bytes_mut_extend(&mut buf, version_bytes(1));
    bytes_mut_extend(&mut buf, crlf.as_slice());
    extend_with_headers(&mut buf, headers);
    bytes_mut_extend(&mut buf, crlf.as_slice());
    match body {
        Some(b) => {
            bytes_mut_extend(&mut buf, b);
        },
        None => {},
    }
    assert(bytes_mut_view(buf) =~= total);
    bytes_mut_freeze(buf)
}

/// Lays a response out as bytes: the status line, the header lines, an empty line, the body.
pub fn build_response(
    version: HttpVersion,
    status_code: StatusCode,
    reason: &str,
    headers: &HeaderMap,
    body: Option<&[u8]>,
) -> (r: bytes::Bytes)
    requires
        response_bytes(
            version@,
            status_code@,
            reason.spec_bytes(),
            headers@,
            opt_slice_view(body),
        ).len() <= isize::MAX,
    ensures
        bytes_view(r) == response_bytes(
            version@,
            status_code@,
            reason.spec_bytes(),
            headers@,
            opt_slice_view(body),
        ),
{
    let ghost total = response_bytes(
        version@,
        status_code@,
        reason.spec_bytes(),
        headers@,
        opt_slice_view(body),
    );
    let sp: [u8; 1] = [SPACE];
    let crlf: [u8; 2] = [CR, LF];
    assert(sp@ =~= seq![SPACE]);
    assert(crlf@ =~= seq![CR, LF]);
    let mut buf = bytes_mut_with_capacity(256);
    let minor: u8 = if version.0 == 1 && version.1 == 0 {
        0
    } else {
        1
    };
    bytes_mut_extend(&mut buf, version_bytes(minor));
    bytes_mut_extend(&mut buf, sp.as_slice());
    let code = decimal_string(status_code.as_u16() as u64);
    bytes_mut_extend(&mut buf, code.as_str().as_bytes());
    bytes_mut_extend(&mut buf, sp.as_slice());
    bytes_mut_extend(&mut buf, reason.as_bytes());
    bytes_mut_extend(&mut buf, crlf.as_slice());
    extend_with_headers(&mut buf, headers);
    bytes_mut_extend(&mut buf, crlf.as_slice());
    match body {
        Some(b) => {
            bytes_mut_extend(&mut buf, b);
        },
        None => {},
    }
    assert(bytes_mut_view(buf) =~= total);
    bytes_mut_freeze(buf)
}

} // verus!
