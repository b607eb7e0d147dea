//! Responses and their builder.
use vstd::prelude::*;
use vstd::string::*;
use vstd::utf8::*;
use crate::buf::{bytes_as_slice, bytes_view, opt_bytes_view};
use crate::http::headers::{
    header_insert, header_lookup, text_or_empty, HeaderMap, HeaderName, HeaderValue,
};
use crate::http::parser::{reason_phrase, version_text, HttpVersion, ParsedResponse, StatusCode};
use crate::text::{
    chars_of, decode_str, parse_unsigned, parse_unsigned_exec, string_from_utf8_lossy, trim,
    trim_str, utf8_lossy, utf8_text,
};
use crate::url::{find_char, find_char_exec, lemma_find_char, starts_with, starts_with_exec};

verus! {

/// A received response.
#[derive(Debug, Clone)]
pub struct Response {
    pub version: HttpVersion,
    pub status_code: StatusCode,
    pub reason: String,
    pub headers: HeaderMap,
    pub body: Option<bytes::Bytes>,
    pub url: Option<String>,
    pub redirected: bool,
    pub redirect_count: usize,
}

/// The text of the header stored under `name`.
pub open spec fn header_text(h: Seq<(Seq<u8>, Seq<u8>)>, name: Seq<u8>) -> Option<Seq<char>> {
    match header_lookup(h, name) {
        Some(v) => Some(text_or_empty(v)),
        None => None,
    }
}

/// The charset parameter of a content type: the second `;`-separated piece, trimmed, after
/// `charset=`.
pub open spec fn charset_of(ct: Seq<char>) -> Option<Seq<char>> {
    match find_char(ct, ';', 0) {
        None => None,
        Some(a) => {
            let b = match find_char(ct, ';', a + 1) {
                Some(b) => b,
                None => ct.len() as int,
            };
            let t = trim(ct.subrange(a + 1, b));
            if starts_with(t, "charset="@) {
                Some(t.subrange(8, t.len() as int))
            } else {
                None
            }
        },
    }
}

/// A response as `Response::new` makes it: HTTP/1.1 200, nothing else.
pub open spec fn fresh_response(r: Response) -> bool {
    &&& r.version@ == (1u8, 1u8)
    &&& r.status_code@ == 200
    &&& r.reason@ == Seq::<char>::empty()
    &&& r.headers@ == Seq::<(Seq<u8>, Seq<u8>)>::empty()
    &&& r.body is None
    &&& r.url is None
    &&& !r.redirected
    &&& r.redirect_count == 0
}

/// The two responses agree on every part.
pub open spec fn same_response(a: Response, b: Response) -> bool {
    &&& a.version@ == b.version@
    &&& a.status_code@ == b.status_code@
    &&& a.reason@ == b.reason@
    &&& a.headers@ == b.headers@
    &&& opt_bytes_view(a.body) == opt_bytes_view(b.body)
    &&& a.url == b.url
    &&& a.redirected == b.redirected
    &&& a.redirect_count == b.redirect_count
}

/// The characters of a body that is valid UTF-8.
pub open spec fn body_text(b: Option<bytes::Bytes>) -> Option<Seq<char>> {
    match b {
        Some(x) => utf8_text(bytes_view(x)),
        None => None,
    }
}

/// The charset named in a content type.
fn charset_in(ct: &str) -> (r: Option<&str>)
    ensures
        match charset_of(ct@) {
            Some(c) => r matches Some(x) && x@ == c,
            None => r is None,
        },
{
    let cs = chars_of(ct);
    let n = cs.len();
    let a = match find_char_exec(&cs, ';', 0) {
        Some(a) => a,
        None => {
            return None;
        },
    };
    proof {
        lemma_find_char(cs@, ';', 0);
    }
    let b = match find_char_exec(&cs, ';', a + 1) {
        Some(b) => b,
        None => n,
    };
    proof {
        lemma_find_char(cs@, ';', a + 1);
    }
    let t = trim_str(ct.substring_char(a + 1, b));
    let tcs = chars_of(t);
    let prefix: [char; 8] = ['c', 'h', 'a', 'r', 's', 'e', 't', '='];
    proof {
        reveal_strlit("charset=");
        assert(prefix@ =~= "charset="@);
    }
    if starts_with_exec(&tcs, prefix.as_slice()) {
        Some(t.substring_char(8, tcs.len()))
    } else {
        None
    }
}

impl Response {
    pub fn new() -> (r: Self)
        ensures
            fresh_response(r),
    {
        Self {
            version: HttpVersion::default(),
            status_code: StatusCode::new(200).unwrap(),
            reason: String::new(),
            headers: HeaderMap::new(),
            body: None,
            url: None,
            redirected: false,
            redirect_count: 0,
        }
    }

    pub fn builder() -> (r: ResponseBuilder)
        ensures
            fresh_response(r.inner()),
    {
        ResponseBuilder::new()
    }

    pub fn status(&self) -> (r: u16)
        ensures
            r == self.status_code@,
    {
        self.status_code.as_u16()
    }

    /// The reason phrase the library knows for the status code.
    pub fn status_text(&self) -> (r: &str)
        ensures
            r@ == reason_phrase(self.status_code@),
    {
        self.status_code.as_str()
    }

    pub fn headers(&self) -> (r: &HeaderMap)
        ensures
            r@ == self.headers@,
    {
        &self.headers
    }

    pub fn body(&self) -> (r: Option<&bytes::Bytes>)
        ensures
            r is Some <==> self.body is Some,
            r matches Some(b) ==> opt_bytes_view(self.body) == Some(bytes_view(*b)),
    {
        match &self.body {
            Some(b) => Some(b),
            None => None,
        }
    }

    /// The body as text, if there is one and it is valid UTF-8.
    pub fn body_str(&self) -> (r: Option<&str>)
        ensures
            match body_text(self.body) {
                Some(t) => r matches Some(x) && x@ == t,
                None => r is None,
            },
    {
        match &self.body {
            Some(b) => decode_str(bytes_as_slice(b)),
            None => None,
        }
    }

    /// The `content-length` header as a number, if it is one.
    pub fn content_length(&self) -> (r: Option<u64>)
        ensures
            match header_text(self.headers@, "content-length".spec_bytes()) {
                Some(t) => match parse_unsigned(encode_utf8(t), u64::MAX as nat) {
                    Some(v) => r == Some(v as u64),
                    None => r is None,
                },
                None => r is None,
            },
    {
        match self.headers.get(&HeaderName::from("content-length")) {
            Some(v) => parse_unsigned_exec(v.as_str().as_bytes(), u64::MAX),
            None => None,
        }
    }

    /// The `content-type` header as text.
    pub fn content_type(&self) -> (r: Option<&str>)
        ensures
            match header_text(self.headers@, "content-type".spec_bytes()) {
                Some(t) => r matches Some(x) && x@ == t,
                None => r is None,
            },
    {
        match self.headers.get(&HeaderName::from("content-type")) {
            Some(v) => Some(v.as_str()),
            None => None,
        }
    }

    /// The charset named in the content type.
    pub fn charset(&self) -> (r: Option<&str>)
        ensures
            match header_text(self.headers@, "content-type".spec_bytes()) {
                Some(t) => match charset_of(t) {
                    Some(c) => r matches Some(x) && x@ == c,
                    None => r is None,
                },
                None => r is None,
            },
    {
        match self.content_type() {
            Some(ct) => charset_in(ct),
            None => None,
        }
    }

    pub fn is_success(&self) -> (r: bool)
        ensures
            r == (200 <= self.status_code@ < 300),
    {
        self.status_code.is_success()
    }

    pub fn is_redirection(&self) -> (r: bool)
        ensures
            r == (300 <= self.status_code@ < 400),
    {
        self.status_code.is_redirection()
    }

    pub fn is_client_error(&self) -> (r: bool)
        ensures
            r == (400 <= self.status_code@ < 500),
    {
        self.status_code.is_client_error()
    }

    pub fn is_server_error(&self) -> (r: bool)
        ensures
            r == (500 <= self.status_code@ < 600),
    {
        self.status_code.is_server_error()
    }

    /// The `location` header as text.
    pub fn location(&self) -> (r: Option<&str>)
        ensures
            match header_text(self.headers@, "location".spec_bytes()) {
                Some(t) => r matches Some(x) && x@ == t,
                None => r is None,
            },
    {
        match self.headers.get(&HeaderName::from("location")) {
            Some(v) => Some(v.as_str()),
            None => None,
        }
    }

    pub fn url(&self) -> (r: Option<&str>)
        ensures
            match self.url {
                Some(u) => r matches Some(x) && x@ == u@,
                None => r is None,
            },
    {
        match &self.url {
            Some(u) => Some(u.as_str()),
            None => None,
        }
    }

    /// The body as text, or the empty text.
    pub fn text(&self) -> (r: String)
        ensures
            r@ == match body_text(self.body) {
                Some(t) => t,
                None => Seq::<char>::empty(),
            },
    {
        match self.body_str() {
            Some(s) => String::from_str(s),
            None => String::new(),
        }
    }

    /// `VERSION CODE REASON`.
    #[allow(clippy::inherent_to_string)]
    pub fn to_string(&self) -> (r: String)
        ensures
            r@ == version_text(self.version@) + " "@ + crate::text::decimal_chars(
                self.status_code@ as nat,
            ) + " "@ + self.reason@,
    {
        let mut s = String::from_str(self.version.as_str());
        s.append(" ");
        crate::text::push_decimal(&mut s, self.status_code.as_u16() as u64);
        s.append(" ");
        s.append(self.reason.as_str());
        s
    }
}

impl Default for Response {
    fn default() -> (r: Self)
        ensures
            fresh_response(r),
    {
        Self::new()
    }
}

/// Builds a response step by step.
pub struct ResponseBuilder {
    response: Response,
}

impl ResponseBuilder {
    /// The response being built.
    pub closed spec fn inner(self) -> Response {
        self.response
    }

    pub fn new() -> (r: Self)
        ensures
            fresh_response(r.inner()),
    {
        Self { response: Response::new() }
    }

    pub fn version(self, version: HttpVersion) -> (r: Self)
        ensures
            same_response(r.inner(), Response { version: r.inner().version, ..self.inner() }),
            r.inner().version@ == version@,
    {
        let mut this = self;
        this.response.version = version;
        this
    }

    pub fn status_code(self, code: StatusCode) -> (r: Self)
        ensures
            same_response(
                r.inner(),
                Response { status_code: r.inner().status_code, ..self.inner() },
            ),
            r.inner().status_code@ == code@,
    {
        let mut this = self;
        this.response.status_code = code;
        this
    }

    pub fn reason(self, reason: &str) -> (r: Self)
        ensures
            same_response(r.inner(), Response { reason: r.inner().reason, ..self.inner() }),
            r.inner().reason@ == reason@,
    {
        let mut this = self;
        this.response.reason = String::from_str(reason);
        this
    }

    pub fn header(self, name: HeaderName, value: HeaderValue) -> (r: Self)
        ensures
            same_response(r.inner(), Response { headers: r.inner().headers, ..self.inner() }),
            r.inner().headers@ == header_insert(self.inner().headers@, name@, value@),
    {
        let mut this = self;
        this.response.headers.insert(name, value);
        this
    }

    pub fn headers(self, headers: HeaderMap) -> (r: Self)
        ensures
            same_response(r.inner(), Response { headers: r.inner().headers, ..self.inner() }),
            r.inner().headers@ == headers@,
    {
        let mut this = self;
        this.response.headers = headers;
        this
    }

    pub fn body(self, body: bytes::Bytes) -> (r: Self)
        ensures
            same_response(r.inner(), Response { body: r.inner().body, ..self.inner() }),
            opt_bytes_view(r.inner().body) == Some(bytes_view(body)),
    {
        let mut this = self;
        this.response.body = Some(body);
        this
    }

    pub fn url(self, url: &str) -> (r: Self)
        ensures
            same_response(r.inner(), Response { url: r.inner().url, ..self.inner() }),
            r.inner().url matches Some(u) && u@ == url@,
    {
        let mut this = self;
        this.response.url = Some(String::from_str(url));
        this
    }

    pub fn redirected(self, redirected: bool) -> (r: Self)
        ensures
            same_response(
                r.inner(),
                Response { redirected: r.inner().redirected, ..self.inner() },
            ),
            r.inner().redirected == redirected,
    {
        let mut this = self;
        this.response.redirected = redirected;
        this
    }

    pub fn redirect_count(self, count: usize) -> (r: Self)
        ensures
            same_response(
                r.inner(),
                Response { redirect_count: r.inner().redirect_count, ..self.inner() },
            ),
            r.inner().redirect_count == count,
    {
        let mut this = self;
        this.response.redirect_count = count;
        this
    }

    pub fn build(self) -> (r: Response)
        ensures
            r == self.inner(),
    {
        self.response
    }
}

impl Default for ResponseBuilder {
    fn default() -> (r: Self)
        ensures
            fresh_response(r.inner()),
    {
        Self::new()
    }
}

impl From<ParsedResponse> for Response {
    /// The response of a parsed message: the reason phrase decoded with replacement of
    /// invalid UTF-8, no URL, not redirected.
    fn from(parsed: ParsedResponse) -> (r: Self)
        ensures
            r.version@ == parsed.version@,
            r.status_code@ == parsed.status_code@,
            r.reason@ == utf8_lossy(bytes_view(parsed.reason)),
            r.headers@ == parsed.headers@,
            opt_bytes_view(r.body) == opt_bytes_view(parsed.body),
            r.url is None,
            !r.redirected,
            r.redirect_count == 0,
    {
        let reason = string_from_utf8_lossy(bytes_as_slice(&parsed.reason));
        Self {
            version: parsed.version,
            status_code: parsed.status_code,
            reason,
            headers: parsed.headers,
            body: parsed.body,
            url: None,
            redirected: false,
            redirect_count: 0,
        }
    }
}

impl vstd::std_specs::convert::FromSpecImpl<ParsedResponse> for Response {
    open spec fn obeys_from_spec() -> bool {
        false
    }

    open spec fn from_spec(v: ParsedResponse) -> Response {
        vstd::pervasive::arbitrary()
    }
}

} // verus!
