//! An HTTP/1.1 client: URLs, header maps, request and response messages, and the decisions
//! of a client that sends a request and follows redirects.
//!
//! The network work itself (resolving, connecting, writing and reading) is left to the
//! caller: `Client::prepare` says what to send and where, and `Client::on_response` says what
//! a received message means, which response it is or which URL to try next.
pub mod buf;
pub mod cli;

pub mod error;
pub mod http;
pub mod net;
pub mod request;
pub mod response;
pub mod text;
pub mod url;

pub use bytes::Bytes;
pub use error::{Error, Result};
pub use http::{HeaderMap, HeaderName, HeaderValue, HttpParser, HttpVersion, Method, StatusCode};
pub use request::{Request, RequestBuilder};
pub use response::{Response, ResponseBuilder};

use vstd::prelude::*;
use vstd::string::*;
use vstd::utf8::*;
use crate::buf::{bytes_as_slice, opt_bytes_view};
use crate::http::headers::{has_name, header_extend, header_insert, header_lookup, text_or_empty};
use crate::http::parser::{
    header_block, lemma_header_block_prefix, parse_error_text, request_bytes, response_model,
    response_reason_panics, version_bytes, ResponseModel,
};
use crate::text::{utf8_lossy, COLON, CR, LF, SPACE};
use crate::url::{
    default_port_of, https_chars, join_model, url_failure_text, url_model, url_text, Url,
    UrlModel,
};

verus! {

/// The settings of a client, as its model.
pub struct ClientModel {
    pub timeout: Option<std::time::Duration>,
    pub connect_timeout: Option<std::time::Duration>,
    pub follow_redirects: bool,
    pub max_redirects: usize,
    pub verify_ssl: bool,
    pub default_headers: Seq<(Seq<u8>, Seq<u8>)>,
}

/// Sends requests with its default headers and follows redirects up to a limit.
pub struct Client {
    timeout: Option<std::time::Duration>,
    connect_timeout: Option<std::time::Duration>,
    follow_redirects: bool,
    max_redirects: usize,
    verify_ssl: bool,
    default_headers: HeaderMap,
}

impl View for Client {
    type V = ClientModel;

    closed spec fn view(&self) -> ClientModel {
        ClientModel {
            timeout: self.timeout,
            connect_timeout: self.connect_timeout,
            follow_redirects: self.follow_redirects,
            max_redirects: self.max_redirects,
            verify_ssl: self.verify_ssl,
            default_headers: self.default_headers@,
        }
    }
}

/// The settings of `Client::new`: no timeouts, redirects followed up to ten times,
/// certificates checked, no default headers.
pub open spec fn fresh_client(c: ClientModel) -> bool {
    &&& c.timeout is None
    &&& c.connect_timeout is None
    &&& c.follow_redirects
    &&& c.max_redirects == 10
    &&& c.verify_ssl
    &&& c.default_headers == Seq::<(Seq<u8>, Seq<u8>)>::empty()
}

/// The request target of a URL: its path (`/` when empty), then `?` and the query if any.
pub open spec fn request_target(u: UrlModel) -> Seq<char> {
    let path = if u.path.len() == 0 {
        seq!['/']
    } else {
        u.path
    };
    match u.query {
        Some(q) => path + seq!['?'] + q,
        None => path,
    }
}

/// The port a URL connects to: its own, else its scheme's default.
pub open spec fn port_of(u: UrlModel) -> u16 {
    match u.port {
        Some(p) => p,
        None => default_port_of(u.scheme),
    }
}

/// The headers sent: the defaults, then the request's own appended, then `host` and
/// `connection: close` where no header of those names is present.
pub open spec fn outgoing_headers(
    defaults: Seq<(Seq<u8>, Seq<u8>)>,
    own: Seq<(Seq<u8>, Seq<u8>)>,
    host: Seq<char>,
) -> Seq<(Seq<u8>, Seq<u8>)> {
    let h = header_extend(defaults, own);
    let h = if has_name(h, "host".spec_bytes()) {
        h
    } else {
        header_insert(h, "host".spec_bytes(), encode_utf8(host))
    };
    if has_name(h, "connection".spec_bytes()) {
        h
    } else {
        header_insert(h, "connection".spec_bytes(), "close".spec_bytes())
    }
}

/// Where a redirect leads: only when the client follows redirects, the status is 3xx, fewer
/// than the limit were followed, and the `location` header resolves against the current URL.
pub open spec fn redirect_target(
    c: ClientModel,
    m: ResponseModel,
    uri: Seq<char>,
    count: usize,
) -> Option<Seq<char>> {
    if c.follow_redirects && 300 <= m.status < 400 && count < c.max_redirects {
        match header_lookup(m.headers, "location".spec_bytes()) {
            Some(loc) => match url_model(uri) {
                Ok(base) => match join_model(base, text_or_empty(loc)) {
                    Ok(next) => Some(url_text(next)),
                    Err(_) => None,
                },
                Err(_) => None,
            },
            None => None,
        }
    } else {
        None
    }
}

/// Only a redirection is followed: a response whose status is not 3xx is final, whatever
/// headers it carries, and a followed redirect never takes the count past the client's
/// limit.
pub proof fn lemma_redirect_only_3xx(c: ClientModel, m: ResponseModel, uri: Seq<char>, count: usize)
    ensures
        redirect_target(c, m, uri, count) is Some ==> 300 <= m.status < 400 && c.follow_redirects
            && count < c.max_redirects,
        !(300 <= m.status < 400) ==> redirect_target(c, m, uri, count) is None,
{
}

/// The response made of a parsed message received for `uri`.
pub open spec fn received(r: Response, m: ResponseModel, uri: Seq<char>) -> bool {
    &&& r.version@ == m.version
    &&& r.status_code@ == m.status
    &&& r.reason@ == utf8_lossy(m.reason)
    &&& r.headers@ == m.headers
    &&& opt_bytes_view(r.body) == m.body
    &&& r.url matches Some(u) && u@ == uri
    &&& !r.redirected
    &&& r.redirect_count == 0
}

/// What to send, and where.
pub struct Outgoing {
    pub host: String,
    pub port: u16,
    pub use_tls: bool,
    pub payload: Vec<u8>,
}

/// What a received message leads to.
pub enum Next {
    /// The final response.
    Done(Response),
    /// Send the same request again to `uri`, the redirect count now being `redirect_count`.
    Follow { uri: String, redirect_count: usize },
}

/// Appends the header lines of `headers` to `buf`.
fn push_header_lines(buf: &mut Vec<u8>, headers: &HeaderMap)
    ensures
        final(buf)@ == old(buf)@ + header_block(headers@),
{
    let entries = headers.as_slice();
    let ghost e = headers@;
    let sep: [u8; 2] = [COLON, SPACE];
    let crlf: [u8; 2] = [CR, LF];
    assert(sep@ =~= seq![COLON, SPACE]);
    assert(crlf@ =~= seq![CR, LF]);
    let mut i: usize = 0;
    assert(e.subrange(0, 0) =~= Seq::<(Seq<u8>, Seq<u8>)>::empty());
    while i < entries.len()
        invariant
            entries@.map_values(|p: (HeaderName, HeaderValue)| (p.0@, p.1@)) == e,
            i <= e.len(),
            sep@ == seq![COLON, SPACE],
            crlf@ == seq![CR, LF],
            buf@ == old(buf)@ + header_block(e.subrange(0, i as int)),
        decreases e.len() - i,
    {
        proof {
            lemma_header_block_prefix(e, i as int);
        }
        assert(e[i as int] == (entries@[i as int].0@, entries@[i as int].1@));
        buf.extend_from_slice(entries[i].0.as_bytes());
        buf.extend_from_slice(sep.as_slice());
        buf.extend_from_slice(entries[i].1.as_bytes());
        buf.extend_from_slice(crlf.as_slice());
        assert(buf@ =~= old(buf)@ + header_block(e.subrange(0, i + 1)));
        i = i + 1;
    }
    assert(e.subrange(0, e.len() as int) =~= e);
}

impl Default for Client {
    fn default() -> (r: Self)
        ensures
            fresh_client(r@),
    {
        Self::new()
    }
}

impl Client {
    pub fn new() -> (r: Self)
        ensures
            fresh_client(r@),
    {
        Self {
            timeout: None,
            connect_timeout: None,
            follow_redirects: true,
            max_redirects: 10,
            verify_ssl: true,
            default_headers: HeaderMap::new(),
        }
    }

    pub fn timeout(self, timeout: std::time::Duration) -> (r: Self)
        ensures
            r@ == (ClientModel { timeout: Some(timeout), ..self@ }),
    {
        let mut this = self;
        this.timeout = Some(timeout);
        this
    }

    pub fn connect_timeout(self, timeout: std::time::Duration) -> (r: Self)
        ensures
            r@ == (ClientModel { connect_timeout: Some(timeout), ..self@ }),
    {
        let mut this = self;
        this.connect_timeout = Some(timeout);
        this
    }

    pub fn follow_redirects(self, enabled: bool) -> (r: Self)
        ensures
            r@ == (ClientModel { follow_redirects: enabled, ..self@ }),
    {
        let mut this = self;
        this.follow_redirects = enabled;
        this
    }

    pub fn max_redirects(self, count: usize) -> (r: Self)
        ensures
            r@ == (ClientModel { max_redirects: count, ..self@ }),
    {
        let mut this = self;
        this.max_redirects = count;
        this
    }

    pub fn verify_ssl(self, verify: bool) -> (r: Self)
        ensures
            r@ == (ClientModel { verify_ssl: verify, ..self@ }),
    {
        let mut this = self;
        this.verify_ssl = verify;
        this
    }

    /// Sets a header that every request carries unless it sets the same name itself.
    pub fn default_header(self, name: HeaderName, value: HeaderValue) -> (r: Self)
        ensures
            r@ == (ClientModel {
                default_headers: header_insert(self@.default_headers, name@, value@),
                ..self@
            }),
    {
        let mut this = self;
        this.default_headers.insert(name, value);
        this
    }

    /// What to send for `request`, and where: the host and port of its URL, whether the
    /// scheme is `https`, and the message laid out as bytes. A URL that does not parse gives
    /// `InvalidUrl` with the text of its refusal.
    pub fn prepare(&self, request: &Request) -> (r: std::result::Result<Outgoing, Error>)
        ensures
            match url_model(request.uri@) {
                Err(f) => r matches Err(Error::InvalidUrl(msg)) && msg@ == url_failure_text(f),
                Ok(u) => r matches Ok(o) && {
                    &&& o.host@ == u.host
                    &&& o.port == port_of(u)
                    &&& o.use_tls == (u.scheme == https_chars())
                    &&& o.payload@ == request_bytes(
                        request.method,
                        encode_utf8(request_target(u)),
                        outgoing_headers(self@.default_headers, request.headers@, u.host),
                        opt_bytes_view(request.body),
                    )
                },
            },
    {
        let url = match Url::parse(request.uri.as_str()) {
            Ok(u) => u,
            Err(e) => {
                return Err(Error::InvalidUrl(e.to_string()));
            },
        };
        let ghost u = url@;
        let host = url.host_str();
        let port = match url.port() {
            Some(p) => p,
            None => url.default_port(),
        };
        proof {
            reveal_strlit("https");
            reveal_strlit("/");
            reveal_strlit("?");
            assert("https"@ =~= https_chars());
        }
        let use_tls = crate::text::str_eq(url.scheme(), "https");
        let mut headers = self.default_headers.clone();
        headers.extend(request.headers.clone());
        if !headers.contains(&HeaderName::from("host")) {
            headers.insert(HeaderName::from("host"), HeaderValue::from(host));
        }
        if !headers.contains(&HeaderName::from("connection")) {
            headers.insert(HeaderName::from("connection"), HeaderValue::from("close"));
        }
        let path = url.path();
        let mut target = if path.unicode_len() == 0 {
            String::from_str("/")
        } else {
            String::from_str(path)
        };
        match url.query() {
            Some(q) => {
                target.append("?");
                target.append(q);
            },
            None => {},
        }
        assert(target@ =~= request_target(u));
        let sp: [u8; 1] = [SPACE];
        let crlf: [u8; 2] = [CR, LF];
        assert(sp@ =~= seq![SPACE]);
        assert(crlf@ =~= seq![CR, LF]);
        let mut payload: Vec<u8> = Vec::new();
        payload.extend_from_slice(request.method.as_str().as_bytes());
        payload.extend_from_slice(sp.as_slice());
        payload.extend_from_slice(target.as_str().as_bytes());
        payload.extend_from_slice(sp.as_slice());
        payload.extend_from_slice(version_bytes(1));
        payload.extend_from_slice(crlf.as_slice());
        push_header_lines(&mut payload, &headers);
        payload.extend_from_slice(crlf.as_slice());
        match &request.body {
            Some(b) => {
                payload.extend_from_slice(bytes_as_slice(b));
            },
            None => {},
        }
        assert(payload@ =~= request_bytes(
            request.method,
            encode_utf8(request_target(u)),
            outgoing_headers(self@.default_headers, request.headers@, u.host),
            opt_bytes_view(request.body),
        ));
        Ok(Outgoing { host: String::from_str(host), port, use_tls, payload })
    }

    /// What the message `data`, received for a request to `uri` after `redirect_count`
    /// redirects, leads to. A message that does not parse gives `HttpParse` with the parser's
    /// message. A redirect is followed only when the client follows redirects, fewer than
    /// its limit have been followed, and the `location` header resolves against `uri`; else
    /// the response is final.
    pub fn on_response(&self, uri: &str, data: &[u8], redirect_count: usize) -> (r:
        std::result::Result<Next, Error>)
        requires
            !response_reason_panics(data@),
        ensures
            match response_model(data@, 80 * 1024) {
                Err(e) => r matches Err(Error::HttpParse(msg)) && msg@ == parse_error_text(e),
                Ok(m) => match redirect_target(self@, m, uri@, redirect_count) {
                    Some(next) => r matches Ok(Next::Follow { uri: u, redirect_count: n }) && u@
                        == next && n == redirect_count + 1,
                    None => r matches Ok(Next::Done(resp)) && received(resp, m, uri@),
                },
            },
            r matches Ok(Next::Follow { redirect_count: n, .. }) ==> self@.follow_redirects && n
                <= self@.max_redirects,
            r matches Ok(Next::Follow { .. }) ==> response_model(data@, 80 * 1024) is Ok && 300
                <= response_model(data@, 80 * 1024)->Ok_0.status < 400,
    {
        let parser = HttpParser::new();
        let parsed = match parser.parse_response(data) {
            Ok(p) => p,
            Err(e) => {
                return Err(Error::HttpParse(String::from_str(e.message())));
            },
        };
        let ghost m = response_model(data@, 80 * 1024)->Ok_0;
        let mut response = Response::from(parsed);
        response.url = Some(String::from_str(uri));
        if self.follow_redirects && response.is_redirection() && redirect_count
            < self.max_redirects {
            match response.location() {
                Some(location) => {
                    match Url::parse(uri) {
                        Ok(base) => {
                            match base.join(location) {
                                Ok(next) => {
                                    return Ok(
                                        Next::Follow {
                                            uri: next.to_string(),
                                            redirect_count: redirect_count + 1,
                                        },
                                    );
                                },
                                Err(_) => {},
                            }
                        },
                        Err(_) => {},
                    }
                },
                None => {},
            }
        }
        Ok(Next::Done(response))
    }
}

} // verus!
