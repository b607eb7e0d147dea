//! Requests and their builder.
use vstd::prelude::*;
use vstd::string::*;
use vstd::utf8::*;
use crate::buf::{bytes_as_slice, bytes_from_string, bytes_from_vec, bytes_view, opt_bytes_view};
use crate::http::headers::{has_name, header_insert, HeaderMap, HeaderName, HeaderValue};
use crate::http::parser::{
    build_request, method_name, opt_slice_view, request_bytes, version_text, HttpVersion, Method,
};
use crate::text::{decimal_chars, decimal_string};

verus! {

/// A request to send.
#[derive(Debug, Clone)]
pub struct Request {
    pub method: Method,
    pub uri: String,
    pub version: HttpVersion,
    pub headers: HeaderMap,
    pub body: Option<bytes::Bytes>,
    pub timeout: Option<std::time::Duration>,
    pub follow_redirects: bool,
    pub max_redirects: usize,
    pub verify_ssl: bool,
}

/// The two requests agree on everything but the headers and the body.
pub open spec fn same_settings(a: Request, b: Request) -> bool {
    &&& a.method == b.method
    &&& a.uri@ == b.uri@
    &&& a.version@ == b.version@
    &&& a.timeout == b.timeout
    &&& a.follow_redirects == b.follow_redirects
    &&& a.max_redirects == b.max_redirects
    &&& a.verify_ssl == b.verify_ssl
}

/// The two requests agree on everything but the headers.
pub open spec fn same_but_headers(a: Request, b: Request) -> bool {
    same_settings(a, b) && opt_bytes_view(a.body) == opt_bytes_view(b.body)
}

/// The headers after a body of `len` bytes is set: a `Content-Length` header is added
/// unless one is there.
pub open spec fn with_content_length(h: Seq<(Seq<u8>, Seq<u8>)>, len: nat) -> Seq<
    (Seq<u8>, Seq<u8>),
> {
    if has_name(h, "content-length".spec_bytes()) {
        h
    } else {
        header_insert(h, "Content-Length".spec_bytes(), encode_utf8(decimal_chars(len)))
    }
}

/// The headers after a text body is set: a `Content-Type` of form data is added unless one
/// is there.
pub open spec fn with_form_type(h: Seq<(Seq<u8>, Seq<u8>)>) -> Seq<(Seq<u8>, Seq<u8>)> {
    if has_name(h, "content-type".spec_bytes()) {
        h
    } else {
        header_insert(
            h,
            "Content-Type".spec_bytes(),
            "application/x-www-form-urlencoded".spec_bytes(),
        )
    }
}

/// A request as `Request::new` makes it: HTTP/1.1, no headers, no body, no timeout,
/// redirects followed up to ten times, certificates checked.
pub open spec fn fresh_request(r: Request, method: Method, uri: Seq<char>) -> bool {
    &&& r.method == method
    &&& r.uri@ == uri
    &&& r.version@ == (1u8, 1u8)
    &&& r.headers@ == Seq::<(Seq<u8>, Seq<u8>)>::empty()
    &&& r.body is None
    &&& r.timeout is None
    &&& r.follow_redirects
    &&& r.max_redirects == 10
    &&& r.verify_ssl
}

impl Request {
    /// A request with HTTP/1.1, no headers, no body, no timeout, and redirects followed up to
    /// ten times with certificate checks on.
    pub fn new(method: Method, uri: &str) -> (r: Self)
        ensures
            fresh_request(r, method, uri@),
    {
        Self {
            method,
            uri: String::from_str(uri),
            version: HttpVersion::default(),
            headers: HeaderMap::new(),
            body: None,
            timeout: None,
            follow_redirects: true,
            max_redirects: 10,
            verify_ssl: true,
        }
    }

    pub fn get(uri: &str) -> (r: Self)
        ensures
            fresh_request(r, Method::Get, uri@),
    {
        Self::new(Method::Get, uri)
    }

    pub fn post(uri: &str) -> (r: Self)
        ensures
            fresh_request(r, Method::Post, uri@),
    {
        Self::new(Method::Post, uri)
    }

    pub fn put(uri: &str) -> (r: Self)
        ensures
            fresh_request(r, Method::Put, uri@),
    {
        Self::new(Method::Put, uri)
    }

    pub fn delete(uri: &str) -> (r: Self)
        ensures
            fresh_request(r, Method::Delete, uri@),
    {
        Self::new(Method::Delete, uri)
    }

    pub fn head(uri: &str) -> (r: Self)
        ensures
            fresh_request(r, Method::Head, uri@),
    {
        Self::new(Method::Head, uri)
    }

    /// Sets a header.
    pub fn header(self, name: HeaderName, value: HeaderValue) -> (r: Self)
        ensures
            same_but_headers(r, self),
            r.headers@ == header_insert(self.headers@, name@, value@),
    {
        let mut this = self;
        this.headers.insert(name, value);
        this
    }

    /// Replaces all headers.
    pub fn headers(self, headers: HeaderMap) -> (r: Self)
        ensures
            same_but_headers(r, self),
            r.headers@ == headers@,
    {
        let mut this = self;
        this.headers = headers;
        this
    }

    /// Sets the body, and a `Content-Length` header unless one is there.
    pub fn body(self, body: bytes::Bytes) -> (r: Self)
        ensures
            same_settings(r, self),
            opt_bytes_view(r.body) == Some(bytes_view(body)),
            r.headers@ == with_content_length(self.headers@, bytes_view(body).len()),
    {
        let mut this = self;
        let len = bytes_as_slice(&body).len();
        this.body = Some(body);
        if !this.headers.contains(&HeaderName::from("content-length")) {
            this.headers.insert(
                HeaderName::from("Content-Length"),
                HeaderValue::from(decimal_string(len as u64)),
            );
        }
        this
    }

    /// Sets a text body, as `body` does, and a form `Content-Type` unless one is there.
    pub fn body_str(self, body: String) -> (r: Self)
        ensures
            same_settings(r, self),
            opt_bytes_view(r.body) == Some(encode_utf8(body@)),
            r.headers@ == with_form_type(
                with_content_length(self.headers@, encode_utf8(body@).len()),
            ),
    {
        let bytes = bytes_from_string(body);
        let mut r = self.body(bytes);
        if !r.headers.contains(&HeaderName::from("content-type")) {
            r.headers.insert(
                HeaderName::from("Content-Type"),
                HeaderValue::from("application/x-www-form-urlencoded"),
            );
        }
        r
    }

    /// Sets the body to bytes already encoded as JSON, with the JSON content type and
    /// length.
    pub fn json_body(self, body: Vec<u8>) -> (r: Self)
        ensures
            same_settings(r, self),
            opt_bytes_view(r.body) == Some(body@),
            r.headers@ == header_insert(
                header_insert(
                    self.headers@,
                    "Content-Type".spec_bytes(),
                    "application/json".spec_bytes(),
                ),
                "Content-Length".spec_bytes(),
                encode_utf8(decimal_chars(body@.len())),
            ),
    {
        let mut this = self;
        let len = body.len();
        let ghost content = body@;
        this.body = Some(bytes_from_vec(body));
        this.headers.insert(HeaderName::from("Content-Type"), HeaderValue::from("application/json"));
        this.headers.insert(
            HeaderName::from("Content-Length"),
            HeaderValue::from(decimal_string(len as u64)),
        );
        this
    }

    pub fn timeout(self, duration: std::time::Duration) -> (r: Self)
        ensures
            r.timeout == Some(duration),
            r.method == self.method,
            r.uri@ == self.uri@,
            r.version@ == self.version@,
            r.headers@ == self.headers@,
            opt_bytes_view(r.body) == opt_bytes_view(self.body),
            r.follow_redirects == self.follow_redirects,
            r.max_redirects == self.max_redirects,
            r.verify_ssl == self.verify_ssl,
    {
        let mut this = self;
        this.timeout = Some(duration);
        this
    }

    pub fn follow_redirects(self, enabled: bool) -> (r: Self)
        ensures
            r.follow_redirects == enabled,
            r.method == self.method,
            r.uri@ == self.uri@,
            r.version@ == self.version@,
            r.headers@ == self.headers@,
            opt_bytes_view(r.body) == opt_bytes_view(self.body),
            r.timeout == self.timeout,
            r.max_redirects == self.max_redirects,
            r.verify_ssl == self.verify_ssl,
    {
        let mut this = self;
        this.follow_redirects = enabled;
        this
    }

    pub fn max_redirects(self, count: usize) -> (r: Self)
        ensures
            r.max_redirects == count,
            r.method == self.method,
            r.uri@ == self.uri@,
            r.version@ == self.version@,
            r.headers@ == self.headers@,
            opt_bytes_view(r.body) == opt_bytes_view(self.body),
            r.timeout == self.timeout,
            r.follow_redirects == self.follow_redirects,
            r.verify_ssl == self.verify_ssl,
    {
        let mut this = self;
        this.max_redirects = count;
        this
    }

    pub fn verify_ssl(self, verify: bool) -> (r: Self)
        ensures
            r.verify_ssl == verify,
            r.method == self.method,
            r.uri@ == self.uri@,
            r.version@ == self.version@,
            r.headers@ == self.headers@,
            opt_bytes_view(r.body) == opt_bytes_view(self.body),
            r.timeout == self.timeout,
            r.follow_redirects == self.follow_redirects,
            r.max_redirects == self.max_redirects,
    {
        let mut this = self;
        this.verify_ssl = verify;
        this
    }

    /// Sets the `User-Agent` header.
    pub fn user_agent(self, user_agent: &str) -> (r: Self)
        ensures
            same_but_headers(r, self),
            r.headers@ == header_insert(
                self.headers@,
                "User-Agent".spec_bytes(),
                user_agent.spec_bytes(),
            ),
    {
        let mut this = self;
        this.headers.insert(HeaderName::from("User-Agent"), HeaderValue::from(user_agent));
        this
    }

    /// Sets the `Accept` header.
    pub fn accept(self, accept: &str) -> (r: Self)
        ensures
            same_but_headers(r, self),
            r.headers@ == header_insert(self.headers@, "Accept".spec_bytes(), accept.spec_bytes()),
    {
        let mut this = self;
        this.headers.insert(HeaderName::from("Accept"), HeaderValue::from(accept));
        this
    }

    /// The request laid out as bytes, as `build_request` does.
    pub fn build(&self) -> (r: bytes::Bytes)
        requires
            request_bytes(
                self.method,
                encode_utf8(self.uri@),
                self.headers@,
                opt_bytes_view(self.body),
            ).len() <= isize::MAX,
        ensures
            bytes_view(r) == request_bytes(
                self.method,
                encode_utf8(self.uri@),
                self.headers@,
                opt_bytes_view(self.body),
            ),
    {
        let body: Option<&[u8]> = match &self.body {
            Some(b) => Some(bytes_as_slice(b)),
            None => None,
        };
        assert(opt_slice_view(body) == opt_bytes_view(self.body));
        build_request(self.method, self.uri.as_str(), &self.headers, body)
    }

    pub fn uri(&self) -> (r: &str)
        ensures
            r@ == self.uri@,
    {
        self.uri.as_str()
    }

    pub fn set_uri(&mut self, uri: String)
        ensures
            final(self).uri == uri,
            final(self).method == old(self).method,
            final(self).version == old(self).version,
            final(self).headers == old(self).headers,
            final(self).body == old(self).body,
            final(self).timeout == old(self).timeout,
            final(self).follow_redirects == old(self).follow_redirects,
            final(self).max_redirects == old(self).max_redirects,
            final(self).verify_ssl == old(self).verify_ssl,
    {
        self.uri = uri;
    }

    /// `METHOD URI VERSION`.
    #[allow(clippy::inherent_to_string)]
    pub fn to_string(&self) -> (r: String)
        ensures
            r@ == method_name(self.method) + " "@ + self.uri@ + " "@ + version_text(self.version@),
    {
        let mut s = String::from_str(self.method.as_str());
        s.append(" ");
        s.append(self.uri.as_str());
        s.append(" ");
        s.append(self.version.as_str());
        s
    }
}

impl Default for Request {
    fn default() -> (r: Self)
        ensures
            fresh_request(r, Method::Get, "/"@),
    {
        Self::new(Method::Get, "/")
    }
}

/// Builds a request step by step.
pub struct RequestBuilder {
    request: Request,
}

impl RequestBuilder {
    /// The request being built.
    pub closed spec fn inner(self) -> Request {
        self.request
    }

    pub fn new(method: Method, uri: &str) -> (r: Self)
        ensures
            fresh_request(r.inner(), method, uri@),
    {
        Self { request: Request::new(method, uri) }
    }

    pub fn get(uri: &str) -> (r: Self)
        ensures
            fresh_request(r.inner(), Method::Get, uri@),
    {
        Self::new(Method::Get, uri)
    }

    pub fn post(uri: &str) -> (r: Self)
        ensures
            fresh_request(r.inner(), Method::Post, uri@),
    {
        Self::new(Method::Post, uri)
    }

    pub fn put(uri: &str) -> (r: Self)
        ensures
            fresh_request(r.inner(), Method::Put, uri@),
    {
        Self::new(Method::Put, uri)
    }

    pub fn delete(uri: &str) -> (r: Self)
        ensures
            fresh_request(r.inner(), Method::Delete, uri@),
    {
        Self::new(Method::Delete, uri)
    }

    /// Sets a header.
    pub fn header(self, name: HeaderName, value: HeaderValue) -> (r: Self)
        ensures
            same_but_headers(r.inner(), self.inner()),
            r.inner().headers@ == header_insert(self.inner().headers@, name@, value@),
    {
        let mut this = self;
        this.request.headers.insert(name, value);
        this
    }

    /// Replaces all headers.
    pub fn headers(self, headers: HeaderMap) -> (r: Self)
        ensures
            same_but_headers(r.inner(), self.inner()),
            r.inner().headers@ == headers@,
    {
        let mut this = self;
        this.request.headers = headers;
        this
    }

    /// Sets the body; unlike `Request::body`, no header is added.
    pub fn body(self, body: bytes::Bytes) -> (r: Self)
        ensures
            same_settings(r.inner(), self.inner()),
            r.inner().headers@ == self.inner().headers@,
            opt_bytes_view(r.inner().body) == Some(bytes_view(body)),
    {
        let mut this = self;
        this.request.body = Some(body);
        this
    }

    pub fn timeout(self, duration: std::time::Duration) -> (r: Self)
        ensures
            r.inner().timeout == Some(duration),
            r.inner().method == self.inner().method,
            r.inner().uri@ == self.inner().uri@,
            r.inner().version@ == self.inner().version@,
            r.inner().headers@ == self.inner().headers@,
            opt_bytes_view(r.inner().body) == opt_bytes_view(self.inner().body),
            r.inner().follow_redirects == self.inner().follow_redirects,
            r.inner().max_redirects == self.inner().max_redirects,
            r.inner().verify_ssl == self.inner().verify_ssl,
    {
        let mut this = self;
        this.request.timeout = Some(duration);
        this
    }

    pub fn build(self) -> (r: Request)
        ensures
            r == self.inner(),
    {
        self.request
    }
}

} // verus!
