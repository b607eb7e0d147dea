//! Absolute `http` and `https` URLs: parsing, resolving a reference against a base, and
//! writing a URL back out.
use vstd::prelude::*;
use vstd::string::*;
use vstd::utf8::*;
use crate::text::{
    ascii_bytes, chars_of, decimal_chars, is_digit, lemma_decimal_digits, lemma_decimal_parses,
    parse_unsigned, parse_unsigned_exec, push_decimal, str_eq,
};

verus! {

/// A URL as its parts.
pub struct UrlModel {
    pub scheme: Seq<char>,
    pub host: Seq<char>,
    pub port: Option<u16>,
    pub path: Seq<char>,
    pub query: Option<Seq<char>>,
}

/// Why a URL was refused.
pub enum UrlFailure {
    InvalidUrl(Seq<char>),
    MissingHost,
    InvalidPort,
}

/// What `str::to_lowercase` makes of a text; it depends on the text alone.
pub uninterp spec fn unicode_lowercase(s: Seq<char>) -> Seq<char>;

/// `str::to_lowercase`. The contract names the result; Unicode case mapping is left unsaid.
#[verifier::external_body]
fn str_to_lowercase(s: &str) -> (r: String)
    ensures
        r@ == unicode_lowercase(s@),
{
    s.to_lowercase()
}

/// The index of the first `c` at or after `i`.
pub open spec fn find_char(s: Seq<char>, c: char, i: int) -> Option<int>
    decreases s.len() - i,
{
    if i < 0 || i >= s.len() {
        None
    } else if s[i] == c {
        Some(i)
    } else {
        find_char(s, c, i + 1)
    }
}

/// The index of the last `c` before `i`.
pub open spec fn rfind_char(s: Seq<char>, c: char, i: int) -> Option<int>
    decreases i,
{
    if i <= 0 || i > s.len() {
        None
    } else if s[i - 1] == c {
        Some(i - 1)
    } else {
        rfind_char(s, c, i - 1)
    }
}

pub open spec fn sep_at(s: Seq<char>, k: int) -> bool {
    0 <= k && k + 3 <= s.len() && s[k] == ':' && s[k + 1] == '/' && s[k + 2] == '/'
}

/// The index of the first `://` at or after `i`.
pub open spec fn find_sep(s: Seq<char>, i: int) -> Option<int>
    decreases s.len() - i,
{
    if i < 0 || i + 3 > s.len() {
        None
    } else if sep_at(s, i) {
        Some(i)
    } else {
        find_sep(s, i + 1)
    }
}

/// `s` equals `lo` up to ASCII case, `up` being `lo` in uppercase.
pub open spec fn matches_ignore_case(s: Seq<char>, lo: Seq<char>, up: Seq<char>) -> bool {
    s.len() == lo.len() && forall|i: int| 0 <= i < s.len() ==> (s[i] == lo[i] || s[i] == up[i])
}

pub open spec fn http_chars() -> Seq<char> {
    seq!['h', 't', 't', 'p']
}

pub open spec fn https_chars() -> Seq<char> {
    seq!['h', 't', 't', 'p', 's']
}

/// `/` followed by `p`, or `/` alone when `p` is empty.
pub open spec fn rooted(p: Seq<char>) -> Seq<char> {
    seq!['/'] + p
}

pub open spec fn path_and_query(pq: Seq<char>) -> (Seq<char>, Option<Seq<char>>) {
    match find_char(pq, '?', 0) {
        Some(k) => (rooted(pq.subrange(0, k)), Some(pq.subrange(k + 1, pq.len() as int))),
        None => (rooted(pq), None),
    }
}

/// The authority and what follows its first `/`.
pub open spec fn split_host_path(rest: Seq<char>) -> (Seq<char>, Seq<char>) {
    match find_char(rest, '/', 0) {
        Some(j) => (rest.subrange(0, j), rest.subrange(j + 1, rest.len() as int)),
        None => (rest, Seq::empty()),
    }
}

/// Host and port: a port follows the last `:`, and must then be a decimal `u16`.
pub open spec fn host_and_port(hp: Seq<char>) -> Option<(Seq<char>, Option<u16>)> {
    match rfind_char(hp, ':', hp.len() as int) {
        Some(c) => match parse_unsigned(encode_utf8(hp.subrange(c + 1, hp.len() as int)), 65535) {
            Some(p) => Some((hp.subrange(0, c), Some(p as u16))),
            None => None,
        },
        None => Some((hp, None)),
    }
}

/// Path and query from what follows the authority's `/`.
pub open spec fn path_query_of(pq: Seq<char>) -> (Seq<char>, Option<Seq<char>>) {
    if pq.len() == 0 {
        (seq!['/'], None)
    } else {
        path_and_query(pq)
    }
}

/// What a URL text parses to: `scheme://host[:port][/path][?query]`, the scheme being
/// `http` or `https` in any ASCII case.
pub open spec fn url_model(s: Seq<char>) -> Result<UrlModel, UrlFailure> {
    match find_sep(s, 0) {
        None => Err(UrlFailure::InvalidUrl(s)),
        Some(k) => {
            let raw = s.subrange(0, k);
            let rest = s.subrange(k + 3, s.len() as int);
            let scheme = if matches_ignore_case(raw, http_chars(), seq!['H', 'T', 'T', 'P']) {
                Some(http_chars())
            } else if matches_ignore_case(raw, https_chars(), seq!['H', 'T', 'T', 'P', 'S']) {
                Some(https_chars())
            } else {
                None
            };
            match scheme {
                None => Err(
                    UrlFailure::InvalidUrl("unknown scheme: "@ + unicode_lowercase(raw)),
                ),
                Some(scheme) => {
                    let (host_port, pq) = split_host_path(rest);
                    match host_and_port(host_port) {
                        None => Err(UrlFailure::InvalidPort),
                        Some((host, port)) => if host.len() == 0 {
                            Err(UrlFailure::MissingHost)
                        } else {
                            let (path, query) = path_query_of(pq);
                            Ok(UrlModel { scheme, host, port, path, query })
                        },
                    }
                },
            }
        },
    }
}

/// The length of `s[..end]` without its trailing slashes.
pub open spec fn trim_slashes_end(s: Seq<char>, end: int) -> int
    decreases end,
{
    if end <= 0 {
        0
    } else if s[end - 1] == '/' {
        trim_slashes_end(s, end - 1)
    } else {
        end
    }
}

pub open spec fn starts_with(s: Seq<char>, prefix: Seq<char>) -> bool {
    prefix.len() <= s.len() && s.subrange(0, prefix.len() as int) == prefix
}

pub open spec fn http_prefix() -> Seq<char> {
    seq!['h', 't', 't', 'p', ':', '/', '/']
}

pub open spec fn https_prefix() -> Seq<char> {
    seq!['h', 't', 't', 'p', 's', ':', '/', '/']
}

/// `base` joined with `rel`: a slash unless `rel` is empty.
pub open spec fn join_path(base: Seq<char>, rel: Seq<char>) -> Seq<char> {
    if rel.len() == 0 {
        base
    } else {
        base + seq!['/'] + rel
    }
}

/// What resolving `rel` against `base` gives: an absolute `http`/`https` URL is parsed on its
/// own; one that starts with `/` replaces the path; any other is joined to the base path
/// without its trailing slashes, and its query, if any, replaces the base query.
pub open spec fn join_model(base: UrlModel, rel: Seq<char>) -> Result<UrlModel, UrlFailure> {
    if starts_with(rel, http_prefix()) || starts_with(rel, https_prefix()) {
        url_model(rel)
    } else {
        let base_path = base.path.subrange(0, trim_slashes_end(base.path, base.path.len() as int));
        if rel.len() > 0 && rel[0] == '/' {
            Ok(UrlModel { path: rel, query: None, ..base })
        } else {
            match find_char(rel, '?', 0) {
                Some(k) => Ok(
                    UrlModel {
                        path: join_path(base_path, rel.subrange(0, k)),
                        query: Some(rel.subrange(k + 1, rel.len() as int)),
                        ..base
                    },
                ),
                None => Ok(UrlModel { path: join_path(base_path, rel), query: None, ..base }),
            }
        }
    }
}

pub open spec fn default_port_of(scheme: Seq<char>) -> u16 {
    if scheme == https_chars() {
        443
    } else {
        80
    }
}

/// A URL written out: the port only when it differs from the scheme's default.
pub open spec fn url_text(u: UrlModel) -> Seq<char> {
    let port_part = match u.port {
        Some(p) => if p != default_port_of(u.scheme) {
            seq![':'] + decimal_chars(p as nat)
        } else {
            Seq::empty()
        },
        None => Seq::empty(),
    };
    let query_part = match u.query {
        Some(q) => seq!['?'] + q,
        None => Seq::empty(),
    };
    u.scheme + "://"@ + u.host + port_part + u.path + query_part
}

/// A refused URL.
#[derive(Debug)]
pub enum UrlError {
    InvalidUrl(String),
    MissingHost,
    InvalidPort,
}

pub open spec fn url_error_is(e: UrlError, f: UrlFailure) -> bool {
    match (e, f) {
        (UrlError::InvalidUrl(s), UrlFailure::InvalidUrl(t)) => s@ == t,
        (UrlError::MissingHost, UrlFailure::MissingHost) => true,
        (UrlError::InvalidPort, UrlFailure::InvalidPort) => true,
        _ => false,
    }
}

/// The text that describes a refusal.
pub open spec fn url_failure_text(f: UrlFailure) -> Seq<char> {
    match f {
        UrlFailure::InvalidUrl(s) => "invalid URL: "@ + s,
        UrlFailure::MissingHost => "missing host"@,
        UrlFailure::InvalidPort => "invalid port"@,
    }
}

impl UrlError {
    /// The text that describes the refusal.
    #[allow(clippy::inherent_to_string)]
    pub fn to_string(&self) -> (r: String)
        ensures
            forall|f: UrlFailure| url_error_is(*self, f) ==> r@ == url_failure_text(f),
    {
        match self {
            UrlError::InvalidUrl(s) => {
                let mut t = String::from_str("invalid URL: ");
                t.append(s.as_str());
                t
            },
            UrlError::MissingHost => String::from_str("missing host"),
            UrlError::InvalidPort => String::from_str("invalid port"),
        }
    }
}

/// An absolute URL.
#[derive(Debug, Clone, PartialEq)]
pub struct Url {
    scheme: String,
    host: String,
    port: Option<u16>,
    path: String,
    query: Option<String>,
}

pub open spec fn opt_string_view(s: Option<String>) -> Option<Seq<char>> {
    match s {
        Some(x) => Some(x@),
        None => None,
    }
}

impl View for Url {
    type V = UrlModel;

    closed spec fn view(&self) -> UrlModel {
        UrlModel {
            scheme: self.scheme@,
            host: self.host@,
            port: self.port,
            path: self.path@,
            query: opt_string_view(self.query),
        }
    }
}

/// The characters `s[from..to]` as a new string.
fn substring(s: &str, from: usize, to: usize) -> (r: String)
    requires
        from <= to <= s@.len(),
    ensures
        r@ == s@.subrange(from as int, to as int),
{
    String::from_str(s.substring_char(from, to))
}

/// First index of `c` in `cs[i..]`.
pub(crate) fn find_char_exec(cs: &Vec<char>, c: char, i: usize) -> (r: Option<usize>)
    requires
        i <= cs@.len(),
    ensures
        match find_char(cs@, c, i as int) {
            Some(k) => r == Some(k as usize),
            None => r is None,
        },
{
    let mut k = i;
    while k < cs.len()
        invariant
            i <= k <= cs@.len(),
            find_char(cs@, c, i as int) == find_char(cs@, c, k as int),
        decreases cs@.len() - k,
    {
        if cs[k] == c {
            return Some(k);
        }
        k = k + 1;
    }
    None
}

/// Last index of `c` in `cs[..end]`.
fn rfind_char_exec(cs: &Vec<char>, c: char, end: usize) -> (r: Option<usize>)
    requires
        end <= cs@.len(),
    ensures
        match rfind_char(cs@, c, end as int) {
            Some(k) => r == Some(k as usize),
            None => r is None,
        },
{
    let mut k = end;
    while k > 0
        invariant
            k <= end <= cs@.len(),
            rfind_char(cs@, c, end as int) == rfind_char(cs@, c, k as int),
        decreases k,
    {
        if cs[k - 1] == c {
            return Some(k - 1);
        }
        k = k - 1;
    }
    None
}

pub(crate) proof fn lemma_find_char(s: Seq<char>, c: char, i: int)
    ensures
        find_char(s, c, i) matches Some(k) ==> 0 <= i <= k < s.len() && s[k] == c,
    decreases s.len() - i,
{
    if 0 <= i < s.len() && s[i] != c {
        lemma_find_char(s, c, i + 1);
    }
}

proof fn lemma_rfind_char(s: Seq<char>, c: char, i: int)
    ensures
        rfind_char(s, c, i) matches Some(k) ==> 0 <= k < i <= s.len() && s[k] == c,
    decreases i,
{
    if 0 < i <= s.len() && s[i - 1] != c {
        lemma_rfind_char(s, c, i - 1);
    }
}

proof fn lemma_find_sep(s: Seq<char>, i: int)
    ensures
        find_sep(s, i) matches Some(k) ==> 0 <= i <= k && sep_at(s, k),
    decreases s.len() - i,
{
    if 0 <= i && i + 3 <= s.len() && !sep_at(s, i) {
        lemma_find_sep(s, i + 1);
    }
}

proof fn lemma_trim_slashes_end(s: Seq<char>, end: int)
    requires
        0 <= end <= s.len(),
    ensures
        0 <= trim_slashes_end(s, end) <= end,
    decreases end,
{
    if end > 0 && s[end - 1] == '/' {
        lemma_trim_slashes_end(s, end - 1);
    }
}

fn find_sep_exec(cs: &Vec<char>) -> (r: Option<usize>)
    ensures
        match find_sep(cs@, 0) {
            Some(k) => r == Some(k as usize),
            None => r is None,
        },
{
    let mut k: usize = 0;
    while k < cs.len() && cs.len() - k >= 3
        invariant
            k <= cs@.len(),
            find_sep(cs@, 0) == find_sep(cs@, k as int),
        decreases cs@.len() - k,
    {
        if cs[k] == ':' && cs[k + 1] == '/' && cs[k + 2] == '/' {
            return Some(k);
        }
        k = k + 1;
    }
    None
}

/// Whether `cs[from..to]` equals `lo` up to ASCII case.
fn matches_ignore_case_exec(cs: &Vec<char>, from: usize, to: usize, lo: &[char], up: &[char]) -> (r:
    bool)
    requires
        from <= to <= cs@.len(),
        lo@.len() == up@.len(),
    ensures
        r == matches_ignore_case(cs@.subrange(from as int, to as int), lo@, up@),
{
    let ghost s = cs@.subrange(from as int, to as int);
    if to - from != lo.len() {
        return false;
    }
    let mut i: usize = 0;
    while i < lo.len()
        invariant
            s == cs@.subrange(from as int, to as int),
            s.len() == lo@.len(),
            lo@.len() == up@.len(),
            from <= to <= cs@.len(),
            i <= lo@.len(),
            forall|k: int| 0 <= k < i ==> (s[k] == lo@[k] || s[k] == up@[k]),
        decreases lo@.len() - i,
    {
        let c = cs[from + i];
        if c != lo[i] && c != up[i] {
            return false;
        }
        i = i + 1;
    }
    true
}

pub(crate) fn starts_with_exec(cs: &Vec<char>, prefix: &[char]) -> (r: bool)
    ensures
        r == starts_with(cs@, prefix@),
{
    if prefix.len() > cs.len() {
        return false;
    }
    let mut i: usize = 0;
    while i < prefix.len()
        invariant
            prefix@.len() <= cs@.len(),
            i <= prefix@.len(),
            forall|k: int| 0 <= k < i ==> cs@[k] == prefix@[k],
        decreases prefix@.len() - i,
    {
        if cs[i] != prefix[i] {
            assert(cs@.subrange(0, prefix@.len() as int)[i as int] != prefix@[i as int]);
            return false;
        }
        i = i + 1;
    }
    assert(cs@.subrange(0, prefix@.len() as int) =~= prefix@);
    true
}

/// `/` followed by the characters `s[from..to]`.
fn rooted_exec(s: &str, from: usize, to: usize) -> (r: String)
    requires
        from <= to <= s@.len(),
    ensures
        r@ == rooted(s@.subrange(from as int, to as int)),
{
    proof {
        reveal_strlit("/");
    }
    let mut p = String::from_str("/");
    p.append(s.substring_char(from, to));
    assert(p@ =~= rooted(s@.subrange(from as int, to as int)));
    p
}

fn split_host_path_exec(rest: &str) -> (r: (&str, &str))
    ensures
        (r.0@, r.1@) == split_host_path(rest@),
{
    let cs = chars_of(rest);
    let n = cs.len();
    proof {
        reveal_strlit("");
    }
    match find_char_exec(&cs, '/', 0) {
        Some(j) => {
            proof {
                lemma_find_char(cs@, '/', 0);
            }
            (rest.substring_char(0, j), rest.substring_char(j + 1, n))
        },
        None => (rest, ""),
    }
}

fn parse_host_port(hp: &str) -> (r: Option<(String, Option<u16>)>)
    ensures
        match host_and_port(hp@) {
            Some((h, p)) => r matches Some((x, y)) && x@ == h && y == p,
            None => r is None,
        },
{
    let cs = chars_of(hp);
    let n = cs.len();
    match rfind_char_exec(&cs, ':', n) {
        Some(c) => {
            proof {
                lemma_rfind_char(cs@, ':', n as int);
            }
            let digits = hp.substring_char(c + 1, n);
            match parse_unsigned_exec(digits.as_bytes(), 65535) {
                Some(p) => Some((substring(hp, 0, c), Some(p as u16))),
                None => None,
            }
        },
        None => Some((String::from_str(hp), None)),
    }
}

fn parse_path_query(pq: &str) -> (r: (String, Option<String>))
    ensures
        r.0@ == path_query_of(pq@).0,
        opt_string_view(r.1) == path_query_of(pq@).1,
{
    let cs = chars_of(pq);
    let n = cs.len();
    if n == 0 {
        proof {
            reveal_strlit("/");
        }
        let p = String::from_str("/");
        assert(p@ =~= seq!['/']);
        return (p, None);
    }
    match find_char_exec(&cs, '?', 0) {
        Some(qi) => {
            proof {
                lemma_find_char(cs@, '?', 0);
            }
            (rooted_exec(pq, 0, qi), Some(substring(pq, qi + 1, n)))
        },
        None => {
            let p = rooted_exec(pq, 0, n);
            assert(pq@.subrange(0, n as int) =~= pq@);
            (p, None)
        },
    }
}

impl Url {
    /// Parses `scheme://host[:port][/path][?query]` with an `http` or `https` scheme.
    pub fn parse(s: &str) -> (r: Result<Self, UrlError>)
        ensures
            match url_model(s@) {
                Ok(m) => r matches Ok(u) && u@ == m,
                Err(f) => r matches Err(e) && url_error_is(e, f),
            },
    {
        let cs = chars_of(s);
        let n = cs.len();
        let k = match find_sep_exec(&cs) {
            Some(k) => k,
            None => {
                return Err(UrlError::InvalidUrl(String::from_str(s)));
            },
        };
        proof {
            lemma_find_sep(cs@, 0);
        }
        let lo_http: [char; 4] = ['h', 't', 't', 'p'];
        let up_http: [char; 4] = ['H', 'T', 'T', 'P'];
        let lo_https: [char; 5] = ['h', 't', 't', 'p', 's'];
        let up_https: [char; 5] = ['H', 'T', 'T', 'P', 'S'];
        assert(lo_http@ =~= http_chars());
        assert(up_http@ =~= seq!['H', 'T', 'T', 'P']);
        assert(lo_https@ =~= https_chars());
        assert(up_https@ =~= seq!['H', 'T', 'T', 'P', 'S']);
        proof {
            reveal_strlit("http");
            reveal_strlit("https");
            assert("http"@ =~= http_chars());
            assert("https"@ =~= https_chars());
        }
        let scheme = if matches_ignore_case_exec(&cs, 0, k, lo_http.as_slice(), up_http.as_slice()) {
            String::from_str("http")
        } else if matches_ignore_case_exec(&cs, 0, k, lo_https.as_slice(), up_https.as_slice()) {
            String::from_str("https")
        } else {
            proof {
                reveal_strlit("unknown scheme: ");
            }
            let mut msg = String::from_str("unknown scheme: ");
            let lowered = str_to_lowercase(s.substring_char(0, k));
            msg.append(lowered.as_str());
            return Err(UrlError::InvalidUrl(msg));
        };
        let rest = s.substring_char(k + 3, n);
        let (host_port, pq) = split_host_path_exec(rest);
        let (host, port) = match parse_host_port(host_port) {
            Some(hp) => hp,
            None => {
                return Err(UrlError::InvalidPort);
            },
        };
        if host.as_str().unicode_len() == 0 {
            return Err(UrlError::MissingHost);
        }
        let (path, query) = parse_path_query(pq);
        let u = Url { scheme, host, port, path, query };
        Ok(u)
    }
    /// Resolves `relative` against this URL.
    pub fn join(&self, relative: &str) -> (r: Result<Self, UrlError>)
        ensures
            match join_model(self@, relative@) {
                Ok(m) => r matches Ok(u) && u@ == m,
                Err(f) => r matches Err(e) && url_error_is(e, f),
            },
    {
        let rcs = chars_of(relative);
        let n = rcs.len();
        let http: [char; 7] = ['h', 't', 't', 'p', ':', '/', '/'];
        let https: [char; 8] = ['h', 't', 't', 'p', 's', ':', '/', '/'];
        assert(http@ =~= http_prefix());
        assert(https@ =~= https_prefix());
        if starts_with_exec(&rcs, http.as_slice()) || starts_with_exec(&rcs, https.as_slice()) {
            return Self::parse(relative);
        }
        let pcs = chars_of(self.path.as_str());
        let mut e = pcs.len();
        proof {
            lemma_trim_slashes_end(self@.path, e as int);
        }
        while e > 0 && pcs[e - 1] == '/'
            invariant
                pcs@ == self@.path,
                e <= pcs@.len(),
                trim_slashes_end(self@.path, self@.path.len() as int) == trim_slashes_end(
                    self@.path,
                    e as int,
                ),
            decreases e,
        {
            e = e - 1;
        }
        let base_path = self.path.as_str().substring_char(0, e);
        if n > 0 && rcs[0] == '/' {
            return Ok(
                Url {
                    scheme: self.scheme.clone(),
                    host: self.host.clone(),
                    port: self.port,
                    path: String::from_str(relative),
                    query: None,
                },
            );
        }
        match find_char_exec(&rcs, '?', 0) {
            Some(k) => {
                proof {
                    lemma_find_char(rcs@, '?', 0);
                }
                let path = join_path_exec(base_path, relative.substring_char(0, k));
                Ok(
                    Url {
                        scheme: self.scheme.clone(),
                        host: self.host.clone(),
                        port: self.port,
                        path,
                        query: Some(substring(relative, k + 1, n)),
                    },
                )
            },
            None => {
                let path = join_path_exec(base_path, relative);
                Ok(
                    Url {
                        scheme: self.scheme.clone(),
                        host: self.host.clone(),
                        port: self.port,
                        path,
                        query: None,
                    },
                )
            },
        }
    }

    pub fn scheme(&self) -> (r: &str)
        ensures
            r@ == self@.scheme,
    {
        self.scheme.as_str()
    }

    pub fn host_str(&self) -> (r: &str)
        ensures
            r@ == self@.host,
    {
        self.host.as_str()
    }

    pub fn port(&self) -> (r: Option<u16>)
        ensures
            r == self@.port,
    {
        self.port
    }

    pub fn path(&self) -> (r: &str)
        ensures
            r@ == self@.path,
    {
        self.path.as_str()
    }

    pub fn query(&self) -> (r: Option<&str>)
        ensures
            match self@.query {
                Some(q) => r matches Some(x) && x@ == q,
                None => r is None,
            },
    {
        match &self.query {
            Some(q) => Some(q.as_str()),
            None => None,
        }
    }

    /// 443 for `https`, 80 for every other scheme.
    pub fn default_port(&self) -> (r: u16)
        ensures
            r == default_port_of(self@.scheme),
    {
        proof {
            reveal_strlit("https");
            assert("https"@ =~= https_chars());
        }
        if str_eq(self.scheme.as_str(), "https") {
            443
        } else {
            80
        }
    }

    /// The URL written out; the port appears only when it is not the scheme's default.
    #[allow(clippy::inherent_to_string)]
    pub fn to_string(&self) -> (r: String)
        ensures
            r@ == url_text(self@),
    {
        proof {
            reveal_strlit("://");
            reveal_strlit(":");
            reveal_strlit("?");
        }
        let mut out = self.scheme.clone();
        out.append("://");
        out.append(self.host.as_str());
        let ghost after_host = out@;
        match self.port {
            Some(port) => {
                let default = self.default_port();
                if port != default {
                    out.append(":");
                    push_decimal(&mut out, port as u64);
                }
            },
            None => {},
        }
        let ghost port_part = out@.subrange(after_host.len() as int, out@.len() as int);
        out.append(self.path.as_str());
        match &self.query {
            Some(q) => {
                out.append("?");
                out.append(q.as_str());
            },
            None => {},
        }
        assert(out@ =~= url_text(self@));
        out
    }
}

fn join_path_exec(base: &str, rel: &str) -> (r: String)
    ensures
        r@ == join_path(base@, rel@),
{
    proof {
        reveal_strlit("/");
    }
    let mut out = String::from_str(base);
    if rel.unicode_len() != 0 {
        out.append("/");
        out.append(rel);
    }
    assert(out@ =~= join_path(base@, rel@));
    out
}

/* Reading back a URL that was written out. */

proof fn lemma_find_char_at(s: Seq<char>, c: char, i: int, k: int)
    requires
        0 <= i <= k < s.len(),
        s[k] == c,
        forall|j: int| i <= j < k ==> s[j] != c,
    ensures
        find_char(s, c, i) == Some(k),
    decreases k - i,
{
    if i < k {
        lemma_find_char_at(s, c, i + 1, k);
    }
}

pub(crate) proof fn lemma_find_char_first(s: Seq<char>, c: char, i: int)
    requires
        0 <= i,
    ensures
        find_char(s, c, i) matches Some(k) ==> forall|j: int| i <= j < k ==> s[j] != c,
        find_char(s, c, i) is None ==> forall|j: int| i <= j < s.len() ==> s[j] != c,
    decreases s.len() - i,
{
    if i < s.len() && s[i] != c {
        lemma_find_char_first(s, c, i + 1);
    }
}

proof fn lemma_rfind_char_at(s: Seq<char>, c: char, i: int, k: int)
    requires
        0 <= k < i <= s.len(),
        s[k] == c,
        forall|j: int| k < j < i ==> s[j] != c,
    ensures
        rfind_char(s, c, i) == Some(k),
    decreases i - k,
{
    if k < i - 1 {
        lemma_rfind_char_at(s, c, i - 1, k);
    }
}

proof fn lemma_rfind_char_none(s: Seq<char>, c: char, i: int)
    requires
        0 <= i <= s.len(),
    ensures
        rfind_char(s, c, i) is None <==> forall|j: int| 0 <= j < i ==> s[j] != c,
    decreases i,
{
    if i > 0 {
        lemma_rfind_char_none(s, c, i - 1);
    }
}

proof fn lemma_find_sep_at(s: Seq<char>, i: int, k: int)
    requires
        0 <= i <= k,
        sep_at(s, k),
        forall|j: int| i <= j < k ==> !sep_at(s, j),
    ensures
        find_sep(s, i) == Some(k),
    decreases k - i,
{
    if i < k {
        lemma_find_sep_at(s, i + 1, k);
    }
}

/// The characters of a decimal number are digits.
proof fn lemma_decimal_chars_digits(n: nat)
    ensures
        forall|i: int|
            0 <= i < decimal_chars(n).len() ==> '0' <= #[trigger] decimal_chars(n)[i] <= '9',
{
    lemma_decimal_digits(n);
    let s = decimal_chars(n);
    assert forall|i: int| 0 <= i < s.len() implies '0' <= #[trigger] s[i] <= '9' by {
        assert(is_digit(ascii_bytes(s)[i]));
        assert('\0' <= s[i] <= '\u{7f}');
    }
}

spec fn query_text(q: Option<Seq<char>>) -> Seq<char> {
    match q {
        Some(q) => seq!['?'] + q,
        None => Seq::empty(),
    }
}

spec fn port_text(p: Option<u16>) -> Seq<char> {
    match p {
        Some(p) => seq![':'] + decimal_chars(p as nat),
        None => Seq::empty(),
    }
}

/// The models that are written out in a form that reads back as them.
spec fn writable(u: UrlModel) -> bool {
    &&& u.scheme == http_chars() || u.scheme == https_chars()
    &&& u.host.len() > 0
    &&& forall|i: int| 0 <= i < u.host.len() ==> #[trigger] u.host[i] != '/'
    &&& u.port is None ==> forall|i: int| 0 <= i < u.host.len() ==> #[trigger] u.host[i] != ':'
    &&& u.port != Some(default_port_of(u.scheme))
    &&& u.path.len() > 0 && u.path[0] == '/'
    &&& path_query_of(u.path.drop_first() + query_text(u.query)) == (u.path, u.query)
}

/// What a parse gives is writable, when its port is not the scheme's default.
proof fn lemma_parsed_writable(s: Seq<char>)
    requires
        url_model(s) is Ok,
        url_model(s)->Ok_0.port != Some(default_port_of(url_model(s)->Ok_0.scheme)),
    ensures
        writable(url_model(s)->Ok_0),
{
    let u = url_model(s)->Ok_0;
    let k0 = find_sep(s, 0)->Some_0;
    let rest = s.subrange(k0 + 3, s.len() as int);
    let (host_port, pq) = split_host_path(rest);
    let host = u.host;
    lemma_find_char_first(rest, '/', 0);
    assert forall|i: int| 0 <= i < host.len() implies host[i] != '/' by {
        match find_char(rest, '/', 0) {
            Some(j) => {
                lemma_find_char(rest, '/', 0);
                assert(host_port =~= rest.subrange(0, j));
            },
            None => {},
        }
        match rfind_char(host_port, ':', host_port.len() as int) {
            Some(c) => {
                lemma_rfind_char(host_port, ':', host_port.len() as int);
                assert(host =~= host_port.subrange(0, c));
                assert(host[i] == host_port[i]);
            },
            None => {
                assert(host == host_port);
            },
        }
    }
    if u.port is None {
        lemma_rfind_char_none(host_port, ':', host_port.len() as int);
        assert(host == host_port);
    }
    let pq2 = u.path.drop_first() + query_text(u.query);
    if pq.len() == 0 {
        assert(pq2 =~= Seq::<char>::empty());
    } else {
        match find_char(pq, '?', 0) {
            Some(k) => {
                lemma_find_char(pq, '?', 0);
                assert(pq2 =~= pq);
            },
            None => {
                assert(pq2 =~= pq);
            },
        }
    }
}

/// The authority of a written URL, host and port, reads back as its host and port.
proof fn lemma_authority(u: UrlModel)
    requires
        writable(u),
    ensures
        host_and_port(u.host + port_text(u.port)) == Some((u.host, u.port)),
{
    let host = u.host;
    let hp = host + port_text(u.port);
    match u.port {
        Some(p) => {
            let d = decimal_chars(p as nat);
            lemma_decimal_chars_digits(p as nat);
            assert forall|i: int| host.len() < i < hp.len() implies hp[i] != ':' by {
                assert(hp[i] == d[i - host.len() - 1]);
            }
            lemma_rfind_char_at(hp, ':', hp.len() as int, host.len() as int);
            assert(hp.subrange(host.len() + 1int, hp.len() as int) =~= d);
            assert(hp.subrange(0, host.len() as int) =~= host);
            lemma_decimal_parses(p as nat, 65535);
        },
        None => {
            assert(hp =~= host);
            lemma_rfind_char_none(hp, ':', hp.len() as int);
        },
    }
}

/// A writable model, written out, parses back to itself.
proof fn lemma_writable_parses(u: UrlModel)
    requires
        writable(u),
    ensures
        url_model(url_text(u)) == Ok::<UrlModel, UrlFailure>(u),
{
    let sc = u.scheme;
    let host = u.host;
    let pp = port_text(u.port);
    let qp = query_text(u.query);
    reveal_strlit("://");
    assert("://"@ =~= seq![':', '/', '/']);
    let t = url_text(u);
    assert(t =~= sc + seq![':', '/', '/'] + host + pp + u.path + qp);
    assert forall|j: int| 0 <= j < sc.len() implies !sep_at(t, j) by {
        assert(t[j] == sc[j]);
    }
    lemma_find_sep_at(t, 0, sc.len() as int);
    assert(t.subrange(0, sc.len() as int) =~= sc);
    let rest = t.subrange(sc.len() + 3int, t.len() as int);
    assert(rest =~= host + pp + u.path + qp);
    let j = (host.len() + pp.len()) as int;
    match u.port {
        Some(p) => lemma_decimal_chars_digits(p as nat),
        None => {},
    }
    assert forall|i: int| 0 <= i < j implies rest[i] != '/' by {
        if i < host.len() {
            assert(rest[i] == host[i]);
        } else {
            assert(rest[i] == pp[i - host.len()]);
            if i > host.len() {
                assert(pp[i - host.len()] == decimal_chars(u.port->Some_0 as nat)[i - host.len()
                    - 1]);
            }
        }
    }
    assert(rest[j] == u.path[0]);
    lemma_find_char_at(rest, '/', 0, j);
    assert(rest.subrange(0, j) =~= host + pp);
    assert(rest.subrange(j + 1, rest.len() as int) =~= u.path.drop_first() + qp);
    lemma_authority(u);
}

/// A parsed URL, written out, parses back to itself; unless it was given its scheme's
/// default port, which is not written out.
pub proof fn lemma_url_text_roundtrip(s: Seq<char>)
    requires
        url_model(s) is Ok,
        url_model(s)->Ok_0.port != Some(default_port_of(url_model(s)->Ok_0.scheme)),
    ensures
        url_model(url_text(url_model(s)->Ok_0)) == url_model(s),
{
    lemma_parsed_writable(s);
    lemma_writable_parses(url_model(s)->Ok_0);
}

/// A reference that starts with `/` and is not an absolute URL replaces the base's path and
/// drops its query: the result keeps the scheme, host and port of the base, its path is the
/// reference itself, and it has no query, whatever query the base had.
pub proof fn lemma_join_rooted(base: UrlModel, rel: Seq<char>)
    requires
        rel.len() > 0 && rel[0] == '/',
    ensures
        join_model(base, rel) is Ok,
        join_model(base, rel)->Ok_0.scheme == base.scheme,
        join_model(base, rel)->Ok_0.host == base.host,
        join_model(base, rel)->Ok_0.port == base.port,
        join_model(base, rel)->Ok_0.path == rel,
        join_model(base, rel)->Ok_0.query is None,
{
    assert(!starts_with(rel, http_prefix())) by {
        if starts_with(rel, http_prefix()) {
            assert(rel.subrange(0, 7)[0] == rel[0]);
        }
    }
    assert(!starts_with(rel, https_prefix())) by {
        if starts_with(rel, https_prefix()) {
            assert(rel.subrange(0, 8)[0] == rel[0]);
        }
    }
}

/// The query of a resolved reference never comes from the base: two bases that differ only
/// in their queries resolve every reference alike.
pub proof fn lemma_join_ignores_base_query(
    base: UrlModel,
    q1: Option<Seq<char>>,
    q2: Option<Seq<char>>,
    rel: Seq<char>,
)
    ensures
        join_model(UrlModel { query: q1, ..base }, rel) == join_model(
            UrlModel { query: q2, ..base },
            rel,
        ),
{
}

/// Resolving an absolute `http` or `https` URL against any base gives what parsing it
/// gives.
pub proof fn lemma_join_absolute(base: UrlModel, rel: Seq<char>)
    requires
        starts_with(rel, http_prefix()) || starts_with(rel, https_prefix()),
    ensures
        join_model(base, rel) == url_model(rel),
{
}

} // verus!
