//! Connection settings: the protocol of a scheme, and a timeout.
use vstd::prelude::*;
use crate::text::chars_of;
use crate::url::{http_chars, https_chars, matches_ignore_case, url_model};

verus! {

/// The protocols a URL can name.
#[derive(Debug, Clone, Copy, PartialEq, Eq)]
pub enum Protocol {
    Http,
    Https,
}

/// The protocol of a scheme, compared without regard to ASCII case.
pub open spec fn protocol_of(s: Seq<char>) -> Option<Protocol> {
    if matches_ignore_case(s, http_chars(), seq!['H', 'T', 'T', 'P']) {
        Some(Protocol::Http)
    } else if matches_ignore_case(s, https_chars(), seq!['H', 'T', 'T', 'P', 'S']) {
        Some(Protocol::Https)
    } else {
        None
    }
}

fn matches_word(cs: &Vec<char>, lo: &[char], up: &[char]) -> (r: bool)
    requires
        lo@.len() == up@.len(),
    ensures
        r == matches_ignore_case(cs@, lo@, up@),
{
    if cs.len() != lo.len() {
        return false;
    }
    let mut i: usize = 0;
    while i < lo.len()
        invariant
            cs@.len() == lo@.len(),
            lo@.len() == up@.len(),
            i <= lo@.len(),
            forall|k: int| 0 <= k < i ==> (cs@[k] == lo@[k] || cs@[k] == up@[k]),
        decreases lo@.len() - i,
    {
        if cs[i] != lo[i] && cs[i] != up[i] {
            return false;
        }
        i = i + 1;
    }
    true
}

impl Protocol {
    pub fn from_scheme(scheme: &str) -> (r: Option<Self>)
        ensures
            r == protocol_of(scheme@),
    {
        let cs = chars_of(scheme);
        let lo_http: [char; 4] = ['h', 't', 't', 'p'];
        let up_http: [char; 4] = ['H', 'T', 'T', 'P'];
        let lo_https: [char; 5] = ['h', 't', 't', 'p', 's'];
        let up_https: [char; 5] = ['H', 'T', 'T', 'P', 'S'];
        assert(lo_http@ =~= http_chars());
        assert(up_http@ =~= seq!['H', 'T', 'T', 'P']);
        assert(lo_https@ =~= https_chars());
        assert(up_https@ =~= seq!['H', 'T', 'T', 'P', 'S']);
        if matches_word(&cs, lo_http.as_slice(), up_http.as_slice()) {
            Some(Protocol::Http)
        } else if matches_word(&cs, lo_https.as_slice(), up_https.as_slice()) {
            Some(Protocol::Https)
        } else {
            None
        }
    }
}

/// The scheme of every URL that parses names a protocol: `Https` for `https`, `Http` for
/// `http`.
pub proof fn lemma_parsed_scheme_protocol(s: Seq<char>)
    requires
        url_model(s) is Ok,
    ensures
        protocol_of(url_model(s)->Ok_0.scheme) == Some(
            if url_model(s)->Ok_0.scheme == https_chars() {
                Protocol::Https
            } else {
                Protocol::Http
            },
        ),
{
    let sc = url_model(s)->Ok_0.scheme;
    assert(sc == http_chars() || sc == https_chars());
    assert(http_chars() != https_chars());
}

/// The duration that `Duration::from_secs` makes of a number of seconds.
pub uninterp spec fn duration_from_secs(secs: u64) -> std::time::Duration;

/// `Duration::from_secs`. The contract names the result: a duration of `secs` whole seconds.
#[verifier::external_body]
fn duration_of_secs(secs: u64) -> (r: std::time::Duration)
    ensures
        r == duration_from_secs(secs),
{
    std::time::Duration::from_secs(secs)
}

/// An optional time limit.
#[derive(Debug, Clone, Copy)]
pub struct Timeout(pub Option<std::time::Duration>);

impl Default for Timeout {
    fn default() -> (r: Self)
        ensures
            r.0 is None,
    {
        Self(None)
    }
}

impl Timeout {
    pub fn from_secs(secs: u64) -> (r: Self)
        ensures
            r.0 == Some(duration_from_secs(secs)),
    {
        Self(Some(duration_of_secs(secs)))
    }

    pub fn none() -> (r: Self)
        ensures
            r.0 is None,
    {
        Self(None)
    }
}

} // verus!
