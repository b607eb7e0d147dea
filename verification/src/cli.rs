//! The command line of the `curl-rs` program: the options it reads from its arguments, the
//! headers they ask for, and the method they choose.
//!
//! The two time limits (`--connect-timeout`, `--max-time`) are numbers of seconds with a
//! fraction; they are kept here as the text given on the command line, and the program reads
//! them as seconds.
use vstd::prelude::*;
use vstd::string::*;
use vstd::utf8::*;
use crate::text::{
    chars_of, lemma_trim_piece, parse_unsigned, parse_unsigned_exec, str_eq, trim, trim_str,
};
use crate::http::parser::Method;
use crate::url::{find_char, find_char_exec, lemma_find_char, lemma_find_char_first};

verus! {

/// The options of one run.
pub struct Cli {
    pub url: String,
    pub user_agent: Option<String>,
    pub cookie: Option<String>,
    /// The text given to `--connect-timeout`, in seconds.
    pub connect_timeout: Option<String>,
    pub header: Vec<String>,
    pub show_headers: bool,
    pub head: bool,
    pub insecure: bool,
    /// The text given to `--max-time`, in seconds.
    pub max_time: Option<String>,
    pub output: Option<String>,
    pub remote_name: bool,
    pub request: Option<String>,
    pub data: Option<String>,
    pub fail: bool,
    pub location: bool,
    pub silent: bool,
    pub show_error: bool,
    pub verbose: bool,
    pub cacert: Option<String>,
    pub user: Option<String>,
    pub max_redirs: Option<usize>,
}

/// The options of one run, as texts.
#[verifier::ext_equal]
pub struct CliModel {
    pub url: Seq<char>,
    pub user_agent: Option<Seq<char>>,
    pub cookie: Option<Seq<char>>,
    pub connect_timeout: Option<Seq<char>>,
    pub header: Seq<Seq<char>>,
    pub show_headers: bool,
    pub head: bool,
    pub insecure: bool,
    pub max_time: Option<Seq<char>>,
    pub output: Option<Seq<char>>,
    pub remote_name: bool,
    pub request: Option<Seq<char>>,
    pub data: Option<Seq<char>>,
    pub fail: bool,
    pub location: bool,
    pub silent: bool,
    pub show_error: bool,
    pub verbose: bool,
    pub cacert: Option<Seq<char>>,
    pub user: Option<Seq<char>>,
    pub max_redirs: Option<usize>,
}

pub open spec fn opt_text(s: Option<String>) -> Option<Seq<char>> {
    match s {
        Some(x) => Some(x@),
        None => None,
    }
}

pub open spec fn texts(v: Seq<String>) -> Seq<Seq<char>> {
    v.map_values(|s: String| s@)
}

impl View for Cli {
    type V = CliModel;

    open spec fn view(&self) -> CliModel {
        CliModel {
            url: self.url@,
            user_agent: opt_text(self.user_agent),
            cookie: opt_text(self.cookie),
            connect_timeout: opt_text(self.connect_timeout),
            header: texts(self.header@),
            show_headers: self.show_headers,
            head: self.head,
            insecure: self.insecure,
            max_time: opt_text(self.max_time),
            output: opt_text(self.output),
            remote_name: self.remote_name,
            request: opt_text(self.request),
            data: opt_text(self.data),
            fail: self.fail,
            location: self.location,
            silent: self.silent,
            show_error: self.show_error,
            verbose: self.verbose,
            cacert: opt_text(self.cacert),
            user: opt_text(self.user),
            max_redirs: self.max_redirs,
        }
    }
}

/// What an argument asks for.
#[derive(PartialEq, Eq, Structural)]
pub enum Flag {
    UserAgent,
    Cookie,
    ConnectTimeout,
    Header,
    ShowHeaders,
    Head,
    Insecure,
    MaxTime,
    Output,
    RemoteName,
    Request,
    Data,
    Fail,
    Location,
    Silent,
    ShowError,
    Verbose,
    Cacert,
    User,
    MaxRedirs,
    /// Anything else: an operand, or an option that is not known.
    Other,
}

/// The option an argument names, by its short or long spelling.
#[verifier::opaque]
pub open spec fn flag_of(a: Seq<char>) -> Flag {
    if a == "-A"@ || a == "--user-agent"@ {
        Flag::UserAgent
    } else if a == "-b"@ || a == "--cookie"@ {
        Flag::Cookie
    } else if a == "--connect-timeout"@ {
        Flag::ConnectTimeout
    } else if a == "-H"@ || a == "--header"@ {
        Flag::Header
    } else if a == "-i"@ || a == long_show_headers() {
        Flag::ShowHeaders
    } else if a == "-I"@ || a == "--head"@ {
        Flag::Head
    } else if a == "-k"@ || a == "--insecure"@ {
        Flag::Insecure
    } else if a == "--max-time"@ {
        Flag::MaxTime
    } else if a == "-o"@ || a == "--output"@ {
        Flag::Output
    } else if a == "-O"@ || a == "--remote-name"@ {
        Flag::RemoteName
    } else if a == "-X"@ || a == "--request"@ {
        Flag::Request
    } else if a == "-d"@ || a == "--data"@ {
        Flag::Data
    } else if a == "-f"@ || a == "--fail"@ {
        Flag::Fail
    } else if a == "-L"@ || a == "--location"@ {
        Flag::Location
    } else if a == "-s"@ || a == "--silent"@ {
        Flag::Silent
    } else if a == "-S"@ || a == "--show-error"@ {
        Flag::ShowError
    } else if a == "-v"@ || a == "--verbose"@ {
        Flag::Verbose
    } else if a == "--cacert"@ {
        Flag::Cacert
    } else if a == "-u"@ || a == "--user"@ {
        Flag::User
    } else if a == "--max-redirs"@ {
        Flag::MaxRedirs
    } else {
        Flag::Other
    }
}

/// The options that take the next argument as their value.
pub open spec fn takes_value(f: Flag) -> bool {
    match f {
        Flag::UserAgent | Flag::Cookie | Flag::ConnectTimeout | Flag::Header | Flag::MaxTime
        | Flag::Output | Flag::Request | Flag::Data | Flag::Cacert | Flag::User
        | Flag::MaxRedirs => true,
        _ => false,
    }
}

/// A count as `str::parse::<usize>` reads it.
pub open spec fn count_of(v: Seq<char>) -> Option<usize> {
    match parse_unsigned(encode_utf8(v), usize::MAX as nat) {
        Some(n) => Some(n as usize),
        None => None,
    }
}

/// The options after an option that takes a value has been given `v`.
pub open spec fn with_value(c: CliModel, f: Flag, v: Seq<char>) -> CliModel {
    match f {
        Flag::UserAgent => CliModel { user_agent: Some(v), ..c },
        Flag::Cookie => CliModel { cookie: Some(v), ..c },
        Flag::ConnectTimeout => CliModel { connect_timeout: Some(v), ..c },
        Flag::Header => CliModel { header: c.header.push(v), ..c },
        Flag::MaxTime => CliModel { max_time: Some(v), ..c },
        Flag::Output => CliModel { output: Some(v), ..c },
        Flag::Request => CliModel { request: Some(v), ..c },
        Flag::Data => CliModel { data: Some(v), ..c },
        Flag::Cacert => CliModel { cacert: Some(v), ..c },
        Flag::User => CliModel { user: Some(v), ..c },
        Flag::MaxRedirs => CliModel { max_redirs: count_of(v), ..c },
        _ => c,
    }
}

/// The options after a switch has been given.
pub open spec fn with_switch(c: CliModel, f: Flag) -> CliModel {
    match f {
        Flag::ShowHeaders => CliModel { show_headers: true, ..c },
        Flag::Head => CliModel { head: true, ..c },
        Flag::Insecure => CliModel { insecure: true, ..c },
        Flag::RemoteName => CliModel { remote_name: true, ..c },
        Flag::Fail => CliModel { fail: true, ..c },
        Flag::Location => CliModel { location: true, ..c },
        Flag::Silent => CliModel { silent: true, ..c },
        Flag::ShowError => CliModel { show_error: true, ..c },
        Flag::Verbose => CliModel { verbose: true, ..c },
        _ => c,
    }
}

/// The options after any other argument: the first one not starting with `-` is the URL.
pub open spec fn with_operand(c: CliModel, a: Seq<char>) -> CliModel {
    if !(a.len() > 0 && a[0] == '-') && c.url.len() == 0 {
        CliModel { url: a, ..c }
    } else {
        c
    }
}

/// One argument read: the options after `args[i]` (and its value, for an option that takes
/// one) and the index of the next argument. An option that takes a value and comes last is
/// ignored.
pub open spec fn step(args: Seq<Seq<char>>, i: int, c: CliModel) -> (CliModel, int) {
    let a = args[i];
    let f = flag_of(a);
    if takes_value(f) {
        if i + 1 < args.len() {
            (with_value(c, f, args[i + 1]), i + 2)
        } else {
            (c, i + 1)
        }
    } else if f == Flag::Other {
        (with_operand(c, a), i + 1)
    } else {
        (with_switch(c, f), i + 1)
    }
}

/// The options read from `args[i..]`, starting from `c`.
pub open spec fn scan_args(args: Seq<Seq<char>>, i: int, c: CliModel) -> CliModel
    decreases args.len() - i,
{
    if i >= args.len() {
        c
    } else {
        let (c2, j) = step(args, i, c);
        scan_args(args, j, c2)
    }
}

/// No option given.
pub open spec fn no_options() -> CliModel {
    CliModel {
        url: Seq::empty(),
        user_agent: None,
        cookie: None,
        connect_timeout: None,
        header: Seq::empty(),
        show_headers: false,
        head: false,
        insecure: false,
        max_time: None,
        output: None,
        remote_name: false,
        request: None,
        data: None,
        fail: false,
        location: false,
        silent: false,
        show_error: false,
        verbose: false,
        cacert: None,
        user: None,
        max_redirs: None,
    }
}

/// The header a `name: value` argument asks for: the text before the first `:` and the
/// text after it, both trimmed; nothing when there is no `:`.
pub open spec fn header_pair(h: Seq<char>) -> Option<(Seq<char>, Seq<char>)> {
    match find_char(h, ':', 0) {
        Some(k) => Some((trim(h.subrange(0, k)), trim(h.subrange(k + 1, h.len() as int)))),
        None => None,
    }
}

/// A `-H` argument gives a header exactly when it holds a colon; the name is the text before
/// its first colon and the value the text after that colon, both trimmed, so the name never
/// holds a colon.
pub proof fn lemma_header_pair(h: Seq<char>)
    ensures
        header_pair(h) is Some <==> exists|k: int| 0 <= k < h.len() && h[k] == ':',
        header_pair(h) matches Some((n, v)) ==> exists|k: int|
            {
                &&& 0 <= k < h.len()
                &&& h[k] == ':'
                &&& forall|j: int| 0 <= j < k ==> h[j] != ':'
                &&& n == trim(h.subrange(0, k))
                &&& v == trim(h.subrange(k + 1, h.len() as int))
            },
        header_pair(h) matches Some((n, v)) ==> forall|j: int| 0 <= j < n.len() ==> n[j] != ':',
{
    lemma_find_char(h, ':', 0);
    lemma_find_char_first(h, ':', 0);
    match find_char(h, ':', 0) {
        Some(k) => {
            let pre = h.subrange(0, k);
            lemma_trim_piece(pre);
            let n = trim(pre);
            assert forall|j: int| 0 <= j < n.len() implies n[j] != ':' by {
                let i = choose|i: int| 0 <= i < pre.len() && n[j] == pre[i];
                assert(pre[i] == h[i]);
            }
        },
        None => {},
    }
}

pub open spec fn header_pairs(hs: Seq<Seq<char>>) -> Seq<(Seq<char>, Seq<char>)>
    decreases hs.len(),
{
    if hs.len() == 0 {
        Seq::empty()
    } else {
        let prev = header_pairs(hs.drop_last());
        match header_pair(hs.last()) {
            Some(p) => prev.push(p),
            None => prev,
        }
    }
}

/// The headers the options ask for: `User-Agent`, then `Cookie`, then each `-H` argument
/// that holds a `:`, in order.
pub open spec fn cli_headers(c: CliModel) -> Seq<(Seq<char>, Seq<char>)> {
    let ua = match c.user_agent {
        Some(u) => seq![("User-Agent"@, u)],
        None => Seq::empty(),
    };
    let ck = match c.cookie {
        Some(k) => seq![("Cookie"@, k)],
        None => Seq::empty(),
    };
    ua + ck + header_pairs(c.header)
}

/// The method the options ask for: `-X`, else `HEAD` for `-I`.
pub open spec fn cli_method(c: CliModel) -> Option<Seq<char>> {
    match c.request {
        Some(m) => Some(m),
        None => if c.head {
            Some("HEAD"@)
        } else {
            None
        },
    }
}

/// The long spelling of `-i`.
pub open spec fn long_show_headers() -> Seq<char> {
    seq!['-', '-', 'i', 'n', 'c', 'l', 'u', 'd', 'e']
}

fn is_long_show_headers(a: &str) -> (r: bool)
    ensures
        r == (a@ == long_show_headers()),
{
    let w: [char; 9] = ['-', '-', 'i', 'n', 'c', 'l', 'u', 'd', 'e'];
    assert(w@ =~= long_show_headers());
    let cs = chars_of(a);
    if cs.len() != 9 {
        return false;
    }
    let mut i: usize = 0;
    while i < 9
        invariant
            cs@ == a@,
            cs@.len() == 9,
            w@ == long_show_headers(),
            i <= 9,
            forall|k: int| 0 <= k < i ==> cs@[k] == w@[k],
        decreases 9 - i,
    {
        if cs[i] != w[i] {
            return false;
        }
        i = i + 1;
    }
    assert(cs@ =~= w@);
    true
}

/// Every option has one meaning whether it is spelled short or long.
pub proof fn lemma_spellings()
    ensures
        flag_of("-A"@) == Flag::UserAgent && flag_of("--user-agent"@) == Flag::UserAgent,
        flag_of("-b"@) == Flag::Cookie && flag_of("--cookie"@) == Flag::Cookie,
        flag_of("--connect-timeout"@) == Flag::ConnectTimeout,
        flag_of("-H"@) == Flag::Header && flag_of("--header"@) == Flag::Header,
        flag_of("-i"@) == Flag::ShowHeaders && flag_of(long_show_headers()) == Flag::ShowHeaders,
        flag_of("-I"@) == Flag::Head && flag_of("--head"@) == Flag::Head,
        flag_of("-k"@) == Flag::Insecure && flag_of("--insecure"@) == Flag::Insecure,
        flag_of("--max-time"@) == Flag::MaxTime,
        flag_of("-o"@) == Flag::Output && flag_of("--output"@) == Flag::Output,
        flag_of("-O"@) == Flag::RemoteName && flag_of("--remote-name"@) == Flag::RemoteName,
        flag_of("-X"@) == Flag::Request && flag_of("--request"@) == Flag::Request,
        flag_of("-d"@) == Flag::Data && flag_of("--data"@) == Flag::Data,
        flag_of("-f"@) == Flag::Fail && flag_of("--fail"@) == Flag::Fail,
        flag_of("-L"@) == Flag::Location && flag_of("--location"@) == Flag::Location,
        flag_of("-s"@) == Flag::Silent && flag_of("--silent"@) == Flag::Silent,
        flag_of("-S"@) == Flag::ShowError && flag_of("--show-error"@) == Flag::ShowError,
        flag_of("-v"@) == Flag::Verbose && flag_of("--verbose"@) == Flag::Verbose,
        flag_of("--cacert"@) == Flag::Cacert,
        flag_of("-u"@) == Flag::User && flag_of("--user"@) == Flag::User,
        flag_of("--max-redirs"@) == Flag::MaxRedirs,
{
    reveal(flag_of);
    reveal_strlit("-A");
    assert("-A"@ =~= seq!['-', 'A']);
    reveal_strlit("--user-agent");
    assert("--user-agent"@ =~= seq!['-', '-', 'u', 's', 'e', 'r', '-', 'a', 'g', 'e', 'n', 't']);
    reveal_strlit("-b");
    assert("-b"@ =~= seq!['-', 'b']);
    reveal_strlit("--cookie");
    assert("--cookie"@ =~= seq!['-', '-', 'c', 'o', 'o', 'k', 'i', 'e']);
    reveal_strlit("--connect-timeout");
    assert("--connect-timeout"@ =~= seq!['-', '-', 'c', 'o', 'n', 'n', 'e', 'c', 't', '-', 't', 'i', 'm', 'e', 'o', 'u', 't']);
    reveal_strlit("-H");
    assert("-H"@ =~= seq!['-', 'H']);
    reveal_strlit("--header");
    assert("--header"@ =~= seq!['-', '-', 'h', 'e', 'a', 'd', 'e', 'r']);
    reveal_strlit("-i");
    assert("-i"@ =~= seq!['-', 'i']);
    reveal_strlit("-I");
    assert("-I"@ =~= seq!['-', 'I']);
    reveal_strlit("--head");
    assert("--head"@ =~= seq!['-', '-', 'h', 'e', 'a', 'd']);
    reveal_strlit("-k");
    assert("-k"@ =~= seq!['-', 'k']);
    reveal_strlit("--insecure");
    assert("--insecure"@ =~= seq!['-', '-', 'i', 'n', 's', 'e', 'c', 'u', 'r', 'e']);
    reveal_strlit("--max-time");
    assert("--max-time"@ =~= seq!['-', '-', 'm', 'a', 'x', '-', 't', 'i', 'm', 'e']);
    reveal_strlit("-o");
    assert("-o"@ =~= seq!['-', 'o']);
    reveal_strlit("--output");
    assert("--output"@ =~= seq!['-', '-', 'o', 'u', 't', 'p', 'u', 't']);
    reveal_strlit("-O");
    assert("-O"@ =~= seq!['-', 'O']);
    reveal_strlit("--remote-name");
    assert("--remote-name"@ =~= seq!['-', '-', 'r', 'e', 'm', 'o', 't', 'e', '-', 'n', 'a', 'm', 'e']);
    reveal_strlit("-X");
    assert("-X"@ =~= seq!['-', 'X']);
    reveal_strlit("--request");
    assert("--request"@ =~= seq!['-', '-', 'r', 'e', 'q', 'u', 'e', 's', 't']);
    reveal_strlit("-d");
    assert("-d"@ =~= seq!['-', 'd']);
    reveal_strlit("--data");
    assert("--data"@ =~= seq!['-', '-', 'd', 'a', 't', 'a']);
    reveal_strlit("-f");
    assert("-f"@ =~= seq!['-', 'f']);
    reveal_strlit("--fail");
    assert("--fail"@ =~= seq!['-', '-', 'f', 'a', 'i', 'l']);
    reveal_strlit("-L");
    assert("-L"@ =~= seq!['-', 'L']);
    reveal_strlit("--location");
    assert("--location"@ =~= seq!['-', '-', 'l', 'o', 'c', 'a', 't', 'i', 'o', 'n']);
    reveal_strlit("-s");
    assert("-s"@ =~= seq!['-', 's']);
    reveal_strlit("--silent");
    assert("--silent"@ =~= seq!['-', '-', 's', 'i', 'l', 'e', 'n', 't']);
    reveal_strlit("-S");
    assert("-S"@ =~= seq!['-', 'S']);
    reveal_strlit("--show-error");
    assert("--show-error"@ =~= seq!['-', '-', 's', 'h', 'o', 'w', '-', 'e', 'r', 'r', 'o', 'r']);
    reveal_strlit("-v");
    assert("-v"@ =~= seq!['-', 'v']);
    reveal_strlit("--verbose");
    assert("--verbose"@ =~= seq!['-', '-', 'v', 'e', 'r', 'b', 'o', 's', 'e']);
    reveal_strlit("--cacert");
    assert("--cacert"@ =~= seq!['-', '-', 'c', 'a', 'c', 'e', 'r', 't']);
    reveal_strlit("-u");
    assert("-u"@ =~= seq!['-', 'u']);
    reveal_strlit("--user");
    assert("--user"@ =~= seq!['-', '-', 'u', 's', 'e', 'r']);
    reveal_strlit("--max-redirs");
    assert("--max-redirs"@ =~= seq!['-', '-', 'm', 'a', 'x', '-', 'r', 'e', 'd', 'i', 'r', 's']);
}

/// What reading more arguments never undoes: a switch stays on, an option that has a value
/// keeps one, headers are only added after those given, and a URL once found is kept.
pub open spec fn keeps(c: CliModel, d: CliModel) -> bool {
    &&& c.show_headers ==> d.show_headers
    &&& c.head ==> d.head
    &&& c.insecure ==> d.insecure
    &&& c.remote_name ==> d.remote_name
    &&& c.fail ==> d.fail
    &&& c.location ==> d.location
    &&& c.silent ==> d.silent
    &&& c.show_error ==> d.show_error
    &&& c.verbose ==> d.verbose
    &&& c.user_agent is Some ==> d.user_agent is Some
    &&& c.cookie is Some ==> d.cookie is Some
    &&& c.connect_timeout is Some ==> d.connect_timeout is Some
    &&& c.max_time is Some ==> d.max_time is Some
    &&& c.output is Some ==> d.output is Some
    &&& c.request is Some ==> d.request is Some
    &&& c.data is Some ==> d.data is Some
    &&& c.cacert is Some ==> d.cacert is Some
    &&& c.user is Some ==> d.user is Some
    &&& c.header.len() <= d.header.len()
    &&& d.header.subrange(0, c.header.len() as int) == c.header
    &&& c.url.len() > 0 ==> d.url == c.url
}

proof fn lemma_keeps_trans(a: CliModel, b: CliModel, c: CliModel)
    requires
        keeps(a, b),
        keeps(b, c),
    ensures
        keeps(a, c),
{
    assert(c.header.subrange(0, a.header.len() as int) =~= b.header.subrange(
        0,
        a.header.len() as int,
    ));
}

/// Reading the rest of the arguments keeps what was read so far.
proof fn lemma_scan_keeps(args: Seq<Seq<char>>, i: int, c: CliModel)
    ensures
        keeps(c, scan_args(args, i, c)),
    decreases args.len() - i,
{
    if i >= args.len() {
        assert(c.header.subrange(0, c.header.len() as int) =~= c.header);
    } else {
        let (c2, j) = step(args, i, c);
        assert(keeps(c, c2)) by {
            assert(c2.header.subrange(0, c.header.len() as int) =~= c.header);
        }
        lemma_scan_keeps(args, j, c2);
        lemma_keeps_trans(c, c2, scan_args(args, j, c2));
    }
}

/// Each option is read in its short and its long spelling alike: from an argument that names
/// a switch, the switch ends up on; from one that names an option taking a value, with a
/// value after it, the option ends up with a value, and a header option adds that value after
/// the headers already given.
pub proof fn lemma_option_read(args: Seq<Seq<char>>, i: int, c: CliModel)
    requires
        0 <= i < args.len(),
    ensures
        ({
            let a = args[i];
            let d = scan_args(args, i, c);
            let v = i + 1 < args.len();
            &&& (a == "-i"@ || a == long_show_headers()) ==> d.show_headers
            &&& (a == "-I"@ || a == "--head"@) ==> d.head
            &&& (a == "-k"@ || a == "--insecure"@) ==> d.insecure
            &&& (a == "-O"@ || a == "--remote-name"@) ==> d.remote_name
            &&& (a == "-f"@ || a == "--fail"@) ==> d.fail
            &&& (a == "-L"@ || a == "--location"@) ==> d.location
            &&& (a == "-s"@ || a == "--silent"@) ==> d.silent
            &&& (a == "-S"@ || a == "--show-error"@) ==> d.show_error
            &&& (a == "-v"@ || a == "--verbose"@) ==> d.verbose
            &&& (a == "-A"@ || a == "--user-agent"@) && v ==> d.user_agent is Some
            &&& (a == "-b"@ || a == "--cookie"@) && v ==> d.cookie is Some
            &&& a == "--connect-timeout"@ && v ==> d.connect_timeout is Some
            &&& a == "--max-time"@ && v ==> d.max_time is Some
            &&& (a == "-o"@ || a == "--output"@) && v ==> d.output is Some
            &&& (a == "-X"@ || a == "--request"@) && v ==> d.request is Some
            &&& (a == "-d"@ || a == "--data"@) && v ==> d.data is Some
            &&& a == "--cacert"@ && v ==> d.cacert is Some
            &&& (a == "-u"@ || a == "--user"@) && v ==> d.user is Some
            &&& (a == "-H"@ || a == "--header"@) && v ==> d.header.len() > c.header.len()
                && d.header[c.header.len() as int] == args[i + 1]
        }),
{
    lemma_spellings();
    let (c2, j) = step(args, i, c);
    lemma_scan_keeps(args, j, c2);
    let d = scan_args(args, i, c);
    assert(d == scan_args(args, j, c2));
    if c2.header.len() > c.header.len() {
        assert(d.header.subrange(0, c2.header.len() as int)[c.header.len() as int]
            == d.header[c.header.len() as int]);
    }
}

/// What `str::to_uppercase` makes of a text; it depends on the text alone.
pub uninterp spec fn unicode_uppercase(s: Seq<char>) -> Seq<char>;

/// `str::to_uppercase`. The contract names the result; Unicode case mapping is left unsaid.
#[verifier::external_body]
fn str_to_uppercase(s: &str) -> (r: String)
    ensures
        r@ == unicode_uppercase(s@),
{
    s.to_uppercase()
}

/// The methods the program knows by name.
pub open spec fn named_method(s: Seq<char>) -> Option<Method> {
    if s == "GET"@ {
        Some(Method::Get)
    } else if s == "POST"@ {
        Some(Method::Post)
    } else if s == "PUT"@ {
        Some(Method::Put)
    } else if s == "DELETE"@ {
        Some(Method::Delete)
    } else if s == "HEAD"@ {
        Some(Method::Head)
    } else if s == "PATCH"@ {
        Some(Method::Patch)
    } else if s == "OPTIONS"@ {
        Some(Method::Options)
    } else {
        None
    }
}

/// The method a `-X` value names, compared after uppercasing; `None` for any other name,
/// which the program sends as it was given.
pub fn method_named(name: &str) -> (r: Option<Method>)
    ensures
        r == named_method(unicode_uppercase(name@)),
{
    let up = str_to_uppercase(name);
    let u = up.as_str();
    if str_eq(u, "GET") {
        Some(Method::Get)
    } else if str_eq(u, "POST") {
        Some(Method::Post)
    } else if str_eq(u, "PUT") {
        Some(Method::Put)
    } else if str_eq(u, "DELETE") {
        Some(Method::Delete)
    } else if str_eq(u, "HEAD") {
        Some(Method::Head)
    } else if str_eq(u, "PATCH") {
        Some(Method::Patch)
    } else if str_eq(u, "OPTIONS") {
        Some(Method::Options)
    } else {
        None
    }
}

fn flag(a: &str) -> (f: Flag)
    ensures
        f == flag_of(a@),
{
    reveal(flag_of);
    if str_eq(a, "-A") || str_eq(a, "--user-agent") {
        Flag::UserAgent
    } else if str_eq(a, "-b") || str_eq(a, "--cookie") {
        Flag::Cookie
    } else if str_eq(a, "--connect-timeout") {
        Flag::ConnectTimeout
    } else if str_eq(a, "-H") || str_eq(a, "--header") {
        Flag::Header
    } else if str_eq(a, "-i") || is_long_show_headers(a) {
        Flag::ShowHeaders
    } else if str_eq(a, "-I") || str_eq(a, "--head") {
        Flag::Head
    } else if str_eq(a, "-k") || str_eq(a, "--insecure") {
        Flag::Insecure
    } else if str_eq(a, "--max-time") {
        Flag::MaxTime
    } else if str_eq(a, "-o") || str_eq(a, "--output") {
        Flag::Output
    } else if str_eq(a, "-O") || str_eq(a, "--remote-name") {
        Flag::RemoteName
    } else if str_eq(a, "-X") || str_eq(a, "--request") {
        Flag::Request
    } else if str_eq(a, "-d") || str_eq(a, "--data") {
        Flag::Data
    } else if str_eq(a, "-f") || str_eq(a, "--fail") {
        Flag::Fail
    } else if str_eq(a, "-L") || str_eq(a, "--location") {
        Flag::Location
    } else if str_eq(a, "-s") || str_eq(a, "--silent") {
        Flag::Silent
    } else if str_eq(a, "-S") || str_eq(a, "--show-error") {
        Flag::ShowError
    } else if str_eq(a, "-v") || str_eq(a, "--verbose") {
        Flag::Verbose
    } else if str_eq(a, "--cacert") {
        Flag::Cacert
    } else if str_eq(a, "-u") || str_eq(a, "--user") {
        Flag::User
    } else if str_eq(a, "--max-redirs") {
        Flag::MaxRedirs
    } else {
        Flag::Other
    }
}

fn count(v: &str) -> (r: Option<usize>)
    ensures
        r == count_of(v@),
{
    match parse_unsigned_exec(v.as_bytes(), usize::MAX as u64) {
        Some(n) => Some(n as usize),
        None => None,
    }
}

impl Cli {
    /// Reads the options from the program's arguments; the first is the program's name and
    /// is skipped.
    pub fn parse(args: &Vec<String>) -> (r: Self)
        ensures
            r@ == scan_args(texts(args@), 1, no_options()),
    {
        let ghost argv = texts(args@);
        let n = args.len();
        let mut cli = Cli {
            url: String::new(),
            user_agent: None,
            cookie: None,
            connect_timeout: None,
            header: Vec::new(),
            show_headers: false,
            head: false,
            insecure: false,
            max_time: None,
            output: None,
            remote_name: false,
            request: None,
            data: None,
            fail: false,
            location: false,
            silent: false,
            show_error: false,
            verbose: false,
            cacert: None,
            user: None,
            max_redirs: None,
        };
        assert(texts(cli.header@) =~= Seq::<Seq<char>>::empty());
        assert(cli@ =~= no_options());
        let mut i: usize = 1;
        while i < n
            invariant
                n == args@.len(),
                argv == texts(args@),
                1 <= i,
                scan_args(argv, i as int, cli@) == scan_args(argv, 1, no_options()),
            decreases n - i,
        {
            let ghost before = cli@;
            let j = cli.read_arg(args, i);
            assert(scan_args(argv, i as int, before) == scan_args(argv, j as int, cli@));
            i = j;
        }
        cli
    }

    /// Reads `args[i]`, and its value for an option that takes one, and returns the index of
    /// the next argument.
    #[verifier::rlimit(30)]
    fn read_arg(&mut self, args: &Vec<String>, i: usize) -> (j: usize)
        requires
            i < args@.len(),
        ensures
            (final(self)@, j as int) == step(texts(args@), i as int, old(self)@),
            i < j,
    {
        let ghost argv = texts(args@);
        let n = args.len();
        let a = args[i].as_str();
        let f = flag(a);
        assert(argv[i as int] == a@);
        match f {
            Flag::ShowHeaders => self.show_headers = true,
            Flag::Head => self.head = true,
            Flag::Insecure => self.insecure = true,
            Flag::RemoteName => self.remote_name = true,
            Flag::Fail => self.fail = true,
            Flag::Location => self.location = true,
            Flag::Silent => self.silent = true,
            Flag::ShowError => self.show_error = true,
            Flag::Verbose => self.verbose = true,
            Flag::Other => {
                let dash = a.unicode_len() > 0 && a.get_char(0) == '-';
                if !dash && self.url.as_str().unicode_len() == 0 {
                    self.url = args[i].clone();
                }
            },
            _ => {
                if i + 1 < n {
                    let v = args[i + 1].clone();
                    assert(argv[i + 1] == v@);
                    match f {
                        Flag::UserAgent => self.user_agent = Some(v),
                        Flag::Cookie => self.cookie = Some(v),
                        Flag::ConnectTimeout => self.connect_timeout = Some(v),
                        Flag::Header => {
                            let ghost hs = texts(self.header@);
                            self.header.push(v);
                            assert(texts(self.header@) =~= hs.push(argv[i + 1]));
                        },
                        Flag::MaxTime => self.max_time = Some(v),
                        Flag::Output => self.output = Some(v),
                        Flag::Request => self.request = Some(v),
                        Flag::Data => self.data = Some(v),
                        Flag::Cacert => self.cacert = Some(v),
                        Flag::User => self.user = Some(v),
                        _ => self.max_redirs = count(v.as_str()),
                    }
                    return i + 2;
                }
            },
        }
        i + 1
    }

    /// The headers the options ask for, as name and value.
    pub fn to_headers(&self) -> (r: Vec<(String, String)>)
        ensures
            r@.map_values(|p: (String, String)| (p.0@, p.1@)) == cli_headers(self@),
    {
        let mut headers: Vec<(String, String)> = Vec::new();
        let ghost start: Seq<(Seq<char>, Seq<char>)> = Seq::empty();
        match &self.user_agent {
            Some(ua) => {
                headers.push((String::from_str("User-Agent"), ua.clone()));
                proof {
                    start = seq![("User-Agent"@, ua@)];
                }
            },
            None => {},
        }
        match &self.cookie {
            Some(c) => {
                headers.push((String::from_str("Cookie"), c.clone()));
                proof {
                    start = start + seq![("Cookie"@, c@)];
                }
            },
            None => {},
        }
        let ghost hs = texts(self.header@);
        assert(headers@.map_values(|p: (String, String)| (p.0@, p.1@)) =~= start);
        assert(hs.subrange(0, 0) =~= Seq::<Seq<char>>::empty());
        let mut i: usize = 0;
        while i < self.header.len()
            invariant
                hs == texts(self.header@),
                i <= hs.len(),
                headers@.map_values(|p: (String, String)| (p.0@, p.1@)) == start + header_pairs(
                    hs.subrange(0, i as int),
                ),
            decreases hs.len() - i,
        {
            let h = self.header[i].as_str();
            assert(hs[i as int] == h@);
            assert(hs.subrange(0, i + 1).drop_last() =~= hs.subrange(0, i as int));
            let ghost prev = headers@.map_values(|p: (String, String)| (p.0@, p.1@));
            assert(hs.subrange(0, i + 1).last() == h@);
            let cs = chars_of(h);
            match find_char_exec(&cs, ':', 0) {
                Some(k) => {
                    proof {
                        lemma_find_char(cs@, ':', 0);
                    }
                    let name = trim_str(h.substring_char(0, k));
                    let value = trim_str(h.substring_char(k + 1, cs.len()));
                    headers.push((String::from_str(name), String::from_str(value)));
                    assert(header_pair(h@) == Some((name@, value@)));
                    assert(headers@.map_values(|p: (String, String)| (p.0@, p.1@)) =~= prev.push(
                        (name@, value@),
                    ));
                },
                None => {
                    assert(header_pair(h@) is None);
                },
            }
            assert(headers@.map_values(|p: (String, String)| (p.0@, p.1@)) =~= start
                + header_pairs(hs.subrange(0, i + 1)));
            i = i + 1;
        }
        assert(hs.subrange(0, hs.len() as int) =~= hs);
        headers
    }

    /// The method the options ask for: the `-X` value, else `HEAD` for `-I`, else none.
    pub fn get_method(&self) -> (r: Option<String>)
        ensures
            opt_text(r) == cli_method(self@),
    {
        match &self.request {
            Some(m) => Some(m.clone()),
            None => if self.head {
                Some(String::from_str("HEAD"))
            } else {
                None
            },
        }
    }
}

} // verus!
