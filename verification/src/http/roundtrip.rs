//! Reading back what was written: a request or response laid out by `build_request` or
//! `build_response` parses to the parts it was made of, when those parts can be written
//! unambiguously.
use vstd::prelude::*;
use vstd::utf8::*;
use crate::http::headers::{
    distinct_names, has_name, header_append, same_name, valid_header_name, valid_name_byte,
};
use crate::http::parser::{
    body_bytes, find_byte, find_lf, header_block, header_line_bytes, http_1_0_text,
    http_1_1_text, is_standard, lemma_header_block_len, lemma_header_block_prefix,
    lemma_method_name_roundtrip, lemma_standard_name_ascii, lemma_version_roundtrip,
    method_bytes, method_name, next_line, parse_header_line, parse_header_lines, reason_of,
    request_bytes, request_model, response_bytes, response_model, response_reason_panics,
    skip_spaces, split_from, split_on, status_of, strip_cr, value_end, version_text, Method,
    ParseError, RequestModel, ResponseModel,
};
use crate::text::{
    ascii_bytes, decimal_chars, is_digit, lemma_decimal_digits, lemma_decimal_parses,
    lemma_lower_idempotent, lower, COLON, CR, LF, QUOTE, SPACE,
};

verus! {

/// No byte of `s` is `b`.
pub open spec fn free_of(s: Seq<u8>, b: u8) -> bool {
    forall|i: int| 0 <= i < s.len() ==> #[trigger] s[i] != b
}

/// A request target that reads back unchanged: no space and no line feed.
pub open spec fn plain_target(uri: Seq<u8>) -> bool {
    free_of(uri, SPACE) && free_of(uri, LF)
}

/// A header value that reads back unchanged: no line feed, no space at its start, and no
/// space or carriage return at its end.
pub open spec fn plain_value(v: Seq<u8>) -> bool {
    &&& free_of(v, LF)
    &&& v.len() > 0 ==> v[0] != SPACE && v.last() != SPACE && v.last() != CR
}

/// Headers that read back as they were written, but for the case of their names: valid,
/// pairwise distinct names and plain values.
pub open spec fn plain_headers(e: Seq<(Seq<u8>, Seq<u8>)>) -> bool {
    &&& distinct_names(e)
    &&& forall|i: int|
        0 <= i < e.len() ==> valid_header_name(#[trigger] e[i].0) && plain_value(e[i].1)
}

/// Headers as the parser gives them back: every name in lowercase.
pub open spec fn lowered(e: Seq<(Seq<u8>, Seq<u8>)>) -> Seq<(Seq<u8>, Seq<u8>)> {
    e.map_values(|p: (Seq<u8>, Seq<u8>)| (lower(p.0), p.1))
}

/// A body as the parser gives it back: none when it is empty.
pub open spec fn nonempty(b: Seq<u8>) -> Option<Seq<u8>> {
    if b.len() > 0 {
        Some(b)
    } else {
        None
    }
}

/// The request line and header lines, up to the empty line.
pub open spec fn request_head(m: Method, uri: Seq<u8>, e: Seq<(Seq<u8>, Seq<u8>)>) -> Seq<u8> {
    method_bytes(m) + seq![SPACE] + uri + seq![SPACE] + ascii_bytes(http_1_1_text()) + seq![
        CR,
        LF,
    ] + header_block(e)
}

proof fn lemma_find_lf_at(data: Seq<u8>, pos: int, j: int)
    requires
        0 <= pos <= j < data.len(),
        data[j] == LF,
        forall|k: int| pos <= k < j ==> data[k] != LF,
    ensures
        find_lf(data, pos) == Some(j),
    decreases j - pos,
{
    if pos < j {
        lemma_find_lf_at(data, pos + 1, j);
    }
}

proof fn lemma_find_byte_at(s: Seq<u8>, b: u8, i: int, j: int)
    requires
        0 <= i <= j < s.len(),
        s[j] == b,
        forall|k: int| i <= k < j ==> s[k] != b,
    ensures
        find_byte(s, b, i) == Some(j),
    decreases j - i,
{
    if i < j {
        lemma_find_byte_at(s, b, i + 1, j);
    }
}

proof fn lemma_split_piece(s: Seq<u8>, sep: u8, start: int, i: int, k: int)
    requires
        0 <= start <= i <= k < s.len(),
        s[k] == sep,
        forall|j: int| i <= j < k ==> s[j] != sep,
    ensures
        split_from(s, sep, start, i) == seq![s.subrange(start, k)] + split_from(
            s,
            sep,
            k + 1,
            k + 1,
        ),
    decreases k - i,
{
    if i < k {
        lemma_split_piece(s, sep, start, i + 1, k);
    }
}

proof fn lemma_split_last(s: Seq<u8>, sep: u8, start: int, i: int)
    requires
        0 <= start <= i <= s.len(),
        forall|j: int| i <= j < s.len() ==> s[j] != sep,
    ensures
        split_from(s, sep, start, i) == seq![s.subrange(start, s.len() as int)],
    decreases s.len() - i,
{
    if i < s.len() {
        lemma_split_last(s, sep, start, i + 1);
    }
}

/// A standard method's name is capital letters.
proof fn lemma_method_letters(m: Method)
    requires
        is_standard(m),
    ensures
        method_bytes(m).len() > 0,
        forall|i: int| 0 <= i < method_bytes(m).len() ==> 65 <= #[trigger] method_bytes(m)[i] <= 90,
{
    lemma_standard_name_ascii(m);
    let b = ascii_bytes(method_name(m));
    match m {
        Method::Get => assert(b =~= seq![71u8, 69, 84]),
        Method::Post => assert(b =~= seq![80u8, 79, 83, 84]),
        Method::Put => assert(b =~= seq![80u8, 85, 84]),
        Method::Delete => assert(b =~= seq![68u8, 69, 76, 69, 84, 69]),
        Method::Head => assert(b =~= seq![72u8, 69, 65, 68]),
        Method::Options => assert(b =~= seq![79u8, 80, 84, 73, 79, 78, 83]),
        Method::Patch => assert(b =~= seq![80u8, 65, 84, 67, 72]),
        Method::Connect => assert(b =~= seq![67u8, 79, 78, 78, 69, 67, 84]),
        Method::Trace => assert(b =~= seq![84u8, 82, 65, 67, 69]),
        Method::Custom(_) => {},
    }
}

/// A start line of three pieces without spaces or line feeds is read back as those pieces.
proof fn lemma_start_line(t0: Seq<u8>, t1: Seq<u8>, t2: Seq<u8>, rest: Seq<u8>)
    requires
        free_of(t0, SPACE) && free_of(t0, LF),
        free_of(t1, SPACE) && free_of(t1, LF),
        free_of(t2, SPACE) && free_of(t2, LF),
    ensures
        ({
            let line = t0 + seq![SPACE] + t1 + seq![SPACE] + t2;
            let data = line + seq![CR, LF] + rest;
            &&& next_line(data, 0) == Some((line, line.len() + 2int))
            &&& split_on(line, SPACE) == seq![t0, t1, t2]
        }),
{
    let line = t0 + seq![SPACE] + t1 + seq![SPACE] + t2;
    let data = line + seq![CR, LF] + rest;
    let a = t0.len() as int;
    let b = a + 1 + t1.len();
    assert forall|k: int| 0 <= k < line.len() implies line[k] != LF && (k != a && k != b ==> line[k]
        != SPACE) by {
        if k < a {
            assert(line[k] == t0[k]);
        } else if a < k < b {
            assert(line[k] == t1[k - a - 1]);
        } else if k > b {
            assert(line[k] == t2[k - b - 1]);
        }
    }
    assert forall|k: int| 0 <= k <= line.len() implies data[k] != LF by {
        if k < line.len() {
            assert(data[k] == line[k]);
        }
    }
    lemma_find_lf_at(data, 0, line.len() as int + 1);
    assert(data.subrange(0, line.len() as int + 1) =~= line + seq![CR]);
    assert(strip_cr(line + seq![CR]) =~= line);
    lemma_split_piece(line, SPACE, 0, 0, a);
    lemma_split_piece(line, SPACE, a + 1, a + 1, b);
    lemma_split_last(line, SPACE, b + 1, b + 1);
    assert(line.subrange(0, a) =~= t0);
    assert(line.subrange(a + 1, b) =~= t1);
    assert(line.subrange(b + 1, line.len() as int) =~= t2);
}

/// The version texts are capital letters, `/`, digits and `.`.
proof fn lemma_version_bytes(v: (u8, u8))
    ensures
        free_of(ascii_bytes(version_text(v)), SPACE),
        free_of(ascii_bytes(version_text(v)), LF),
{
    assert(ascii_bytes(http_1_0_text()) =~= seq![72u8, 84, 84, 80, 47, 49, 46, 48]);
    assert(ascii_bytes(http_1_1_text()) =~= seq![72u8, 84, 84, 80, 47, 49, 46, 49]);
}

/// The header block of a prefix of `e` is a prefix of the block of `e`.
proof fn lemma_block_prefix(e: Seq<(Seq<u8>, Seq<u8>)>, j: int)
    requires
        0 <= j <= e.len(),
    ensures
        header_block(e.subrange(0, j)).len() <= header_block(e).len(),
        header_block(e).subrange(0, header_block(e.subrange(0, j)).len() as int) == header_block(
            e.subrange(0, j),
        ),
    decreases e.len() - j,
{
    if j == e.len() {
        assert(e.subrange(0, j) =~= e);
        assert(header_block(e).subrange(0, header_block(e).len() as int) =~= header_block(e));
    } else {
        lemma_block_prefix(e, j + 1);
        lemma_header_block_prefix(e, j);
        let a = header_block(e.subrange(0, j));
        let b = header_block(e.subrange(0, j + 1));
        let h = header_block(e);
        assert(h.subrange(0, a.len() as int) =~= b.subrange(0, a.len() as int));
        assert(b.subrange(0, a.len() as int) =~= a);
    }
}

/// The header lines of a written message, from the `k`-th on, are read back as the lowered
/// headers, up to the empty line that ends them.
proof fn lemma_header_lines(
    data: Seq<u8>,
    base: int,
    e: Seq<(Seq<u8>, Seq<u8>)>,
    max: nat,
    k: int,
)
    requires
        plain_headers(e),
        e.len() <= 101,
        0 <= k <= e.len(),
        0 <= base,
        base + header_block(e).len() + 2 <= data.len(),
        data.subrange(base, base + header_block(e).len()) == header_block(e),
        data[base + header_block(e).len()] == CR,
        data[base + header_block(e).len() + 1] == LF,
        e.len() == 0 || base + header_block(e).len() <= max,
    ensures
        parse_header_lines(
            data,
            base + header_block(e.subrange(0, k)).len(),
            max,
            lowered(e.subrange(0, k)),
        ) == Ok::<(Seq<(Seq<u8>, Seq<u8>)>, int), ParseError>(
            (lowered(e), base + header_block(e).len() + 2),
        ),
    decreases e.len() - k,
{
    let hb = header_block(e);
    let pos = base + header_block(e.subrange(0, k)).len();
    if k == e.len() {
        assert(e.subrange(0, k) =~= e);
        lemma_find_lf_at(data, pos, pos + 1);
        assert(data.subrange(pos, pos + 1) =~= seq![CR]);
        assert(strip_cr(seq![CR]).len() == 0);
    } else {
        let n = e[k].0;
        let v = e[k].1;
        let line = header_line_bytes(e[k]);
        let pre = header_block(e.subrange(0, k));
        let next = header_block(e.subrange(0, k + 1));
        lemma_header_block_prefix(e, k);
        lemma_block_prefix(e, k + 1);
        assert(next == pre + line);
        let end = pos + line.len();
        assert(end == base + next.len());
        assert(valid_header_name(n) && plain_value(v));
        assert forall|t: int| 0 <= t < line.len() implies data[pos + t] == line[t] by {
            let x = pre.len() + t;
            assert(data.subrange(base, base + hb.len())[x] == data[base + x]);
            assert(hb.subrange(0, next.len() as int)[x] == hb[x]);
            assert(next[x] == line[t]);
        }
        let l = n + seq![COLON, SPACE] + v;
        assert(line =~= l + seq![CR, LF]);
        assert forall|t: int| 0 <= t < l.len() implies l[t] != LF && (t < n.len() ==> l[t]
            != COLON) by {
            if t < n.len() {
                assert(valid_name_byte(n[t]));
            } else if t >= n.len() + 2 {
                assert(l[t] == v[t - n.len() - 2]);
            }
        }
        assert forall|t: int| pos <= t < end - 1 implies data[t] != LF by {
            assert(data[pos + (t - pos)] == line[t - pos]);
            if t - pos < l.len() {
                assert(line[t - pos] == l[t - pos]);
            }
        }
        assert(data[pos + (line.len() - 1)] == line[line.len() - 1]);
        lemma_find_lf_at(data, pos, end - 1);
        assert(data.subrange(pos, end - 1) =~= l + seq![CR]) by {
            assert forall|t: int| 0 <= t < l.len() + 1 implies data.subrange(pos, end - 1)[t]
                == (l + seq![CR])[t] by {
                assert(data[pos + t] == line[t]);
            }
        }
        assert(strip_cr(l + seq![CR]) =~= l);
        lemma_find_byte_at(l, COLON, 0, n.len() as int);
        assert(l.subrange(0, n.len() as int) =~= n);
        let c = n.len() as int;
        assert(skip_spaces(l, c + 1) == c + 2) by {
            assert(l[c + 1] == SPACE);
            if v.len() > 0 {
                assert(l[c + 2] == v[0]);
            }
            assert(skip_spaces(l, c + 2) == c + 2);
        }
        assert(value_end(l, c + 2, l.len() as int) == l.len()) by {
            if v.len() > 0 {
                assert(l[l.len() - 1] == v.last());
            }
        }
        assert(l.subrange(c + 2, l.len() as int) =~= v);
        assert(parse_header_line(l) == Some((lower(n), v)));
        let acc = lowered(e.subrange(0, k));
        assert(!has_name(acc, lower(n))) by {
            assert forall|i: int| 0 <= i < acc.len() implies !same_name(
                #[trigger] acc[i].0,
                lower(n),
            ) by {
                lemma_lower_idempotent(e[i].0);
                lemma_lower_idempotent(n);
                assert(acc[i].0 == lower(e[i].0));
                assert(!same_name(e[i].0, e[k].0));
            }
        }
        assert(header_append(acc, lower(n), v) =~= lowered(e.subrange(0, k + 1)));
        lemma_header_block_len(e, k + 1);
        lemma_header_lines(data, base, e, max, k + 1);
    }
}

/// A request laid out by `build_request` parses back to its method, target, version 1.1,
/// its headers with lowercase names, and its body when that is not empty; provided the
/// method is a standard one, the target holds no space or line feed, the headers have
/// valid distinct names and plain values, there are at most 101 of them, and the head fits
/// in the parser's limit.
pub proof fn lemma_request_roundtrip(
    m: Method,
    uri: Seq<u8>,
    e: Seq<(Seq<u8>, Seq<u8>)>,
    body: Option<Seq<u8>>,
    max: nat,
)
    requires
        is_standard(m),
        plain_target(uri),
        plain_headers(e),
        e.len() <= 101,
        e.len() == 0 || request_head(m, uri, e).len() <= max,
    ensures
        request_model(request_bytes(m, uri, e, body), max) == Ok::<RequestModel, ParseError>(
            RequestModel {
                method: m,
                uri: uri,
                version: (1u8, 1u8),
                headers: lowered(e),
                body: nonempty(body_bytes(body)),
            },
        ),
{
    let mb = method_bytes(m);
    let vb = ascii_bytes(http_1_1_text());
    let line = mb + seq![SPACE] + uri + seq![SPACE] + vb;
    let hb = header_block(e);
    let b = body_bytes(body);
    let rest = hb + seq![CR, LF] + b;
    let data = request_bytes(m, uri, e, body);
    assert(data =~= line + seq![CR, LF] + rest);
    lemma_method_letters(m);
    lemma_version_bytes((1u8, 1u8));
    lemma_start_line(mb, uri, vb, rest);
    lemma_method_name_roundtrip(m);
    lemma_version_roundtrip((1u8, 1u8));
    let base = line.len() + 2int;
    assert(data.subrange(base, base + hb.len()) =~= hb);
    assert(data[base + hb.len()] == CR);
    assert(data[base + hb.len() + 1] == LF);
    assert(request_head(m, uri, e) =~= line + seq![CR, LF] + hb);
    assert(e.subrange(0, 0) =~= Seq::<(Seq<u8>, Seq<u8>)>::empty());
    assert(lowered(e.subrange(0, 0)) =~= Seq::<(Seq<u8>, Seq<u8>)>::empty());
    lemma_header_lines(data, base, e, max, 0);
    let p: int = base + hb.len() + 2;
    assert(data.subrange(p, data.len() as int) =~= b);
}

/// A reason phrase that reads back unchanged: not empty, no space or line feed, and no quote
/// at either end.
pub open spec fn plain_reason(r: Seq<u8>) -> bool {
    &&& r.len() > 0
    &&& free_of(r, SPACE) && free_of(r, LF)
    &&& r[0] != QUOTE && r.last() != QUOTE
}

/// The status line and header lines, up to the empty line.
pub open spec fn response_head(
    v: (u8, u8),
    code: u16,
    reason: Seq<u8>,
    e: Seq<(Seq<u8>, Seq<u8>)>,
) -> Seq<u8> {
    ascii_bytes(version_text(v)) + seq![SPACE] + encode_utf8(decimal_chars(code as nat)) + seq![
        SPACE,
    ] + reason + seq![CR, LF] + header_block(e)
}

/// A response laid out by `build_response` parses back to its version, status code, reason
/// phrase, its headers with lowercase names, and its body when that is not empty; provided
/// the version is 1.0 or 1.1, the code is a status code, the reason phrase is plain, the
/// headers have valid distinct names and plain values, there are at most 101 of them, and
/// the head fits in the parser's limit.
pub proof fn lemma_response_roundtrip(
    v: (u8, u8),
    code: u16,
    reason: Seq<u8>,
    e: Seq<(Seq<u8>, Seq<u8>)>,
    body: Option<Seq<u8>>,
    max: nat,
)
    requires
        v == (1u8, 0u8) || v == (1u8, 1u8),
        100 <= code < 600,
        plain_reason(reason),
        plain_headers(e),
        e.len() <= 101,
        e.len() == 0 || response_head(v, code, reason, e).len() <= max,
    ensures
        !response_reason_panics(response_bytes(v, code, reason, e, body)),
        response_model(response_bytes(v, code, reason, e, body), max) == Ok::<
            ResponseModel,
            ParseError,
        >(
            ResponseModel {
                version: v,
                status: code,
                reason: reason,
                headers: lowered(e),
                body: nonempty(body_bytes(body)),
            },
        ),
{
    let vb = ascii_bytes(version_text(v));
    let db = encode_utf8(decimal_chars(code as nat));
    let line = vb + seq![SPACE] + db + seq![SPACE] + reason;
    let hb = header_block(e);
    let b = body_bytes(body);
    let rest = hb + seq![CR, LF] + b;
    let data = response_bytes(v, code, reason, e, body);
    assert(data =~= line + seq![CR, LF] + rest);
    lemma_version_bytes(v);
    lemma_decimal_digits(code as nat);
    assert forall|i: int| 0 <= i < db.len() implies #[trigger] db[i] != SPACE && db[i] != LF by {
        assert(is_digit(db[i]));
    }
    lemma_start_line(vb, db, reason, rest);
    lemma_version_roundtrip(v);
    lemma_decimal_parses(code as nat, 65535);
    assert(status_of(db) == Some(code));
    assert(reason_of(reason) =~= reason);
    assert(reason != seq![QUOTE]);
    let base = line.len() + 2int;
    assert(data.subrange(base, base + hb.len()) =~= hb);
    assert(data[base + hb.len()] == CR);
    assert(data[base + hb.len() + 1] == LF);
    assert(response_head(v, code, reason, e) =~= line + seq![CR, LF] + hb);
    assert(e.subrange(0, 0) =~= Seq::<(Seq<u8>, Seq<u8>)>::empty());
    assert(lowered(e.subrange(0, 0)) =~= Seq::<(Seq<u8>, Seq<u8>)>::empty());
    lemma_header_lines(data, base, e, max, 0);
    let p: int = base + hb.len() + 2;
    assert(data.subrange(p, data.len() as int) =~= b);
}

proof fn lemma_skip_run(l: Seq<u8>, i: int, j: int)
    requires
        0 <= i <= j <= l.len(),
        forall|k: int| i <= k < j ==> l[k] == SPACE,
        j == l.len() || l[j] != SPACE,
    ensures
        skip_spaces(l, i) == j,
    decreases j - i,
{
    if i < j {
        lemma_skip_run(l, i + 1, j);
    }
}

/// A header line reads back as its name in lowercase and its value intact, whatever run of
/// spaces, none included, stands between the colon and the value: `name:value`,
/// `name: value` and `name:   value` all give the same header.
pub proof fn lemma_header_line_value(n: Seq<u8>, sp: Seq<u8>, v: Seq<u8>)
    requires
        valid_header_name(n),
        forall|i: int| 0 <= i < sp.len() ==> sp[i] == SPACE,
        v.len() > 0 ==> v[0] != SPACE && v.last() != SPACE && v.last() != CR,
    ensures
        parse_header_line(n + seq![COLON] + sp + v) == Some((lower(n), v)),
{
    let l = n + seq![COLON] + sp + v;
    let c = n.len() as int;
    assert forall|k: int| 0 <= k < c implies l[k] != COLON by {
        assert(l[k] == n[k]);
        assert(valid_name_byte(n[k]));
    }
    lemma_find_byte_at(l, COLON, 0, c);
    assert(l.subrange(0, c) =~= n);
    let vs = c + 1 + sp.len();
    assert forall|k: int| c + 1 <= k < vs implies l[k] == SPACE by {
        assert(l[k] == sp[k - c - 1]);
    }
    if v.len() > 0 {
        assert(l[vs] == v[0]);
        assert(l[l.len() - 1] == v.last());
    }
    lemma_skip_run(l, c + 1, vs);
    assert(value_end(l, vs, l.len() as int) == l.len());
    assert(l.subrange(vs, l.len() as int) =~= v);
}

} // verus!
