//! Header names, header values and the header map.
//!
//! A `HeaderMap` holds at most one entry per name, names being compared without regard to
//! ASCII case. Its model is the sequence of its entries, each a pair of byte sequences, in the
//! order in which the names first arrived.
use vstd::prelude::*;
use vstd::string::*;
use vstd::utf8::*;
use crate::text::{decode_str, eq_ignore_case, is_alnum, lower, string_bytes, to_lower, utf8_text, COMMA};

verus! {

/// Bytes allowed in a header name: ASCII letters, digits, `-`, `_` and `.`.
pub open spec fn valid_name_byte(b: u8) -> bool {
    is_alnum(b) || b == 45 || b == 95 || b == 46
}

pub open spec fn valid_header_name(s: Seq<u8>) -> bool {
    s.len() > 0 && forall|i: int| 0 <= i < s.len() ==> valid_name_byte(#[trigger] s[i])
}

/// The text of a byte sequence if it is valid UTF-8, else the empty text.
pub open spec fn text_or_empty(b: Seq<u8>) -> Seq<char> {
    match utf8_text(b) {
        Some(t) => t,
        None => Seq::empty(),
    }
}

fn empty_str() -> (r: &'static str)
    ensures
        r@ == Seq::<char>::empty(),
{
    proof {
        reveal_strlit("");
    }
    ""
}

/// The name of a header, as bytes.
#[derive(Debug, PartialEq, Eq, Hash)]
pub struct HeaderName(Vec<u8>);

impl View for HeaderName {
    type V = Seq<u8>;

    closed spec fn view(&self) -> Seq<u8> {
        self.0@
    }
}

impl Clone for HeaderName {
    fn clone(&self) -> (r: Self)
        ensures
            r@ == self@,
    {
        HeaderName(vstd::slice::slice_to_vec(self.0.as_slice()))
    }
}

impl HeaderName {
    /// A name made of the given bytes, if they are a valid header name.
    pub fn from_bytes(bytes: &[u8]) -> (r: Option<Self>)
        ensures
            r is Some <==> valid_header_name(bytes@),
            r matches Some(n) ==> n@ == bytes@,
    {
        if bytes.len() == 0 {
            return None;
        }
        let mut i: usize = 0;
        while i < bytes.len()
            invariant
                i <= bytes@.len(),
                forall|k: int| 0 <= k < i ==> valid_name_byte(#[trigger] bytes@[k]),
            decreases bytes@.len() - i,
        {
            if !Self::is_valid_header_byte(bytes[i]) {
                return None;
            }
            i = i + 1;
        }
        Some(HeaderName(vstd::slice::slice_to_vec(bytes)))
    }

    fn is_valid_header_byte(b: u8) -> (r: bool)
        ensures
            r == valid_name_byte(b),
    {
        (48 <= b && b <= 57) || (65 <= b && b <= 90) || (97 <= b && b <= 122) || b == 45 || b
            == 95 || b == 46
    }

    /// The name as text; empty when the bytes are not valid UTF-8.
    pub fn as_str(&self) -> (r: &str)
        ensures
            r@ == text_or_empty(self@),
    {
        match decode_str(self.0.as_slice()) {
            Some(s) => s,
            None => empty_str(),
        }
    }

    pub fn as_bytes(&self) -> (r: &[u8])
        ensures
            r@ == self@,
    {
        self.0.as_slice()
    }

    /// The name with ASCII letters made lowercase.
    pub fn to_lowercase(&self) -> (r: Self)
        ensures
            r@ == lower(self@),
    {
        HeaderName(to_lower(self.0.as_slice()))
    }
}

impl From<&str> for HeaderName {
    /// The bytes of the text, unchecked.
    fn from(s: &str) -> (r: Self)
        ensures
            r@ == s.spec_bytes(),
    {
        HeaderName(vstd::slice::slice_to_vec(s.as_bytes()))
    }
}

impl vstd::std_specs::convert::FromSpecImpl<&str> for HeaderName {
    open spec fn obeys_from_spec() -> bool {
        false
    }

    open spec fn from_spec(v: &str) -> HeaderName {
        vstd::pervasive::arbitrary()
    }
}

impl From<String> for HeaderName {
    fn from(s: String) -> (r: Self)
        ensures
            r@ == encode_utf8(s@),
    {
        HeaderName(string_bytes(&s))
    }
}

impl vstd::std_specs::convert::FromSpecImpl<String> for HeaderName {
    open spec fn obeys_from_spec() -> bool {
        false
    }

    open spec fn from_spec(v: String) -> HeaderName {
        vstd::pervasive::arbitrary()
    }
}

/// The value of a header, as bytes.
#[derive(Debug, PartialEq, Eq)]
pub struct HeaderValue(Vec<u8>);

impl View for HeaderValue {
    type V = Seq<u8>;

    closed spec fn view(&self) -> Seq<u8> {
        self.0@
    }
}

impl Clone for HeaderValue {
    fn clone(&self) -> (r: Self)
        ensures
            r@ == self@,
    {
        HeaderValue(vstd::slice::slice_to_vec(self.0.as_slice()))
    }
}

impl HeaderValue {
    pub fn from_bytes(bytes: &[u8]) -> (r: Self)
        ensures
            r@ == bytes@,
    {
        HeaderValue(vstd::slice::slice_to_vec(bytes))
    }

    #[allow(clippy::should_implement_trait)]
    pub fn from_str(s: &str) -> (r: Self)
        ensures
            r@ == s.spec_bytes(),
    {
        HeaderValue(vstd::slice::slice_to_vec(s.as_bytes()))
    }

    /// The value as text; empty when the bytes are not valid UTF-8.
    pub fn as_str(&self) -> (r: &str)
        ensures
            r@ == text_or_empty(self@),
    {
        match decode_str(self.0.as_slice()) {
            Some(s) => s,
            None => empty_str(),
        }
    }

    pub fn as_bytes(&self) -> (r: &[u8])
        ensures
            r@ == self@,
    {
        self.0.as_slice()
    }

    /// Appends a comma and then the other value.
    pub fn append(&mut self, other: HeaderValue)
        ensures
            final(self)@ == old(self)@ + seq![COMMA] + other@,
    {
        self.0.push(COMMA);
        let mut i: usize = 0;
        let ghost start = self.0@;
        while i < other.0.len()
            invariant
                i <= other@.len(),
                self.0@ =~= start + other@.subrange(0, i as int),
            decreases other@.len() - i,
        {
            self.0.push(other.0[i]);
            i = i + 1;
        }
        assert(other@.subrange(0, other@.len() as int) =~= other@);
    }

    pub fn is_empty(&self) -> (r: bool)
        ensures
            r == (self@.len() == 0),
    {
        self.0.len() == 0
    }

    pub fn len(&self) -> (r: usize)
        ensures
            r == self@.len(),
    {
        self.0.len()
    }
}

impl From<&str> for HeaderValue {
    fn from(s: &str) -> (r: Self)
        ensures
            r@ == s.spec_bytes(),
    {
        Self::from_str(s)
    }
}

impl vstd::std_specs::convert::FromSpecImpl<&str> for HeaderValue {
    open spec fn obeys_from_spec() -> bool {
        false
    }

    open spec fn from_spec(v: &str) -> HeaderValue {
        vstd::pervasive::arbitrary()
    }
}

impl From<String> for HeaderValue {
    fn from(s: String) -> (r: Self)
        ensures
            r@ == encode_utf8(s@),
    {
        HeaderValue(string_bytes(&s))
    }
}

impl vstd::std_specs::convert::FromSpecImpl<String> for HeaderValue {
    open spec fn obeys_from_spec() -> bool {
        false
    }

    open spec fn from_spec(v: String) -> HeaderValue {
        vstd::pervasive::arbitrary()
    }
}

/// Two names denote the same header when they agree up to ASCII case.
pub open spec fn same_name(a: Seq<u8>, b: Seq<u8>) -> bool {
    lower(a) == lower(b)
}

pub open spec fn distinct_names(e: Seq<(Seq<u8>, Seq<u8>)>) -> bool {
    forall|i: int, j: int|
        0 <= i < j < e.len() ==> !same_name(#[trigger] e[i].0, #[trigger] e[j].0)
}

pub open spec fn has_name(e: Seq<(Seq<u8>, Seq<u8>)>, n: Seq<u8>) -> bool {
    exists|i: int| 0 <= i < e.len() && same_name(#[trigger] e[i].0, n)
}

pub open spec fn name_index(e: Seq<(Seq<u8>, Seq<u8>)>, n: Seq<u8>) -> int {
    choose|i: int| 0 <= i < e.len() && same_name(#[trigger] e[i].0, n)
}

/// The value stored under a name.
pub open spec fn header_lookup(e: Seq<(Seq<u8>, Seq<u8>)>, n: Seq<u8>) -> Option<Seq<u8>> {
    if has_name(e, n) {
        Some(e[name_index(e, n)].1)
    } else {
        None
    }
}

/// Sets the value under a name: the stored name is kept if present, else the entry is added last.
pub open spec fn header_insert(e: Seq<(Seq<u8>, Seq<u8>)>, n: Seq<u8>, v: Seq<u8>) -> Seq<
    (Seq<u8>, Seq<u8>),
> {
    if has_name(e, n) {
        let i = name_index(e, n);
        e.update(i, (e[i].0, v))
    } else {
        e.push((n, v))
    }
}

/// Adds a value under a name: joined to a present value by a comma, else added last.
pub open spec fn header_append(e: Seq<(Seq<u8>, Seq<u8>)>, n: Seq<u8>, v: Seq<u8>) -> Seq<
    (Seq<u8>, Seq<u8>),
> {
    if has_name(e, n) {
        let i = name_index(e, n);
        e.update(i, (e[i].0, e[i].1 + seq![COMMA] + v))
    } else {
        e.push((n, v))
    }
}

pub open spec fn header_remove(e: Seq<(Seq<u8>, Seq<u8>)>, n: Seq<u8>) -> Seq<
    (Seq<u8>, Seq<u8>),
> {
    if has_name(e, n) {
        e.remove(name_index(e, n))
    } else {
        e
    }
}

/// Appends every entry of `other`, in order.
pub open spec fn header_extend(e: Seq<(Seq<u8>, Seq<u8>)>, other: Seq<(Seq<u8>, Seq<u8>)>) -> Seq<
    (Seq<u8>, Seq<u8>),
>
    decreases other.len(),
{
    if other.len() == 0 {
        e
    } else {
        let prev = header_extend(e, other.drop_last());
        header_append(prev, other.last().0, other.last().1)
    }
}

/// Under distinct names, the entry that carries a name is unique.
pub proof fn lemma_name_index(e: Seq<(Seq<u8>, Seq<u8>)>, n: Seq<u8>, i: int)
    requires
        distinct_names(e),
        0 <= i < e.len(),
        same_name(e[i].0, n),
    ensures
        has_name(e, n),
        name_index(e, n) == i,
        header_lookup(e, n) == Some(e[i].1),
{
    let j = name_index(e, n);
    assert(0 <= j < e.len() && same_name(e[j].0, n));
    if j < i {
        assert(!same_name(e[j].0, e[i].0));
    } else if i < j {
        assert(!same_name(e[i].0, e[j].0));
    }
}

pub proof fn lemma_insert_distinct(e: Seq<(Seq<u8>, Seq<u8>)>, n: Seq<u8>, v: Seq<u8>)
    requires
        distinct_names(e),
    ensures
        distinct_names(header_insert(e, n, v)),
        distinct_names(header_append(e, n, v)),
        distinct_names(header_remove(e, n)),
{
    if has_name(e, n) {
        let i = name_index(e, n);
        let a = header_insert(e, n, v);
        assert forall|x: int, y: int| 0 <= x < y < a.len() implies !same_name(
            #[trigger] a[x].0,
            #[trigger] a[y].0,
        ) by {
            assert(a[x].0 == e[x].0);
            assert(a[y].0 == e[y].0);
        }
        let b = header_append(e, n, v);
        assert forall|x: int, y: int| 0 <= x < y < b.len() implies !same_name(
            #[trigger] b[x].0,
            #[trigger] b[y].0,
        ) by {
            assert(b[x].0 == e[x].0);
            assert(b[y].0 == e[y].0);
        }
        let c = header_remove(e, n);
        assert forall|x: int, y: int| 0 <= x < y < c.len() implies !same_name(
            #[trigger] c[x].0,
            #[trigger] c[y].0,
        ) by {
            let x0 = if x < i {
                x
            } else {
                x + 1
            };
            let y0 = if y < i {
                y
            } else {
                y + 1
            };
            assert(c[x] == e[x0]);
            assert(c[y] == e[y0]);
            assert(x0 < y0);
        }
    } else {
        let a = e.push((n, v));
        assert forall|x: int, y: int| 0 <= x < y < a.len() implies !same_name(
            #[trigger] a[x].0,
            #[trigger] a[y].0,
        ) by {
            if y == e.len() {
                assert(a[x] == e[x]);
                assert(!same_name(e[x].0, n));
            } else {
                assert(a[x] == e[x]);
                assert(a[y] == e[y]);
            }
        }
    }
}

pub proof fn lemma_extend_distinct(e: Seq<(Seq<u8>, Seq<u8>)>, other: Seq<(Seq<u8>, Seq<u8>)>)
    requires
        distinct_names(e),
    ensures
        distinct_names(header_extend(e, other)),
    decreases other.len(),
{
    if other.len() > 0 {
        lemma_extend_distinct(e, other.drop_last());
        lemma_insert_distinct(header_extend(e, other.drop_last()), other.last().0, other.last().1);
    }
}

/// A map holds a name exactly when a lookup of it finds a value.
pub proof fn lemma_contains_iff_lookup(e: Seq<(Seq<u8>, Seq<u8>)>, n: Seq<u8>)
    ensures
        has_name(e, n) <==> header_lookup(e, n) is Some,
{
}

/// A value inserted under a name is what a lookup of that name, in any ASCII case, gives back.
pub proof fn lemma_insert_then_lookup(
    e: Seq<(Seq<u8>, Seq<u8>)>,
    n: Seq<u8>,
    m: Seq<u8>,
    v: Seq<u8>,
)
    requires
        distinct_names(e),
        same_name(n, m),
    ensures
        header_lookup(header_insert(e, n, v), m) == Some(v),
{
    lemma_insert_distinct(e, n, v);
    let a = header_insert(e, n, v);
    if has_name(e, n) {
        let i = name_index(e, n);
        lemma_name_index(a, m, i);
    } else {
        lemma_name_index(a, m, e.len() as int);
    }
}

/// Inserting under one name leaves the value under every other name as it was.
pub proof fn lemma_insert_keeps_others(
    e: Seq<(Seq<u8>, Seq<u8>)>,
    n: Seq<u8>,
    m: Seq<u8>,
    v: Seq<u8>,
)
    requires
        distinct_names(e),
        !same_name(n, m),
    ensures
        header_lookup(header_insert(e, n, v), m) == header_lookup(e, m),
{
    lemma_insert_distinct(e, n, v);
    let a = header_insert(e, n, v);
    if has_name(e, m) {
        let j = name_index(e, m);
        lemma_name_index(e, m, j);
        lemma_name_index(a, m, j);
    } else if has_name(a, m) {
        let j = name_index(a, m);
        if j < e.len() {
            assert(a[j].0 == e[j].0);
        }
    }
}

/// After a name is removed, no value is found under it, in any ASCII case.
pub proof fn lemma_remove_then_lookup(e: Seq<(Seq<u8>, Seq<u8>)>, n: Seq<u8>, m: Seq<u8>)
    requires
        distinct_names(e),
        same_name(n, m),
    ensures
        header_lookup(header_remove(e, n), m) is None,
{
    if has_name(e, n) {
        let i = name_index(e, n);
        let c = header_remove(e, n);
        if has_name(c, m) {
            let j = name_index(c, m);
            let j0 = if j < i {
                j
            } else {
                j + 1
            };
            assert(c[j] == e[j0]);
            if j0 < i {
                assert(!same_name(e[j0].0, e[i].0));
            } else {
                assert(!same_name(e[i].0, e[j0].0));
            }
        }
    }
}

/// Removing one name leaves the value under every other name as it was.
pub proof fn lemma_remove_keeps_others(e: Seq<(Seq<u8>, Seq<u8>)>, n: Seq<u8>, m: Seq<u8>)
    requires
        distinct_names(e),
        !same_name(n, m),
    ensures
        header_lookup(header_remove(e, n), m) == header_lookup(e, m),
{
    lemma_insert_distinct(e, n, Seq::empty());
    if has_name(e, n) {
        let i = name_index(e, n);
        let c = header_remove(e, n);
        if has_name(e, m) {
            let j = name_index(e, m);
            lemma_name_index(e, m, j);
            assert(j != i);
            let jc = if j < i {
                j
            } else {
                j - 1
            };
            assert(c[jc] == e[j]);
            lemma_name_index(c, m, jc);
        } else if has_name(c, m) {
            let j = name_index(c, m);
            let j0 = if j < i {
                j
            } else {
                j + 1
            };
            assert(c[j] == e[j0]);
        }
    }
}

/// Appending under a name joins the new value to the one present with a comma, or stores it
/// alone when none is present.
pub proof fn lemma_append_then_lookup(e: Seq<(Seq<u8>, Seq<u8>)>, n: Seq<u8>, v: Seq<u8>)
    requires
        distinct_names(e),
    ensures
        header_lookup(header_append(e, n, v), n) == Some(
            match header_lookup(e, n) {
                Some(old) => old + seq![COMMA] + v,
                None => v,
            },
        ),
{
    lemma_insert_distinct(e, n, v);
    let b = header_append(e, n, v);
    if has_name(e, n) {
        let i = name_index(e, n);
        lemma_name_index(b, n, i);
    } else {
        lemma_name_index(b, n, e.len() as int);
    }
}

/// Appending under one name leaves the value under every other name as it was.
pub proof fn lemma_append_keeps_others(
    e: Seq<(Seq<u8>, Seq<u8>)>,
    n: Seq<u8>,
    m: Seq<u8>,
    v: Seq<u8>,
)
    requires
        distinct_names(e),
        !same_name(n, m),
    ensures
        header_lookup(header_append(e, n, v), m) == header_lookup(e, m),
{
    lemma_insert_distinct(e, n, v);
    let a = header_append(e, n, v);
    if has_name(e, m) {
        let j = name_index(e, m);
        lemma_name_index(e, m, j);
        lemma_name_index(a, m, j);
    } else if has_name(a, m) {
        let j = name_index(a, m);
        if j < e.len() {
            assert(a[j].0 == e[j].0);
        }
    }
}

/// Extending a map by another appends each of the other's values under its name: a name held
/// by one map alone keeps its value, and a name held by both gets the two values joined by a
/// comma.
pub proof fn lemma_extend_lookup(
    e: Seq<(Seq<u8>, Seq<u8>)>,
    other: Seq<(Seq<u8>, Seq<u8>)>,
    n: Seq<u8>,
)
    requires
        distinct_names(e),
        distinct_names(other),
    ensures
        header_lookup(header_extend(e, other), n) == match (
            header_lookup(e, n),
            header_lookup(other, n),
        ) {
            (Some(a), Some(b)) => Some(a + seq![COMMA] + b),
            (Some(a), None) => Some(a),
            (None, Some(b)) => Some(b),
            (None, None) => None::<Seq<u8>>,
        },
    decreases other.len(),
{
    if other.len() > 0 {
        let rest = other.drop_last();
        let (l0, l1) = other.last();
        assert(distinct_names(rest)) by {
            assert forall|x: int, y: int| 0 <= x < y < rest.len() implies !same_name(
                #[trigger] rest[x].0,
                #[trigger] rest[y].0,
            ) by {
                assert(rest[x] == other[x] && rest[y] == other[y]);
            }
        }
        lemma_extend_lookup(e, rest, n);
        lemma_extend_distinct(e, rest);
        let prev = header_extend(e, rest);
        let last = other.len() - 1;
        if same_name(l0, n) {
            lemma_name_index(other, n, last);
            if has_name(rest, n) {
                let j = name_index(rest, n);
                assert(rest[j] == other[j]);
                assert(!same_name(other[j].0, other[last].0));
            }
            lemma_append_then_lookup(prev, l0, l1);
            if has_name(prev, n) {
                let i = name_index(prev, n);
                lemma_name_index(prev, l0, i);
            }
            let after = header_append(prev, l0, l1);
            lemma_insert_distinct(prev, l0, l1);
            if has_name(after, l0) {
                let i = name_index(after, l0);
                lemma_name_index(after, n, i);
            }
        } else {
            lemma_append_keeps_others(prev, l0, n, l1);
            if has_name(other, n) {
                let j = name_index(other, n);
                assert(j < last);
                assert(rest[j] == other[j]);
                lemma_name_index(rest, n, j);
            } else if has_name(rest, n) {
                let j = name_index(rest, n);
                assert(rest[j] == other[j]);
            }
        }
    } else {
        assert(header_lookup(other, n) is None);
    }
}

/// A map from header names to values, with names compared up to ASCII case.
#[derive(Debug)]
pub struct HeaderMap {
    entries: Vec<(HeaderName, HeaderValue)>,
}

impl View for HeaderMap {
    type V = Seq<(Seq<u8>, Seq<u8>)>;

    closed spec fn view(&self) -> Seq<(Seq<u8>, Seq<u8>)> {
        self.entries@.map_values(|p: (HeaderName, HeaderValue)| (p.0@, p.1@))
    }
}

impl Clone for HeaderMap {
    fn clone(&self) -> (r: Self)
        ensures
            r@ == self@,
    {
        proof {
            use_type_invariant(self);
        }
        let mut entries: Vec<(HeaderName, HeaderValue)> = Vec::with_capacity(self.entries.len());
        let mut i: usize = 0;
        while i < self.entries.len()
            invariant
                i <= self.entries@.len(),
                entries@.len() == i,
                entries@.map_values(|p: (HeaderName, HeaderValue)| (p.0@, p.1@)) =~= self@.subrange(
                    0,
                    i as int,
                ),
            decreases self.entries@.len() - i,
        {
            let n = self.entries[i].0.clone();
            let v = self.entries[i].1.clone();
            let ghost nv = (n@, v@);
            let ghost before = entries@;
            entries.push((n, v));
            assert(entries@ == before.push(entries@[i as int]));
            assert(self@[i as int] == (self.entries@[i as int].0@, self.entries@[i as int].1@));
            assert((entries@[i as int].0@, entries@[i as int].1@) == nv);
            assert(entries@.map_values(|p: (HeaderName, HeaderValue)| (p.0@, p.1@)) =~= self@.subrange(0, i + 1));
            i = i + 1;
        }
        assert(self@.subrange(0, self@.len() as int) =~= self@);
        HeaderMap { entries }
    }
}

impl Default for HeaderMap {
    fn default() -> (r: Self)
        ensures
            r@ == Seq::<(Seq<u8>, Seq<u8>)>::empty(),
    {
        Self::new()
    }
}

impl HeaderMap {
    /// Every header map holds pairwise distinct names.
    #[verifier::type_invariant]
    pub open spec fn wf(self) -> bool {
        distinct_names(self@)
    }

    pub fn new() -> (r: Self)
        ensures
            r@ == Seq::<(Seq<u8>, Seq<u8>)>::empty(),
    {
        let r = HeaderMap { entries: Vec::new() };
        assert(r@ =~= Seq::<(Seq<u8>, Seq<u8>)>::empty());
        r
    }

    pub fn with_capacity(capacity: usize) -> (r: Self)
        ensures
            r@ == Seq::<(Seq<u8>, Seq<u8>)>::empty(),
    {
        let r = HeaderMap { entries: Vec::with_capacity(capacity) };
        assert(r@ =~= Seq::<(Seq<u8>, Seq<u8>)>::empty());
        r
    }

    /// Index of the entry whose name agrees with `name` up to ASCII case.
    fn find(&self, name: &[u8]) -> (r: Option<usize>)
        ensures
            r is None <==> !has_name(self@, name@),
            r matches Some(i) ==> i < self@.len() && i == name_index(self@, name@) && same_name(
                self@[i as int].0,
                name@,
            ),
    {
        proof {
            use_type_invariant(self);
        }
        let mut i: usize = 0;
        while i < self.entries.len()
            invariant
                i <= self@.len(),
                self@.len() == self.entries@.len(),
                distinct_names(self@),
                forall|k: int| 0 <= k < i ==> !same_name(#[trigger] self@[k].0, name@),
            decreases self@.len() - i,
        {
            if eq_ignore_case(self.entries[i].0.as_bytes(), name) {
                proof {
                    assert(self@[i as int].0 == self.entries@[i as int].0@);
                    lemma_name_index(self@, name@, i as int);
                }
                return Some(i);
            }
            assert(self@[i as int].0 == self.entries@[i as int].0@);
            i = i + 1;
        }
        None
    }

    /// Sets the value under `name` and returns the value it replaced.
    pub fn insert(&mut self, name: HeaderName, value: HeaderValue) -> (r: Option<HeaderValue>)
        ensures
            final(self)@ == header_insert(old(self)@, name@, value@),
            match header_lookup(old(self)@, name@) {
                Some(v) => r matches Some(x) && x@ == v,
                None => r is None,
            },
    {
        proof {
            use_type_invariant(&*self);
            lemma_insert_distinct(self@, name@, value@);
        }
        let ghost old_view = self@;
        let idx = self.find(name.as_bytes());
        let mut entries: Vec<(HeaderName, HeaderValue)> = Vec::new();
        std::mem::swap(&mut entries, &mut self.entries);
        assert(entries@.map_values(|p: (HeaderName, HeaderValue)| (p.0@, p.1@)) == old_view);
        match idx {
            Some(i) => {
                let (n0, v0) = entries.remove(i);
                entries.insert(i, (n0, value));
                assert(entries@.map_values(|p: (HeaderName, HeaderValue)| (p.0@, p.1@)) =~= header_insert(old_view, name@, value@));
                self.entries = entries;
                Some(v0)
            },
            None => {
                entries.push((name, value));
                assert(entries@.map_values(|p: (HeaderName, HeaderValue)| (p.0@, p.1@)) =~= header_insert(old_view, name@, value@));
                self.entries = entries;
                None
            },
        }
    }

    /// Adds a value under `name`, joined by a comma to a value already there.
    pub fn append(&mut self, name: HeaderName, value: HeaderValue)
        ensures
            final(self)@ == header_append(old(self)@, name@, value@),
    {
        proof {
            use_type_invariant(&*self);
            lemma_insert_distinct(self@, name@, value@);
        }
        let ghost old_view = self@;
        let idx = self.find(name.as_bytes());
        let mut entries: Vec<(HeaderName, HeaderValue)> = Vec::new();
        std::mem::swap(&mut entries, &mut self.entries);
        assert(entries@.map_values(|p: (HeaderName, HeaderValue)| (p.0@, p.1@)) == old_view);
        match idx {
            Some(i) => {
                let (n0, mut v0) = entries.remove(i);
                v0.append(value);
                entries.insert(i, (n0, v0));
                assert(entries@.map_values(|p: (HeaderName, HeaderValue)| (p.0@, p.1@)) =~= header_append(old_view, name@, value@));
                self.entries = entries;
            },
            None => {
                entries.push((name, value));
                assert(entries@.map_values(|p: (HeaderName, HeaderValue)| (p.0@, p.1@)) =~= header_append(old_view, name@, value@));
                self.entries = entries;
            },
        }
    }

    /// The value stored under `name`.
    pub fn get(&self, name: &HeaderName) -> (r: Option<&HeaderValue>)
        ensures
            match header_lookup(self@, name@) {
                Some(v) => r matches Some(x) && x@ == v,
                None => r is None,
            },
    {
        match self.find(name.as_bytes()) {
            Some(i) => {
                assert(self@[i as int].1 == self.entries@[i as int].1@);
                Some(&self.entries[i].1)
            },
            None => None,
        }
    }

    /// Removes the entry under `name` and returns its value.
    pub fn remove(&mut self, name: &HeaderName) -> (r: Option<HeaderValue>)
        ensures
            final(self)@ == header_remove(old(self)@, name@),
            match header_lookup(old(self)@, name@) {
                Some(v) => r matches Some(x) && x@ == v,
                None => r is None,
            },
    {
        proof {
            use_type_invariant(&*self);
            lemma_insert_distinct(self@, name@, Seq::empty());
        }
        let ghost old_view = self@;
        let idx = self.find(name.as_bytes());
        match idx {
            Some(i) => {
                let mut entries: Vec<(HeaderName, HeaderValue)> = Vec::new();
                std::mem::swap(&mut entries, &mut self.entries);
                assert(entries@.map_values(|p: (HeaderName, HeaderValue)| (p.0@, p.1@))
                    == old_view);
                let (_n0, v0) = entries.remove(i);
                assert(entries@.map_values(|p: (HeaderName, HeaderValue)| (p.0@, p.1@)) =~= header_remove(old_view, name@));
                self.entries = entries;
                Some(v0)
            },
            None => None,
        }
    }

    /// The entries, in order.
    pub fn iter(&self) -> (r: std::slice::Iter<'_, (HeaderName, HeaderValue)>)
        ensures
            vstd::std_specs::iter::IteratorSpec::remaining(&r).map_values(|p: &(HeaderName, HeaderValue)| (p.0@, p.1@)) == self@,
    {
        let s = self.entries.as_slice();
        let r = s.iter();
        assert(vstd::std_specs::iter::IteratorSpec::remaining(&r).map_values(|p: &(HeaderName, HeaderValue)| (p.0@, p.1@)) =~= self@);
        r
    }

    /// The entries, in order, as a slice.
    pub fn as_slice(&self) -> (r: &[(HeaderName, HeaderValue)])
        ensures
            r@.map_values(|p: (HeaderName, HeaderValue)| (p.0@, p.1@)) == self@,
    {
        self.entries.as_slice()
    }

    pub fn len(&self) -> (r: usize)
        ensures
            r == self@.len(),
    {
        self.entries.len()
    }

    pub fn is_empty(&self) -> (r: bool)
        ensures
            r == (self@.len() == 0),
    {
        self.entries.len() == 0
    }

    pub fn contains(&self, name: &HeaderName) -> (r: bool)
        ensures
            r == has_name(self@, name@),
    {
        self.find(name.as_bytes()).is_some()
    }

    /// Appends every entry of `other`, in order.
    pub fn extend(&mut self, other: HeaderMap)
        ensures
            final(self)@ == header_extend(old(self)@, other@),
    {
        let mut i: usize = 0;
        let n = other.entries.len();
        while i < n
            invariant
                n == other@.len(),
                n == other.entries@.len(),
                i <= n,
                self@ == header_extend(old(self)@, other@.subrange(0, i as int)),
            decreases n - i,
        {
            let name = other.entries[i].0.clone();
            let value = other.entries[i].1.clone();
            assert(other@[i as int] == (name@, value@));
            self.append(name, value);
            assert(other@.subrange(0, i + 1).drop_last() =~= other@.subrange(0, i as int));
            i = i + 1;
        }
        assert(other@.subrange(0, n as int) =~= other@);
    }
}

} // verus!
