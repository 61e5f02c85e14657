//! What a request carries: its head as parsed from the wire, header lookup,
//! query strings and Basic credentials.

use vstd::prelude::*;
use vstd::utf8::*;
use crate::text::{
    eq_ignore_case, has_prefix, hex_value, lemma_cut_at_ascii, same_ignoring_case, starts_with,
    str_eq, text_of, utf8,
};

verus! {

/// One `name=value` pair of a query string, percent-decoded.
#[derive(Clone, Debug, PartialEq, Eq)]
pub struct Query {
    pub field: String,
    pub value: String,
}

pub struct QueryView {
    pub field: Seq<char>,
    pub value: Seq<char>,
}

impl View for Query {
    type V = QueryView;

    open spec fn view(&self) -> QueryView {
        QueryView { field: self.field@, value: self.value@ }
    }
}

/// One header line: its name and the bytes of its value.
#[derive(Clone, Debug, PartialEq, Eq)]
pub struct Header {
    pub name: String,
    pub value: Vec<u8>,
}

pub struct HeaderView {
    pub name: Seq<char>,
    pub value: Seq<u8>,
}

impl View for Header {
    type V = HeaderView;

    open spec fn view(&self) -> HeaderView {
        HeaderView { name: self.name@, value: self.value@ }
    }
}

/// The views of a list of headers, in order.
pub open spec fn header_views(headers: Seq<Header>) -> Seq<HeaderView> {
    headers.map_values(|h: Header| h@)
}

/// The views of a list of queries, in order.
pub open spec fn query_views(queries: Seq<Query>) -> Seq<QueryView> {
    queries.map_values(|q: Query| q@)
}

/// The characters of an optional text.
pub open spec fn opt_text(o: Option<String>) -> Option<Seq<char>> {
    match o {
        Some(s) => Some(s@),
        None => None,
    }
}

/// The offset of the first `b` in `s`, or the length of `s` where there is none.
pub open spec fn index_of(s: Seq<u8>, b: u8) -> int
    decreases s.len(),
{
    if s.len() == 0 {
        0
    } else if s[0] == b {
        0
    } else {
        1 + index_of(s.drop_first(), b)
    }
}

pub proof fn lemma_index_of(s: Seq<u8>, b: u8)
    ensures
        0 <= index_of(s, b) <= s.len(),
        forall|k: int| 0 <= k < index_of(s, b) ==> s[k] != b,
        index_of(s, b) < s.len() ==> s[index_of(s, b)] == b,
    decreases s.len(),
{
    if s.len() != 0 && s[0] != b {
        let t = s.drop_first();
        lemma_index_of(t, b);
        assert forall|k: int| 0 <= k < index_of(s, b) implies s[k] != b by {
            if k > 0 {
                assert(s[k] == t[k - 1]);
            }
        }
    }
}

/// The offset of the first `b` in `s`, or the length of `s` where there is none.
pub fn position(s: &[u8], b: u8) -> (r: usize)
    ensures
        r == index_of(s@, b),
{
    let mut i: usize = 0;
    assert(s@.skip(0) =~= s@);
    while i < s.len() && s[i] != b
        invariant
            i <= s.len(),
            index_of(s@, b) == i + index_of(s@.skip(i as int), b),
        decreases s.len() - i,
    {
        proof {
            let t = s@.skip(i as int);
            assert(t[0] == s@[i as int]);
            assert(t.drop_first() =~= s@.skip(i + 1));
        }
        i += 1;
    }
    proof {
        let t = s@.skip(i as int);
        if i < s.len() {
            assert(t[0] == s@[i as int]);
        }
    }
    i
}

/// The value of the first header named `key`, letter case aside.
pub open spec fn header_value(headers: Seq<HeaderView>, key: Seq<char>) -> Option<Seq<u8>>
    decreases headers.len(),
{
    if headers.len() == 0 {
        None
    } else if same_ignoring_case(utf8(headers[0].name), utf8(key)) {
        Some(headers[0].value)
    } else {
        header_value(headers.drop_first(), key)
    }
}

/// The value of the first header named `key`, letter case aside.
pub fn get_header<'a>(key: &str, headers: &'a [Header]) -> (r: Option<&'a [u8]>)
    ensures
        match r {
            Some(v) => header_value(header_views(headers@), key@) == Some(v@),
            None => header_value(header_views(headers@), key@) is None,
        },
{
    let ghost all = header_views(headers@);
    let mut i: usize = 0;
    assert(all.skip(0) =~= all);
    while i < headers.len()
        invariant
            i <= headers.len(),
            all == header_views(headers@),
            header_value(all, key@) == header_value(all.skip(i as int), key@),
        decreases headers.len() - i,
    {
        proof {
            let t = all.skip(i as int);
            assert(t[0] == headers@[i as int]@);
            assert(t.drop_first() =~= all.skip(i + 1));
        }
        if eq_ignore_case(headers[i].name.as_str().as_bytes(), key.as_bytes()) {
            return Some(headers[i].value.as_slice());
        }
        i += 1;
    }
    None
}

/// The value of the last query named `key`.
pub open spec fn query_value(queries: Seq<QueryView>, key: Seq<char>) -> Option<Seq<char>>
    decreases queries.len(),
{
    if queries.len() == 0 {
        None
    } else if queries.last().field == key {
        Some(queries.last().value)
    } else {
        query_value(queries.drop_last(), key)
    }
}

/// For each key, the value of the last query of that name, if there is one.
pub fn get_queries_for(keys: Vec<&str>, queries: &[Query]) -> (r: Vec<Option<String>>)
    ensures
        r@.len() == keys@.len(),
        forall|i: int|
            0 <= i < keys@.len() ==> opt_text(#[trigger] r@[i]) == query_value(
                query_views(queries@),
                keys@[i]@,
            ),
{
    let ghost all = query_views(queries@);
    let mut results: Vec<Option<String>> = Vec::new();
    let mut i: usize = 0;
    while i < keys.len()
        invariant
            i <= keys.len(),
            results@.len() == i,
            all == query_views(queries@),
            forall|k: int|
                0 <= k < i ==> opt_text(#[trigger] results@[k]) == query_value(all, keys@[k]@),
        decreases keys.len() - i,
    {
        let mut found: Option<String> = None;
        let mut j: usize = 0;
        while j < queries.len()
            invariant
                j <= queries.len(),
                i < keys.len(),
                all == query_views(queries@),
                opt_text(found) == query_value(all.take(j as int), keys@[i as int]@),
            decreases queries.len() - j,
        {
            proof {
                let t = all.take(j + 1);
                assert(t.last() == queries@[j as int]@);
                assert(t.drop_last() =~= all.take(j as int));
            }
            if str_eq(queries[j].field.as_str(), keys[i]) {
                found = Some(queries[j].value.clone());
            }
            j += 1;
        }
        assert(all.take(j as int) =~= all);
        results.push(found);
        i += 1;
    }
    results
}

/// A segment of a query string with each `+` turned into a space.
pub open spec fn plus_as_space(s: Seq<u8>) -> Seq<u8> {
    Seq::new(s.len(), |i: int| if s[i] == 43 { 32u8 } else { s[i] })
}

/// Percent-decoding: each `%` followed by two hexadecimal digits stands for
/// the byte they denote; every other byte stands for itself.
pub open spec fn percent_decoded(s: Seq<u8>) -> Seq<u8>
    decreases s.len(),
{
    if s.len() == 0 {
        s
    } else if s[0] == 37 && s.len() >= 3 && hex_value(s[1]) is Some && hex_value(s[2]) is Some {
        seq![(hex_value(s[1])->0 * 16 + hex_value(s[2])->0) as u8] + percent_decoded(s.skip(3))
    } else {
        seq![s[0]] + percent_decoded(s.skip(1))
    }
}

/// The query that one `&`-separated segment denotes: none where it has no
/// `=`, or where the name or the value does not decode to UTF-8.
pub open spec fn query_of(segment: Seq<u8>) -> Option<QueryView> {
    let s = plus_as_space(segment);
    let eq = index_of(s, 61);
    let field = percent_decoded(s.take(eq));
    let value = percent_decoded(s.skip(eq + 1));
    if eq < s.len() && valid_utf8(field) && valid_utf8(value) {
        Some(QueryView { field: decode_utf8(field), value: decode_utf8(value) })
    } else {
        None
    }
}

/// The queries of a query string: those of its `&`-separated segments, in order.
pub open spec fn queries_of(s: Seq<u8>) -> Seq<QueryView>
    decreases s.len(),
{
    let amp = index_of(s, 38);
    let head = match query_of(s.take(amp)) {
        Some(q) => seq![q],
        None => Seq::empty(),
    };
    if amp < 0 || amp >= s.len() {
        head
    } else {
        head + queries_of(s.skip(amp + 1))
    }
}

/// The path of a request target: what stands before its first `?`.
pub open spec fn path_of(target: Seq<u8>) -> Seq<u8> {
    target.take(index_of(target, 63))
}

/// The queries of a request target, where it has a `?`.
pub open spec fn target_queries(target: Seq<u8>) -> Option<Seq<QueryView>> {
    let q = index_of(target, 63);
    if q < target.len() {
        Some(queries_of(target.skip(q + 1)))
    } else {
        None
    }
}

/// `decode_binary` of urlencoding: the percent-decoding of `data`, in which
/// a `%` that two hexadecimal digits do not follow is kept as it is.
#[verifier::external_body]
pub(crate) fn percent_decode(data: &[u8]) -> (r: Vec<u8>)
    ensures
        r@ == percent_decoded(data@),
{
    urlencoding::decode_binary(data).into_owned()
}

/// The query that one segment of a query string denotes.
pub fn parse_query(segment: &[u8]) -> (r: Option<Query>)
    ensures
        match r {
            Some(q) => query_of(segment@) == Some(q@),
            None => query_of(segment@) is None,
        },
{
    let mut s: Vec<u8> = Vec::new();
    let mut i: usize = 0;
    while i < segment.len()
        invariant
            i <= segment.len(),
            s@ == plus_as_space(segment@).take(i as int),
        decreases segment.len() - i,
    {
        let b: u8 = if segment[i] == 43 {
            32
        } else {
            segment[i]
        };
        s.push(b);
        assert(s@ =~= plus_as_space(segment@).take(i + 1));
        i += 1;
    }
    assert(s@ =~= plus_as_space(segment@));
    let eq = position(s.as_slice(), 61);
    proof {
        lemma_index_of(s@, 61);
    }
    if eq >= s.len() {
        return None;
    }
    let field = percent_decode(&s[0..eq]);
    let value = percent_decode(&s[eq + 1..s.len()]);
    assert(s@.subrange(0, eq as int) =~= s@.take(eq as int));
    assert(s@.subrange(eq + 1, s@.len() as int) =~= s@.skip(eq + 1));
    match (text_of(field.as_slice()), text_of(value.as_slice())) {
        (Some(field), Some(value)) => {
            proof {
                encode_utf8_decode_utf8(field@);
                encode_utf8_decode_utf8(value@);
            }
            Some(Query { field, value })
        },
        _ => None,
    }
}

/// Splits a request target at its first `?` into the path and, where there
/// is a `?`, the queries that follow it.
pub fn extract_queries(url: &str) -> (r: (String, Option<Vec<Query>>))
    ensures
        utf8(r.0@) == path_of(utf8(url@)),
        match r.1 {
            Some(q) => target_queries(utf8(url@)) == Some(query_views(q@)),
            None => target_queries(utf8(url@)) is None,
        },
{
    let bytes = url.as_bytes();
    let q = position(bytes, 63);
    proof {
        lemma_index_of(bytes@, 63);
        encode_utf8_valid_utf8(url@);
        assert(bytes@.subrange(0, q as int) =~= bytes@.take(q as int));
        if q < bytes.len() {
            lemma_cut_at_ascii(bytes@, q as int);
        } else {
            assert(bytes@.take(q as int) =~= bytes@);
        }
    }
    let path = match text_of(&bytes[0..q]) {
        Some(p) => p,
        None => String::new(),
    };
    if q >= bytes.len() {
        return (path, None);
    }
    let rest = &bytes[q + 1..bytes.len()];
    assert(rest@ =~= bytes@.skip(q + 1));
    let mut queries: Vec<Query> = Vec::new();
    let mut pos: usize = 0;
    assert(rest@.skip(0) =~= rest@);
    assert(query_views(queries@) + queries_of(rest@) =~= queries_of(rest@));
    loop
        invariant
            pos <= rest.len(),
            utf8(path@) == path_of(utf8(url@)),
            target_queries(utf8(url@)) == Some(queries_of(rest@)),
            query_views(queries@) + queries_of(rest@.skip(pos as int)) == queries_of(rest@),
        decreases rest.len() - pos,
    {
        let tail = &rest[pos..rest.len()];
        assert(tail@ =~= rest@.skip(pos as int));
        let amp = position(tail, 38);
        proof {
            lemma_index_of(tail@, 38);
        }
        let segment = &tail[0..amp];
        assert(segment@ =~= tail@.take(amp as int));
        let ghost before = query_views(queries@);
        match parse_query(segment) {
            Some(query) => {
                queries.push(query);
                assert(query_views(queries@) =~= before + seq![query@]);
            },
            None => {},
        }
        if amp >= tail.len() {
            assert(query_views(queries@) =~= queries_of(rest@));
            return (path, Some(queries));
        }
        proof {
            assert(tail@.skip(amp + 1) =~= rest@.skip(pos + amp + 1));
            let head = match query_of(tail@.take(amp as int)) {
                Some(q) => seq![q],
                None => Seq::empty(),
            };
            assert(query_views(queries@) =~= before + head);
            assert(before + (head + queries_of(tail@.skip(amp + 1))) =~= (before + head)
                + queries_of(tail@.skip(amp + 1)));
        }
        pos = pos + amp + 1;
    }
}

/// A symbol of the base64 alphabet.
pub open spec fn is_base64_symbol(b: u8) -> bool {
    (65 <= b <= 90) || (97 <= b <= 122) || (48 <= b <= 57) || b == 43 || b == 47
}

/// How many `=` end a base64 text: none, one or two.
pub open spec fn base64_padding(s: Seq<u8>) -> int {
    if s.len() >= 1 && s[s.len() - 1] == 61 {
        if s.len() >= 2 && s[s.len() - 2] == 61 {
            2
        } else {
            1
        }
    } else {
        0
    }
}

/// Groups of four base64 symbols, the last of which may end in one or two `=`.
pub open spec fn is_base64_text(s: Seq<u8>) -> bool {
    &&& s.len() % 4 == 0
    &&& forall|i: int| 0 <= i < s.len() - base64_padding(s) ==> is_base64_symbol(#[trigger] s[i])
}

/// The bytes that a base64 text stands for, where the decoder accepts it.
pub uninterp spec fn base64_decoded(text: Seq<u8>) -> Option<Seq<u8>>;

/// The bytes of an optional buffer.
pub open spec fn opt_bytes(o: Option<Vec<u8>>) -> Option<Seq<u8>> {
    match o {
        Some(v) => Some(v@),
        None => None,
    }
}

/// `decode` of base64, with the standard alphabet and padding: the bytes
/// that `text` stands for, or nothing where the decoder refuses it. The
/// crate panics where the length of `text` and seven more do not fit the
/// machine.
#[verifier::external_body]
pub(crate) fn base64_decode(text: &[u8]) -> (r: Option<Vec<u8>>)
    requires
        text@.len() + 7 <= usize::MAX,
    ensures
        opt_bytes(r) == base64_decoded(text@),
{
    base64::decode(text).ok()
}

/// The base64 text of an `Authorization` value of the Basic scheme.
pub open spec fn basic_payload(value: Seq<u8>) -> Option<Seq<u8>> {
    if has_prefix(value, utf8("Basic "@)) && is_base64_text(value.skip(6)) {
        Some(value.skip(6))
    } else {
        None
    }
}

/// The user name and password in decoded credentials: what stands before
/// and after the first colon of a UTF-8 text.
pub open spec fn credentials_in(decoded: Seq<u8>) -> Option<(Seq<char>, Seq<char>)> {
    let colon = index_of(decoded, 58);
    if valid_utf8(decoded) && colon < decoded.len() {
        Some((decode_utf8(decoded.take(colon)), decode_utf8(decoded.skip(colon + 1))))
    } else {
        None
    }
}

/// The credentials that a list of headers carries.
pub open spec fn basic_auth_of(headers: Seq<HeaderView>) -> Option<(Seq<char>, Seq<char>)> {
    match header_value(headers, "Authorization"@) {
        Some(value) => match basic_payload(value) {
            Some(payload) => match base64_decoded(payload) {
                Some(decoded) => credentials_in(decoded),
                None => None,
            },
            None => None,
        },
        None => None,
    }
}

/// The characters of an optional pair of texts.
pub open spec fn opt_pair(o: Option<(String, String)>) -> Option<(Seq<char>, Seq<char>)> {
    match o {
        Some(p) => Some((p.0@, p.1@)),
        None => None,
    }
}

/// Whether `s` has the shape of a padded base64 text.
pub fn check_base64_text(s: &[u8]) -> (r: bool)
    ensures
        r == is_base64_text(s@),
{
    let n = s.len();
    if n % 4 != 0 {
        return false;
    }
    let padding: usize = if n >= 1 && s[n - 1] == 61 {
        if n >= 2 && s[n - 2] == 61 {
            2
        } else {
            1
        }
    } else {
        0
    };
    let mut i: usize = 0;
    while i < n - padding
        invariant
            n == s.len(),
            padding == base64_padding(s@),
            padding <= n,
            i <= n - padding,
            forall|k: int| 0 <= k < i ==> is_base64_symbol(#[trigger] s@[k]),
        decreases n - i,
    {
        let b: u8 = s[i];
        let symbol = (65 <= b && b <= 90) || (97 <= b && b <= 122) || (48 <= b && b <= 57) || b
            == 43 || b == 47;
        if !symbol {
            return false;
        }
        i += 1;
    }
    true
}

/// Splits decoded credentials at their first colon.
pub fn split_credentials(decoded: &[u8]) -> (r: Option<(String, String)>)
    ensures
        opt_pair(r) == credentials_in(decoded@),
{
    let colon = position(decoded, 58);
    proof {
        lemma_index_of(decoded@, 58);
    }
    if colon >= decoded.len() {
        return None;
    }
    let name = &decoded[0..colon];
    let pass = &decoded[colon + 1..decoded.len()];
    assert(name@ =~= decoded@.take(colon as int));
    assert(pass@ =~= decoded@.skip(colon + 1));
    proof {
        if valid_utf8(decoded@) {
            lemma_cut_at_ascii(decoded@, colon as int);
        }
        if valid_utf8(name@) && valid_utf8(pass@) {
            lemma_cut_at_ascii_back(decoded@, colon as int);
        }
    }
    match (text_of(name), text_of(pass)) {
        (Some(name), Some(pass)) => {
            proof {
                encode_utf8_decode_utf8(name@);
                encode_utf8_decode_utf8(pass@);
            }
            Some((name, pass))
        },
        _ => None,
    }
}

/// Two valid texts joined by an ASCII byte make a valid text.
pub proof fn lemma_cut_at_ascii_back(s: Seq<u8>, at: int)
    requires
        0 <= at < s.len(),
        s[at] < 128,
        valid_utf8(s.subrange(0, at)),
        valid_utf8(s.subrange(at + 1, s.len() as int)),
    ensures
        valid_utf8(s),
{
    let a = s.subrange(0, at);
    let b = s.subrange(at + 1, s.len() as int);
    let m = seq![s[at]];
    assert(pop_first_scalar(m) =~= Seq::<u8>::empty());
    assert(valid_utf8(m)) by {
        reveal_with_fuel(valid_utf8, 2);
    }
    valid_utf8_concat(m, b);
    valid_utf8_concat(a, m + b);
    assert(s =~= a + (m + b));
}

/// The user name and password of a request's Basic credentials, if it
/// carries well-formed ones.
pub fn get_basic_auth(headers: &[Header]) -> (r: Option<(String, String)>)
    ensures
        opt_pair(r) == basic_auth_of(header_views(headers@)),
{
    match get_header("Authorization", headers) {
        Some(value) => {
            let scheme = "Basic ";
            proof {
                reveal_strlit("Basic ");
                is_ascii_chars_encode_utf8(scheme@);
            }
            assert(utf8(scheme@).len() == 6);
            if !starts_with(value, scheme.as_bytes()) {
                return None;
            }
            let payload = &value[6..value.len()];
            assert(payload@ =~= value@.skip(6));
            if !check_base64_text(payload) {
                return None;
            }
            proof {
                // a length that is a multiple of four is not the largest length but six
                assert(usize::MAX % 4 == 3) by {
                    assert(usize::MAX == 0xffff_ffff || usize::MAX == 0xffff_ffff_ffff_ffff);
                }
                assert(payload@.len() % 4 == 0);
            }
            match base64_decode(payload) {
                Some(decoded) => split_credentials(decoded.as_slice()),
                None => None,
            }
        },
        None => None,
    }
}

/// The head of a request: its method, its target, its headers, and the
/// offset in the message at which the body starts.
#[derive(Clone, Debug, PartialEq, Eq)]
pub struct RequestHead {
    pub method: String,
    pub path: String,
    pub headers: Vec<Header>,
    pub body_offset: usize,
}

pub struct RequestHeadView {
    pub method: Seq<char>,
    pub path: Seq<char>,
    pub headers: Seq<HeaderView>,
    pub body_offset: usize,
}

impl View for RequestHead {
    type V = RequestHeadView;

    open spec fn view(&self) -> RequestHeadView {
        RequestHeadView {
            method: self.method@,
            path: self.path@,
            headers: header_views(self.headers@),
            body_offset: self.body_offset,
        }
    }
}

/// The head of a response: its status code, its headers, and the offset in
/// the message at which the body starts.
#[derive(Clone, Debug, PartialEq, Eq)]
pub struct ResponseHead {
    pub code: u16,
    pub reason: String,
    pub headers: Vec<Header>,
    pub body_offset: usize,
}

pub struct ResponseHeadView {
    pub code: u16,
    pub reason: Seq<char>,
    pub headers: Seq<HeaderView>,
    pub body_offset: usize,
}

impl View for ResponseHead {
    type V = ResponseHeadView;

    open spec fn view(&self) -> ResponseHeadView {
        ResponseHeadView {
            code: self.code,
            reason: self.reason@,
            headers: header_views(self.headers@),
            body_offset: self.body_offset,
        }
    }
}

/// A message head that the parser refused.
#[derive(Clone, Copy, Debug, PartialEq, Eq, Structural)]
pub struct Malformed;

/// The head of a request as the parser hands it over.
pub struct RawRequest {
    pub method: Option<String>,
    pub path: Option<String>,
    pub headers: Vec<Header>,
    pub body_offset: usize,
}

pub struct RawRequestView {
    pub method: Option<Seq<char>>,
    pub path: Option<Seq<char>>,
    pub headers: Seq<HeaderView>,
    pub body_offset: usize,
}

impl View for RawRequest {
    type V = RawRequestView;

    open spec fn view(&self) -> RawRequestView {
        RawRequestView {
            method: opt_text(self.method),
            path: opt_text(self.path),
            headers: header_views(self.headers@),
            body_offset: self.body_offset,
        }
    }
}

/// The head of a response as the parser hands it over.
pub struct RawResponse {
    pub code: Option<u16>,
    pub reason: Option<String>,
    pub headers: Vec<Header>,
    pub body_offset: usize,
}

pub struct RawResponseView {
    pub code: Option<u16>,
    pub reason: Option<Seq<char>>,
    pub headers: Seq<HeaderView>,
    pub body_offset: usize,
}

impl View for RawResponse {
    type V = RawResponseView;

    open spec fn view(&self) -> RawResponseView {
        RawResponseView {
            code: self.code,
            reason: opt_text(self.reason),
            headers: header_views(self.headers@),
            body_offset: self.body_offset,
        }
    }
}

/// What the parser makes of the bytes of a request read so far: a head, the
/// verdict that more bytes are needed, or a refusal.
pub uninterp spec fn parsed_request(buf: Seq<u8>) -> Result<Option<RawRequestView>, Malformed>;

/// What the parser makes of the bytes of a response read so far.
pub uninterp spec fn parsed_response(buf: Seq<u8>) -> Result<Option<RawResponseView>, Malformed>;

pub open spec fn request_outcome(r: Result<Option<RawRequest>, Malformed>) -> Result<
    Option<RawRequestView>,
    Malformed,
> {
    match r {
        Ok(Some(h)) => Ok(Some(h@)),
        Ok(None) => Ok(None),
        Err(e) => Err(e),
    }
}

pub open spec fn response_outcome(r: Result<Option<RawResponse>, Malformed>) -> Result<
    Option<RawResponseView>,
    Malformed,
> {
    match r {
        Ok(Some(h)) => Ok(Some(h@)),
        Ok(None) => Ok(None),
        Err(e) => Err(e),
    }
}

/// `Request::parse` of httparse, with room for 32 headers: the head that
/// `buf` starts with, nothing where the head is not complete yet, or the
/// parser's refusal.
#[verifier::external_body]
pub(crate) fn parse_request(buf: &[u8]) -> (r: Result<Option<RawRequest>, Malformed>)
    ensures
        request_outcome(r) == parsed_request(buf@),
{
    let mut headers = [httparse::EMPTY_HEADER; 32];
    let mut req = httparse::Request::new(&mut headers);
    match req.parse(buf) {
        Ok(httparse::Status::Complete(body_offset)) => Ok(Some(RawRequest {
            method: req.method.map(str::to_string),
            path: req.path.map(str::to_string),
            headers: req.headers.iter().map(|h| Header { name: h.name.to_string(), value: h.value.to_vec() }).collect(),
            body_offset,
        })),
        Ok(httparse::Status::Partial) => Ok(None),
        Err(_) => Err(Malformed),
    }
}

/// `Response::parse` of httparse, with room for 32 headers: the head that
/// `buf` starts with, nothing where the head is not complete yet, or the
/// parser's refusal.
#[verifier::external_body]
pub(crate) fn parse_response(buf: &[u8]) -> (r: Result<Option<RawResponse>, Malformed>)
    ensures
        response_outcome(r) == parsed_response(buf@),
{
    let mut headers = [httparse::EMPTY_HEADER; 32];
    let mut res = httparse::Response::new(&mut headers);
    match res.parse(buf) {
        Ok(httparse::Status::Complete(body_offset)) => Ok(Some(RawResponse {
            code: res.code,
            reason: res.reason.map(str::to_string),
            headers: res.headers.iter().map(|h| Header { name: h.name.to_string(), value: h.value.to_vec() }).collect(),
            body_offset,
        })),
        Ok(httparse::Status::Partial) => Ok(None),
        Err(_) => Err(Malformed),
    }
}

/// Why the head of a message was given up.
#[derive(Clone, Copy, Debug, PartialEq, Eq, Structural)]
pub enum HeadError {
    /// More than the allowed number of bytes came and the head is not complete.
    TooLong,
    /// The parser refused the bytes, or left out what a head must have.
    Invalid,
}

/// What to do after a read, given what the parser made of all the bytes
/// of a request read so far: take the head, if it has a method and a
/// target; read on; or give up.
pub open spec fn request_verdict(
    parsed: Result<Option<RawRequestView>, Malformed>,
    len: usize,
    max_len: usize,
) -> Result<Option<RequestHeadView>, HeadError> {
    match parsed {
        Ok(Some(raw)) => match (raw.method, raw.path) {
            (Some(method), Some(path)) => Ok(
                Some(
                    RequestHeadView {
                        method,
                        path,
                        headers: raw.headers,
                        body_offset: raw.body_offset,
                    },
                ),
            ),
            _ => Err(HeadError::Invalid),
        },
        Ok(None) => if len > max_len {
            Err(HeadError::TooLong)
        } else {
            Ok(None)
        },
        Err(_) => Err(HeadError::Invalid),
    }
}

/// What to do after a read, given what the parser made of all the bytes
/// of a response read so far: take the head, if it has a status; read on;
/// or give up. A head without a reason has an empty one.
pub open spec fn response_verdict(
    parsed: Result<Option<RawResponseView>, Malformed>,
    len: usize,
    max_len: usize,
) -> Result<Option<ResponseHeadView>, HeadError> {
    match parsed {
        Ok(Some(raw)) => match raw.code {
            Some(code) => Ok(
                Some(
                    ResponseHeadView {
                        code,
                        reason: match raw.reason {
                            Some(reason) => reason,
                            None => Seq::empty(),
                        },
                        headers: raw.headers,
                        body_offset: raw.body_offset,
                    },
                ),
            ),
            None => Err(HeadError::Invalid),
        },
        Ok(None) => if len > max_len {
            Err(HeadError::TooLong)
        } else {
            Ok(None)
        },
        Err(_) => Err(HeadError::Invalid),
    }
}

pub open spec fn request_read(r: Result<Option<RequestHead>, HeadError>) -> Result<
    Option<RequestHeadView>,
    HeadError,
> {
    match r {
        Ok(Some(h)) => Ok(Some(h@)),
        Ok(None) => Ok(None),
        Err(e) => Err(e),
    }
}

pub open spec fn response_read(r: Result<Option<ResponseHead>, HeadError>) -> Result<
    Option<ResponseHeadView>,
    HeadError,
> {
    match r {
        Ok(Some(h)) => Ok(Some(h@)),
        Ok(None) => Ok(None),
        Err(e) => Err(e),
    }
}

/// Decides on a request whose first `len` bytes the parser has seen.
pub fn request_progress(
    parsed: Result<Option<RawRequest>, Malformed>,
    len: usize,
    max_len: usize,
) -> (r: Result<Option<RequestHead>, HeadError>)
    ensures
        request_read(r) == request_verdict(request_outcome(parsed), len, max_len),
{
    match parsed {
        Ok(Some(raw)) => match (raw.method, raw.path) {
            (Some(method), Some(path)) => Ok(
                Some(
                    RequestHead { method, path, headers: raw.headers, body_offset: raw.body_offset },
                ),
            ),
            _ => Err(HeadError::Invalid),
        },
        Ok(None) => if len > max_len {
            Err(HeadError::TooLong)
        } else {
            Ok(None)
        },
        Err(_) => Err(HeadError::Invalid),
    }
}

/// Decides on a response whose first `len` bytes the parser has seen.
pub fn response_progress(
    parsed: Result<Option<RawResponse>, Malformed>,
    len: usize,
    max_len: usize,
) -> (r: Result<Option<ResponseHead>, HeadError>)
    ensures
        response_read(r) == response_verdict(response_outcome(parsed), len, max_len),
{
    match parsed {
        Ok(Some(raw)) => match raw.code {
            Some(code) => Ok(
                Some(
                    ResponseHead {
                        code,
                        reason: match raw.reason {
                            Some(reason) => reason,
                            None => String::new(),
                        },
                        headers: raw.headers,
                        body_offset: raw.body_offset,
                    },
                ),
            ),
            None => Err(HeadError::Invalid),
        },
        Ok(None) => if len > max_len {
            Err(HeadError::TooLong)
        } else {
            Ok(None)
        },
        Err(_) => Err(HeadError::Invalid),
    }
}

/// Looks for the head of a request in the bytes read so far: the head once
/// it is complete, nothing while more bytes are needed and allowed, and an
/// error once the parser refuses them or more than `max_len` bytes came
/// without completing it.
pub fn read_request(message: &[u8], max_len: usize) -> (r: Result<Option<RequestHead>, HeadError>)
    ensures
        request_read(r) == request_verdict(parsed_request(message@), message.len(), max_len),
{
    request_progress(parse_request(message), message.len(), max_len)
}

} // verus!
