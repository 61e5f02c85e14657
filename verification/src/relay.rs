//! Relays: what is decided when streams are pulled from another server,
//! from the request that fetches them to the metadata taken out of them.

use vstd::prelude::*;
use vstd::string::StringExecFns;
use vstd::utf8::*;
use crate::admin::lemma_with_source_as_wf;
use crate::icy::{
    decode_metadata, decoded_block, demux_run, populate_properties, MetaParser, Properties,
    PropertiesView,
};
use crate::ingest::{
    check_reserved, framing, is_reserved, select_decoder, stopped, strip_trailing_slash,
    without_trailing_slash, FramingError,
};
use crate::request::{
    get_header, header_value, header_views, opt_bytes, Header, HeaderView, ResponseHead,
    ResponseHeadView,
};
use crate::server::{fresh_source, AdmissionError, Server, ServerView};
use crate::source::SourceView;
use crate::stream_decoder::{
    lemma_finished_is_idle, lemma_nothing_taken, DecoderState, StreamDecoder, TransferEncoding,
};
use crate::text::{
    append, append_str, bytes_eq, decimal_value, has_prefix, lower_byte, lowered, parse_decimal,
    text_of, utf8,
};

verus! {

/// What a relay needs of an address: the parts of a URL.
pub struct UrlParts {
    pub scheme: String,
    pub host: Option<String>,
    /// The port, or the one that goes with the scheme.
    pub port: Option<u16>,
    pub path: String,
    pub query: Option<String>,
    pub fragment: Option<String>,
    pub username: String,
    pub password: Option<String>,
}

pub struct UrlPartsView {
    pub scheme: Seq<char>,
    pub host: Option<Seq<char>>,
    pub port: Option<u16>,
    pub path: Seq<char>,
    pub query: Option<Seq<char>>,
    pub fragment: Option<Seq<char>>,
    pub username: Seq<char>,
    pub password: Option<Seq<char>>,
}

impl View for UrlParts {
    type V = UrlPartsView;

    open spec fn view(&self) -> UrlPartsView {
        UrlPartsView {
            scheme: self.scheme@,
            host: crate::request::opt_text(self.host),
            port: self.port,
            path: self.path@,
            query: crate::request::opt_text(self.query),
            fragment: crate::request::opt_text(self.fragment),
            username: self.username@,
            password: crate::request::opt_text(self.password),
        }
    }
}

/// The view of optional parts.
pub open spec fn opt_parts(o: Option<UrlParts>) -> Option<UrlPartsView> {
    match o {
        Some(p) => Some(p@),
        None => None,
    }
}

/// The parts of the URL that `text` spells out, if it spells one out.
pub uninterp spec fn url_parts(text: Seq<char>) -> Option<UrlPartsView>;

/// The URL `url` with its query replaced by `query`, or without a query.
pub uninterp spec fn url_with_query(url: Seq<char>, query: Option<Seq<char>>) -> Option<Seq<char>>;

/// The URL `url` with its path replaced by `path`.
pub uninterp spec fn url_with_path(url: Seq<char>, path: Seq<char>) -> Option<Seq<char>>;

/// The URL that `reference` names when it is read at the URL `base`.
pub uninterp spec fn url_joined(base: Seq<char>, reference: Seq<char>) -> Option<Seq<char>>;

/// The base64 text of `bytes`, in the standard alphabet, padded.
pub uninterp spec fn base64_encoded(bytes: Seq<u8>) -> Seq<char>;

/// The texts that the URL crate takes without running out of room for its
/// offsets, which have 32 bits: a URL and a part to put into it that,
/// with three bytes for each of theirs, stay below that.
pub open spec fn url_sized(a: Seq<char>, b: Seq<char>) -> bool {
    utf8(a).len() + utf8(b).len() <= 0x5555_0000
}

/// `Url::parse` of url, with what its getters give: the parts of the URL
/// that `text` spells out, or nothing where the crate refuses it.
#[verifier::external_body]
pub(crate) fn parse_url(text: &str) -> (r: Option<UrlParts>)
    ensures
        opt_parts(r) == url_parts(text@),
{
    match url::Url::parse(text) {
        Ok(u) => Some(UrlParts {
            scheme: u.scheme().to_string(),
            host: u.host_str().map(str::to_string),
            port: u.port_or_known_default(),
            path: u.path().to_string(),
            query: u.query().map(str::to_string),
            fragment: u.fragment().map(str::to_string),
            username: u.username().to_string(),
            password: u.password().map(str::to_string),
        }),
        Err(_) => None,
    }
}

/// `Url::set_query` of url, on the URL that `url` spells out: that URL
/// with the query `query`, or nothing where `url` spells out none. The
/// crate panics where the URL outgrows its 32-bit offsets.
#[verifier::external_body]
pub(crate) fn set_url_query(url: &str, query: &Option<String>) -> (r: Option<String>)
    requires
        url_sized(
            url@,
            match query {
                Some(q) => q@,
                None => Seq::empty(),
            },
        ),
    ensures
        crate::request::opt_text(r) == url_with_query(url@, crate::request::opt_text(*query)),
{
    let mut parsed = url::Url::parse(url).ok()?;
    parsed.set_query(query.as_deref());
    Some(parsed.as_str().to_string())
}

/// `Url::set_path` of url, on the URL that `url` spells out: that URL
/// with the path `path`, or nothing where `url` spells out none. The
/// crate panics where the URL outgrows its 32-bit offsets.
#[verifier::external_body]
pub(crate) fn set_url_path(url: &str, path: &str) -> (r: Option<String>)
    requires
        url_sized(url@, path@),
    ensures
        crate::request::opt_text(r) == url_with_path(url@, path@),
{
    let mut parsed = url::Url::parse(url).ok()?;
    parsed.set_path(path);
    Some(parsed.as_str().to_string())
}

/// `Url::join` of url, on the URL that `base` spells out: the URL that
/// `reference` names there, or nothing where the crate refuses one of the two.
#[verifier::external_body]
pub(crate) fn join_url(base: &str, reference: &str) -> (r: Option<String>)
    ensures
        crate::request::opt_text(r) == url_joined(base@, reference@),
{
    let parsed = url::Url::parse(base).ok()?;
    Some(parsed.join(reference).ok()?.as_str().to_string())
}

/// `encode` of base64: the base64 text of `bytes`. The crate panics
/// where the length of the text does not fit the machine.
#[verifier::external_body]
pub(crate) fn base64_encode(bytes: &[u8]) -> (r: String)
    requires
        bytes@.len() <= usize::MAX / 2,
    ensures
        r@ == base64_encoded(bytes@),
{
    base64::encode(bytes)
}

/// Where a relay connects to.
pub struct Peer {
    /// The host, with the port where one is known: `host:port`.
    pub address: String,
    pub host: String,
    /// Whether the scheme is `https`.
    pub tls: bool,
}

/// The address `host:port` of a URL, or its host alone where no port is known.
pub open spec fn peer_address(p: UrlPartsView) -> Option<Seq<u8>> {
    match p.host {
        None => None,
        Some(host) => Some(
            match p.port {
                Some(port) => utf8(host) + utf8(":"@) + crate::text::decimal_digits(port as nat),
                None => utf8(host),
            },
        ),
    }
}

/// Where to connect to for a URL; nowhere if it has no host.
pub fn peer_of(parts: &UrlParts) -> (r: Option<Peer>)
    ensures
        match r {
            Some(peer) => Some(utf8(peer.address@)) == peer_address(parts@) && Some(peer.host@)
                == parts@.host && peer.tls == (parts@.scheme == "https"@),
            None => parts@.host is None,
        },
{
    match &parts.host {
        None => None,
        Some(host) => {
            let mut address = host.clone();
            match parts.port {
                Some(port) => {
                    address.append(":");
                    let digits = crate::text::decimal(port as u64);
                    proof {
                        lemma_digits_are_text(port as nat);
                    }
                    match text_of(digits.as_slice()) {
                        Some(text) => {
                            address.append(text.as_str());
                            proof {
                                lemma_utf8_add(host@ + ":"@, text@);
                                lemma_utf8_add(host@, ":"@);
                            }
                        },
                        None => {},
                    }
                },
                None => {},
            }
            Some(
                Peer {
                    address,
                    host: host.clone(),
                    tls: crate::text::str_eq(parts.scheme.as_str(), "https"),
                },
            )
        },
    }
}

/// The encoding of two texts put together is that of the first and that of the second.
pub proof fn lemma_utf8_add(a: Seq<char>, b: Seq<char>)
    ensures
        utf8(a + b) == utf8(a) + utf8(b),
{
    encode_utf8_valid_utf8(a);
    encode_utf8_valid_utf8(b);
    valid_utf8_concat(utf8(a), utf8(b));
    let joined = utf8(a) + utf8(b);
    is_char_boundary_start_end_of_seq(utf8(a));
    lemma_boundary_after(utf8(a), utf8(b));
    decode_utf8_split(joined, utf8(a).len() as int);
    assert(joined.subrange(0, utf8(a).len() as int) =~= utf8(a));
    assert(joined.subrange(utf8(a).len() as int, joined.len() as int) =~= utf8(b));
    encode_utf8_decode_utf8(a);
    encode_utf8_decode_utf8(b);
    decode_utf8_encode_utf8(joined);
}

/// Where one valid text ends and another begins, a character begins.
proof fn lemma_boundary_after(a: Seq<u8>, b: Seq<u8>)
    requires
        valid_utf8(a),
        valid_utf8(b),
    ensures
        valid_utf8(a + b),
        is_char_boundary(a + b, a.len() as int),
    decreases a.len(),
{
    valid_utf8_concat(a, b);
    if a.len() != 0 {
        let rest = pop_first_scalar(a);
        assert(pop_first_scalar(a + b) =~= rest + b);
        assert(length_of_first_scalar(a + b) == length_of_first_scalar(a));
        lemma_boundary_after(rest, b);
    }
}

/// The decimal digits of a number are a text.
proof fn lemma_digits_are_text(n: nat)
    ensures
        valid_utf8(crate::text::decimal_digits(n)),
    decreases n,
{
    let d = crate::text::decimal_digits(n);
    if n < 10 {
        assert(pop_first_scalar(d) =~= Seq::<u8>::empty());
        reveal_with_fuel(valid_utf8, 2);
    } else {
        lemma_digits_are_text(n / 10);
        let last = seq![(48 + n % 10) as u8];
        assert(pop_first_scalar(last) =~= Seq::<u8>::empty());
        assert(valid_utf8(last)) by {
            reveal_with_fuel(valid_utf8, 2);
        }
        valid_utf8_concat(crate::text::decimal_digits(n / 10), last);
        assert(d =~= crate::text::decimal_digits(n / 10) + last);
    }
}

/// The target of the request for a URL: its path, its query after `?`
/// and its fragment after `#`.
pub open spec fn request_target(p: UrlPartsView) -> Seq<u8> {
    utf8(p.path) + (match p.query {
        Some(q) => utf8("?"@) + utf8(q),
        None => Seq::empty(),
    }) + (match p.fragment {
        Some(f) => utf8("#"@) + utf8(f),
        None => Seq::empty(),
    })
}

/// The header lines of a list, each ended by CRLF.
pub open spec fn header_block(headers: Seq<String>) -> Seq<u8>
    decreases headers.len(),
{
    if headers.len() == 0 {
        Seq::empty()
    } else {
        header_block(headers.drop_last()) + utf8(headers.last()@) + utf8("\r\n"@)
    }
}

/// Whether a header line is one of credentials: it starts with
/// `authorization:`, letter case aside.
pub open spec fn is_authorization(line: Seq<u8>) -> bool {
    has_prefix(lowered(line), utf8("authorization:"@))
}

/// Whether some line of the list is one of credentials.
pub open spec fn has_authorization(headers: Seq<String>) -> bool {
    exists|i: int| 0 <= i < headers.len() && is_authorization(utf8((#[trigger] headers[i])@))
}

/// The credentials of a URL, as they go into a request: user name and
/// password around a colon.
pub open spec fn plain_credentials(p: UrlPartsView) -> Seq<u8> {
    utf8(p.username) + utf8(":"@) + match p.password {
        Some(password) => utf8(password),
        None => Seq::empty(),
    }
}

/// The line of credentials for a URL with a password.
pub open spec fn credentials_line(p: UrlPartsView) -> Seq<u8> {
    utf8("Authorization: Basic "@) + utf8(base64_encoded(plain_credentials(p))) + utf8("\r\n"@)
}

/// Whether the request for a URL carries credentials of the URL: it has
/// a password, and no header line brings credentials.
pub open spec fn adds_credentials(p: UrlPartsView, headers: Seq<String>) -> bool {
    p.password is Some && !has_authorization(headers)
}

/// The request that fetches a URL: the request line, the given header
/// lines, the host, the credentials of the URL where they are due, and an
/// empty line.
pub open spec fn relay_request(p: UrlPartsView, headers: Seq<String>, address: Seq<char>) -> Seq<
    u8,
> {
    utf8("GET "@) + request_target(p) + utf8(" HTTP/1.1\r\n"@) + header_block(headers) + utf8(
        "Host: "@,
    ) + utf8(address) + utf8("\r\n"@) + (if adds_credentials(p, headers) {
        credentials_line(p)
    } else {
        Seq::empty()
    }) + utf8("\r\n"@)
}

fn check_authorization(line: &[u8]) -> (r: bool)
    ensures
        r == is_authorization(line@),
{
    let mark = "authorization:".as_bytes();
    if line.len() < mark.len() {
        return false;
    }
    let mut low: Vec<u8> = Vec::new();
    let mut i: usize = 0;
    while i < mark.len()
        invariant
            i <= mark.len() <= line.len(),
            low@ == lowered(line@).take(i as int),
        decreases mark.len() - i,
    {
        low.push(lower_byte(line[i]));
        assert(low@ =~= lowered(line@).take(i + 1));
        i += 1;
    }
    assert(lowered(line@).subrange(0, mark@.len() as int) =~= low@);
    bytes_eq(low.as_slice(), mark)
}

fn push_target(out: &mut Vec<u8>, parts: &UrlParts)
    ensures
        final(out)@ == old(out)@ + request_target(parts@),
{
    append_str(out, parts.path.as_str());
    match &parts.query {
        Some(q) => {
            append_str(out, "?");
            append_str(out, q.as_str());
        },
        None => {},
    }
    match &parts.fragment {
        Some(f) => {
            append_str(out, "#");
            append_str(out, f.as_str());
        },
        None => {},
    }
    assert(out@ =~= old(out)@ + request_target(parts@));
}

fn push_headers(out: &mut Vec<u8>, headers: &Vec<String>) -> (auth: bool)
    ensures
        final(out)@ == old(out)@ + header_block(headers@),
        auth == has_authorization(headers@),
{
    let mut auth = false;
    let mut i: usize = 0;
    assert(headers@.take(0) =~= Seq::<String>::empty());
    assert(out@ + header_block(headers@.take(0)) =~= old(out)@);
    while i < headers.len()
        invariant
            i <= headers.len(),
            out@ == old(out)@ + header_block(headers@.take(i as int)),
            auth == has_authorization(headers@.take(i as int)),
        decreases headers.len() - i,
    {
        let ghost before = headers@.take(i as int);
        let ghost after = headers@.take(i + 1);
        let line = headers[i].as_str().as_bytes();
        append(out, line);
        append_str(out, "\r\n");
        let this = check_authorization(line);
        proof {
            assert(after.drop_last() =~= before);
            assert(after.last() == headers@[i as int]);
            assert(out@ =~= old(out)@ + header_block(after));
            if has_authorization(before) {
                let k = choose|k: int|
                    0 <= k < before.len() && is_authorization(utf8((#[trigger] before[k])@));
                assert(after[k] == before[k]);
            }
            if this {
                assert(is_authorization(utf8(after[i as int]@)));
            }
            if has_authorization(after) {
                let k = choose|k: int|
                    0 <= k < after.len() && is_authorization(utf8((#[trigger] after[k])@));
                if k < i {
                    assert(before[k] == after[k]);
                }
            }
        }
        auth = auth || this;
        i += 1;
    }
    assert(headers@.take(i as int) =~= headers@);
    auth
}

fn push_credentials(out: &mut Vec<u8>, parts: &UrlParts) -> (fits: bool)
    requires
        parts@.password is Some,
    ensures
        fits == (plain_credentials(parts@).len() <= usize::MAX / 2),
        final(out)@ == if fits {
            old(out)@ + credentials_line(parts@)
        } else {
            old(out)@
        },
{
    let mut plain: Vec<u8> = Vec::new();
    append_str(&mut plain, parts.username.as_str());
    append_str(&mut plain, ":");
    match &parts.password {
        Some(password) => append_str(&mut plain, password.as_str()),
        None => {},
    }
    assert(plain@ =~= plain_credentials(parts@));
    if plain.len() > usize::MAX / 2 {
        return false;
    }
    let encoded = base64_encode(plain.as_slice());
    append_str(out, "Authorization: Basic ");
    append_str(out, encoded.as_str());
    append_str(out, "\r\n");
    assert(out@ =~= old(out)@ + credentials_line(parts@));
    true
}

/// Writes the request that fetches the URL of `parts` from the peer at
/// `address`, with `headers` as further header lines. There is none
/// where the URL brings credentials that are too long to be encoded.
pub fn build_request(parts: &UrlParts, headers: &Vec<String>, address: &str) -> (r: Option<
    Vec<u8>,
>)
    ensures
        r is None <==> adds_credentials(parts@, headers@) && plain_credentials(parts@).len()
            > usize::MAX / 2,
        r is Some ==> r->0@ == relay_request(parts@, headers@, address@),
{
    let mut out: Vec<u8> = Vec::new();
    append_str(&mut out, "GET ");
    push_target(&mut out, parts);
    append_str(&mut out, " HTTP/1.1\r\n");
    let auth = push_headers(&mut out, headers);
    append_str(&mut out, "Host: ");
    append_str(&mut out, address);
    append_str(&mut out, "\r\n");
    let ghost head = out@;
    if !auth && parts.password.is_some() {
        if !push_credentials(&mut out, parts) {
            return None;
        }
    }
    let ghost with_credentials = out@;
    append_str(&mut out, "\r\n");
    proof {
        assert(with_credentials =~= head + (if adds_credentials(parts@, headers@) {
            credentials_line(parts@)
        } else {
            Seq::empty()
        }));
        assert(out@ =~= relay_request(parts@, headers@, address@));
    }
    Some(out)
}

/// Why a fetch was given up.
#[derive(Clone, Copy, Debug, PartialEq, Eq, Structural)]
pub enum FetchError {
    /// The address is no URL, or one without a host.
    InvalidUrl,
    /// The URL brings credentials that are too long to be encoded.
    CredentialsTooLong,
    /// More redirects than are followed.
    TooManyRedirects,
    /// A redirect without a location, or with one that is not UTF-8, or
    /// that names no URL.
    InvalidLocation,
}

/// One step of a fetch: where to connect to, and what to send there.
pub struct Fetch {
    pub peer: Peer,
    pub request: Vec<u8>,
}

/// What the fetch of the URL that `parts` are the parts of starts with.
pub open spec fn fetch_plan(parts: Option<UrlPartsView>, headers: Seq<String>) -> Result<
    (Seq<u8>, Seq<u8>),
    FetchError,
> {
    match parts {
        None => Err(FetchError::InvalidUrl),
        Some(p) => match peer_address(p) {
            None => Err(FetchError::InvalidUrl),
            Some(address) => if adds_credentials(p, headers) && plain_credentials(p).len()
                > usize::MAX / 2 {
                Err(FetchError::CredentialsTooLong)
            } else {
                Ok((address, relay_request(p, headers, decode_utf8(address))))
            },
        },
    }
}

/// Settles what the fetch of a URL with these parts starts with.
pub fn plan_with(parts: Option<UrlParts>, headers: &Vec<String>) -> (r: Result<Fetch, FetchError>)
    ensures
        match r {
            Ok(fetch) => fetch_plan(opt_parts(parts), headers@) == Ok::<
                (Seq<u8>, Seq<u8>),
                FetchError,
            >((utf8(fetch.peer.address@), fetch.request@)) && Some(fetch.peer.host@) == parts->0@.host
                && fetch.peer.tls == (parts->0@.scheme == "https"@),
            Err(e) => fetch_plan(opt_parts(parts), headers@) == Err::<
                (Seq<u8>, Seq<u8>),
                FetchError,
            >(e),
        },
{
    let parts = match parts {
        None => {
            return Err(FetchError::InvalidUrl);
        },
        Some(parts) => parts,
    };
    let peer = match peer_of(&parts) {
        None => {
            return Err(FetchError::InvalidUrl);
        },
        Some(peer) => peer,
    };
    proof {
        encode_utf8_decode_utf8(peer.address@);
    }
    match build_request(&parts, headers, peer.address.as_str()) {
        None => Err(FetchError::CredentialsTooLong),
        Some(request) => {
            proof {
                let address = utf8(peer.address@);
                assert(peer_address(parts@) == Some(address));
                assert(decode_utf8(address) == peer.address@);
                assert(fetch_plan(Some(parts@), headers@) == Ok::<(Seq<u8>, Seq<u8>), FetchError>(
                    (address, request@),
                ));
            }
            Ok(Fetch { peer, request })
        },
    }
}

/// Settles what the fetch of `url` starts with: the peer to connect to,
/// and the request to send it, with `headers` as further header lines.
pub fn plan_fetch(url: &str, headers: &Vec<String>) -> (r: Result<Fetch, FetchError>)
    ensures
        match r {
            Ok(fetch) => fetch_plan(url_parts(url@), headers@) == Ok::<
                (Seq<u8>, Seq<u8>),
                FetchError,
            >((utf8(fetch.peer.address@), fetch.request@)),
            Err(e) => fetch_plan(url_parts(url@), headers@) == Err::<
                (Seq<u8>, Seq<u8>),
                FetchError,
            >(e),
        },
{
    plan_with(parse_url(url), headers)
}

/// What follows a response to a fetch.
pub enum Next {
    /// The response is the one that was asked for.
    Done,
    /// The fetch goes on at another URL, with so many redirects left.
    Follow { url: String, remaining: usize },
}

/// Whether a status redirects: 201, or one of the 300s.
pub open spec fn redirects(code: u16) -> bool {
    code / 100 == 3 || code == 201
}

/// The URL that a location names for a fetch from `url`. An absolute
/// location keeps the query of `url`; one that starts with a slash
/// replaces the path of `url`; any other is read at `url`.
pub open spec fn resolved(url: Seq<char>, location: Seq<char>) -> Option<Seq<char>> {
    match url_parts(location) {
        Some(_) => match url_parts(url) {
            Some(from) => if url_sized(
                location,
                match from.query {
                    Some(q) => q,
                    None => Seq::empty(),
                },
            ) {
                url_with_query(location, from.query)
            } else {
                None
            },
            None => None,
        },
        None => if location.len() > 0 && location[0] == '/' {
            if url_sized(url, location) {
                url_with_path(url, location)
            } else {
                None
            }
        } else {
            url_joined(url, location)
        },
    }
}

/// The view of what follows a response.
pub open spec fn next_view(r: Result<Next, FetchError>) -> Result<
    Option<(Seq<char>, usize)>,
    FetchError,
> {
    match r {
        Ok(Next::Done) => Ok(None),
        Ok(Next::Follow { url, remaining }) => Ok(Some((url@, remaining))),
        Err(e) => Err(e),
    }
}

/// What follows a response with the status `code` to a fetch from `url`
/// with `remaining` redirects left: nothing, or the URL to go on with and
/// one redirect less.
pub open spec fn redirect_verdict(
    url: Seq<char>,
    code: u16,
    location: Option<Seq<u8>>,
    remaining: usize,
) -> Result<Option<(Seq<char>, usize)>, FetchError> {
    if !redirects(code) {
        Ok(None)
    } else if remaining == 0 {
        Err(FetchError::TooManyRedirects)
    } else {
        match location {
            Some(l) => if valid_utf8(l) {
                match resolved(url, decode_utf8(l)) {
                    Some(next) => Ok(Some((next, (remaining - 1) as usize))),
                    None => Err(FetchError::InvalidLocation),
                }
            } else {
                Err(FetchError::InvalidLocation)
            },
            None => Err(FetchError::InvalidLocation),
        }
    }
}

fn sized(a: &str, b: &str) -> (r: bool)
    ensures
        r == url_sized(a@, b@),
{
    let x = a.as_bytes().len();
    let y = b.as_bytes().len();
    x <= 0x5555_0000 && y <= 0x5555_0000 - x
}

/// The URL that `location` names for a fetch from `url`.
pub fn resolve(url: &str, location: &str) -> (r: Option<String>)
    ensures
        crate::request::opt_text(r) == resolved(url@, location@),
{
    match parse_url(location) {
        Some(_) => match parse_url(url) {
            Some(from) => {
                let fits = match &from.query {
                    Some(q) => sized(location, q.as_str()),
                    None => sized(location, ""),
                };
                proof {
                    reveal_strlit("");
                    assert(""@ =~= Seq::<char>::empty());
                }
                if fits {
                    set_url_query(location, &from.query)
                } else {
                    None
                }
            },
            None => None,
        },
        None => {
            let bytes = location.as_bytes();
            let rooted = bytes.len() > 0 && bytes[0] == 47;
            proof {
                lemma_first_char(location@);
            }
            if rooted {
                if sized(url, location) {
                    set_url_path(url, location)
                } else {
                    None
                }
            } else {
                join_url(url, location)
            }
        },
    }
}

/// A text starts with a slash exactly if its encoding does.
proof fn lemma_first_char(s: Seq<char>)
    ensures
        (s.len() > 0 && s[0] == '/') <==> (utf8(s).len() > 0 && utf8(s)[0] == 47),
{
    if s.len() > 0 {
        let v = s[0] as u32;
        let first = encode_scalar(v);
        char_is_scalar(s[0]);
        char_u32_cast(s[0], v);
        char_u32_cast('/', 47u32);
        assert(utf8(s) == first + encode_utf8(s.drop_first()));
        assert(first.len() > 0);
        assert(utf8(s)[0] == first[0]);
        lemma_slash(v);
    }
}

/// The scalar 47, and no other, has an encoding that starts with the byte 47.
proof fn lemma_slash(v: u32)
    requires
        is_scalar(v),
    ensures
        encode_scalar(v).len() > 0,
        (encode_scalar(v)[0] == 47) <==> v == 47,
{
    if has_width_1_encoding(v) {
        assert(((v & 0x7F) as u8 == 47) <==> v == 47) by (bit_vector)
            requires
                v <= 0x7F,
        ;
    } else if has_width_2_encoding(v) {
        assert((0xC0u8 | ((v >> 6) & 0x1F) as u8) != 47) by (bit_vector);
    } else if has_width_3_encoding(v) {
        assert((0xE0u8 | ((v >> 12) & 0x0F) as u8) != 47) by (bit_vector);
    } else {
        assert((0xF0u8 | ((v >> 18) & 0x7) as u8) != 47) by (bit_vector);
    }
}

/// Decides what follows the response `head` to a fetch from `url`.
pub fn follow(url: &str, head: &ResponseHead, remaining: usize) -> (r: Result<Next, FetchError>)
    ensures
        next_view(r) == redirect_verdict(
            url@,
            head.code,
            header_value(head@.headers, "Location"@),
            remaining,
        ),
{
    if !(head.code / 100 == 3 || head.code == 201) {
        return Ok(Next::Done);
    }
    if remaining == 0 {
        return Err(FetchError::TooManyRedirects);
    }
    match get_header("Location", head.headers.as_slice()) {
        None => Err(FetchError::InvalidLocation),
        Some(l) => match text_of(l) {
            None => Err(FetchError::InvalidLocation),
            Some(location) => {
                proof {
                    encode_utf8_decode_utf8(location@);
                }
                match resolve(url, location.as_str()) {
                    Some(next) => Ok(Next::Follow { url: next, remaining: remaining - 1 }),
                    None => Err(FetchError::InvalidLocation),
                }
            },
        },
    }
}

/// Why the body of a response was given up.
#[derive(Clone, Copy, Debug, PartialEq, Eq, Structural)]
pub enum BodyError {
    /// The response names no content length.
    NoContentLength,
    /// The content length is not a number.
    InvalidContentLength,
    /// The status is not 200.
    BadStatus,
    /// The peer closed before the whole body came.
    UnexpectedEof,
    /// More bytes came than the content length announced.
    TooLarge,
}

/// How long the body of a response with the list of mountpoints is: its
/// content length, which it must name, if its status is 200.
pub open spec fn info_length(code: u16, length: Option<Seq<u8>>) -> Result<usize, BodyError> {
    match length {
        None => Err(BodyError::NoContentLength),
        Some(v) => match decimal_value(v) {
            Some(n) if n <= usize::MAX => if code == 200 {
                Ok(n as usize)
            } else {
                Err(BodyError::BadStatus)
            },
            _ => Err(BodyError::InvalidContentLength),
        },
    }
}

/// How many bytes of the body of the response `head` are to come in all.
pub fn check_info_response(head: &ResponseHead) -> (r: Result<usize, BodyError>)
    ensures
        r == info_length(head.code, header_value(head@.headers, "Content-Length"@)),
{
    match get_header("Content-Length", head.headers.as_slice()) {
        None => Err(BodyError::NoContentLength),
        Some(v) => match parse_decimal(v) {
            Some(n) => if head.code == 200 {
                Ok(n)
            } else {
                Err(BodyError::BadStatus)
            },
            None => Err(BodyError::InvalidContentLength),
        },
    }
}

/// How many bytes of a body are still to come after `read` more came, of
/// `remaining` that were to come.
pub open spec fn body_remaining(remaining: usize, read: usize) -> Result<usize, BodyError> {
    if read > remaining {
        Err(BodyError::TooLarge)
    } else if read == 0 && remaining != 0 {
        Err(BodyError::UnexpectedEof)
    } else {
        Ok((remaining - read) as usize)
    }
}

/// Counts the bytes of a read off the bytes of a body that are to come.
pub fn body_progress(remaining: usize, read: usize) -> (r: Result<usize, BodyError>)
    ensures
        r == body_remaining(remaining, read),
{
    if read > remaining {
        Err(BodyError::TooLarge)
    } else if read == 0 && remaining != 0 {
        Err(BodyError::UnexpectedEof)
    } else {
        Ok(remaining - read)
    }
}

/// The header lines that go with every fetch, and the one that asks for
/// metadata in the stream.
pub fn fetch_headers(server_id: &str, metadata: bool) -> (r: Vec<String>)
    ensures
        r@.len() == if metadata {
            3int
        } else {
            2int
        },
        r@[0]@ == "User-Agent: "@ + server_id@,
        r@[1]@ == "Connection: Closed"@,
        metadata ==> r@[2]@ == "Icy-Metadata:1"@,
{
    let mut headers: Vec<String> = Vec::new();
    let mut agent = "User-Agent: ".to_owned();
    agent.append(server_id);
    headers.push(agent);
    headers.push("Connection: Closed".to_owned());
    if metadata {
        headers.push("Icy-Metadata:1".to_owned());
    }
    headers
}

/// The URL of `path` on the server at `base`.
pub fn url_on(base: &str, path: &str) -> (r: String)
    ensures
        r@ == base@ + path@,
{
    let mut url = base.to_owned();
    url.append(path);
    url
}

/// The mountpoint to relay for the entry `mount` of the list of another
/// server: the entry without a slash at its end, unless it is reserved,
/// taken, or over a limit.
pub open spec fn relay_candidate(s: ServerView, mount: Seq<char>) -> Option<Seq<u8>> {
    let path = without_trailing_slash(utf8(mount));
    if is_reserved(path) || s.admission(decode_utf8(path), true) is Some {
        None
    } else {
        Some(path)
    }
}

/// The mountpoint to relay for an entry of the list of another server, if
/// it is to be relayed.
pub fn wants_relay(server: &Server, mount: &str) -> (r: Option<String>)
    ensures
        match r {
            Some(path) => Some(utf8(path@)) == relay_candidate(server@, mount@),
            None => relay_candidate(server@, mount@) is None,
        },
{
    let path = strip_trailing_slash(mount.to_owned());
    proof {
        encode_utf8_decode_utf8(path@);
    }
    if check_reserved(path.as_str().as_bytes()) {
        return None;
    }
    match server.check_admission(path.as_str(), true) {
        Some(_) => None,
        None => Some(path),
    }
}

/// Why a relay is not mounted.
#[derive(Clone, Copy, Debug, PartialEq, Eq, Structural)]
pub enum RelayError {
    /// The status of the response is not 200.
    BadStatus,
    /// The response has no `icy-name`: the peer is no stream server.
    NotAStream,
    /// The content length is not a number.
    InvalidContentLength,
    /// The transfer encoding is not supported.
    UnsupportedEncoding,
    /// The response names no content type.
    NoContentType,
    /// The content type is not UTF-8.
    InvalidContentType,
    /// The interval of the metadata is not a number.
    InvalidMetaint,
    /// A source is mounted there already.
    MountInUse,
    /// There are as many relays as may be.
    RelayLimit,
    /// There are as many sources as may be.
    TotalSourceLimit,
}

/// What was settled when a relay was mounted.
pub struct Relay {
    pub decoder: StreamDecoder,
    pub parser: MetaParser,
    /// Milliseconds that the peer has to send something.
    pub source_timeout: u64,
}

/// The interval of the metadata that a response announces; zero where it
/// announces none.
pub open spec fn announced_metaint(headers: Seq<HeaderView>) -> Result<usize, RelayError> {
    match header_value(headers, "Icy-Metaint"@) {
        None => Ok(0usize),
        Some(v) => match decimal_value(v) {
            Some(n) if n <= usize::MAX => Ok(n as usize),
            _ => Err(RelayError::InvalidMetaint),
        },
    }
}

/// What a response to the fetch of a stream settles: its framing and the
/// interval of its metadata. The status must be 200, and the response
/// must name the stream and its content type.
pub open spec fn stream_verdict(head: ResponseHeadView) -> Result<
    (TransferEncoding, usize),
    RelayError,
> {
    if head.code != 200 {
        Err(RelayError::BadStatus)
    } else if header_value(head.headers, "icy-name"@) is None {
        Err(RelayError::NotAStream)
    } else {
        match framing(
            header_value(head.headers, "Transfer-Encoding"@),
            header_value(head.headers, "Content-Length"@),
        ) {
            Err(FramingError::InvalidContentLength) => Err(RelayError::InvalidContentLength),
            Err(FramingError::Unsupported) => Err(RelayError::UnsupportedEncoding),
            Ok(encoding) => match header_value(head.headers, "Content-Type"@) {
                None => Err(RelayError::NoContentType),
                Some(t) => if !valid_utf8(t) {
                    Err(RelayError::InvalidContentType)
                } else {
                    match announced_metaint(head.headers) {
                        Ok(metaint) => Ok((encoding, metaint)),
                        Err(e) => Err(e),
                    }
                },
            },
        }
    }
}

/// Whether a relay is mounted on `mount` for a response to the fetch of
/// its stream.
pub open spec fn relay_verdict(s: ServerView, mount: Seq<char>, head: ResponseHeadView) -> Result<
    (TransferEncoding, usize),
    RelayError,
> {
    match stream_verdict(head) {
        Err(e) => Err(e),
        Ok(plan) => match s.admission(mount, true) {
            Some(AdmissionError::MountInUse) => Err(RelayError::MountInUse),
            Some(AdmissionError::RelayLimit) => Err(RelayError::RelayLimit),
            Some(_) => Err(RelayError::TotalSourceLimit),
            None => Ok(plan),
        },
    }
}

/// The properties of a relayed stream: what the headers of the response
/// say, with this server as the user agent.
pub open spec fn relayed_properties(s: ServerView, headers: Seq<HeaderView>) -> PropertiesView {
    PropertiesView {
        uagent: Some(s.properties.server_id@),
        ..crate::ingest::stream_properties(headers)
    }
}

fn metaint_of(headers: &[Header]) -> (r: Result<usize, RelayError>)
    ensures
        r == announced_metaint(header_views(headers@)),
{
    match get_header("Icy-Metaint", headers) {
        None => Ok(0),
        Some(v) => match parse_decimal(v) {
            Some(n) => Ok(n),
            None => Err(RelayError::InvalidMetaint),
        },
    }
}

/// Mounts a relay on `mount` for the response `head` to the fetch of its
/// stream, or says why it is not mounted.
pub fn begin_relay(server: &mut Server, mount: String, head: &ResponseHead, start_time: u64) -> (r:
    Result<Relay, RelayError>)
    requires
        old(server)@.wf(),
    ensures
        final(server)@.wf(),
        match r {
            Ok(relay) => {
                &&& relay_verdict(old(server)@, mount@, head@) matches Ok(plan)
                &&& relay.decoder@ == DecoderState::initial(plan.0)
                &&& relay.parser.metaint == plan.1
                &&& relay.parser.remaining == plan.1
                &&& relay.parser.vec@ == Seq::<u8>::empty()
                &&& relay.source_timeout == old(server)@.properties.limits.timeout_of(mount@)
                &&& final(server)@ == old(server)@.mounted(
                    fresh_source(
                        mount@,
                        relayed_properties(old(server)@, head@.headers),
                        start_time,
                        true,
                    ),
                )
            },
            Err(e) => relay_verdict(old(server)@, mount@, head@) == Err::<
                (TransferEncoding, usize),
                RelayError,
            >(e) && final(server)@ == old(server)@,
        },
{
    let headers = head.headers.as_slice();
    if head.code != 200 {
        return Err(RelayError::BadStatus);
    }
    if get_header("icy-name", headers).is_none() {
        return Err(RelayError::NotAStream);
    }
    let encoding = match select_decoder(
        get_header("Transfer-Encoding", headers),
        get_header("Content-Length", headers),
    ) {
        Err(FramingError::InvalidContentLength) => {
            return Err(RelayError::InvalidContentLength);
        },
        Err(FramingError::Unsupported) => {
            return Err(RelayError::UnsupportedEncoding);
        },
        Ok(encoding) => encoding,
    };
    let content_type = match get_header("Content-Type", headers) {
        None => {
            return Err(RelayError::NoContentType);
        },
        Some(t) => match text_of(t) {
            None => {
                return Err(RelayError::InvalidContentType);
            },
            Some(text) => {
                proof {
                    encode_utf8_decode_utf8(text@);
                }
                text
            },
        },
    };
    let metaint = match metaint_of(headers) {
        Err(e) => {
            return Err(e);
        },
        Ok(metaint) => metaint,
    };
    match server.check_admission(mount.as_str(), true) {
        Some(AdmissionError::MountInUse) => {
            return Err(RelayError::MountInUse);
        },
        Some(AdmissionError::RelayLimit) => {
            return Err(RelayError::RelayLimit);
        },
        Some(_) => {
            return Err(RelayError::TotalSourceLimit);
        },
        None => {},
    }
    let mut properties = Properties::new(content_type);
    populate_properties(&mut properties, headers);
    properties.uagent = Some(server.properties.server_id.clone());
    let source_timeout = server.properties.limits.source_timeout_for(mount.as_str());
    match server.mount(mount, properties, start_time, true) {
        Ok(()) => Ok(
            Relay {
                decoder: StreamDecoder::new(encoding),
                parser: MetaParser::new(metaint),
                source_timeout,
            },
        ),
        Err(_) => Err(RelayError::MountInUse),
    }
}

impl SourceView {
    /// The source after a metadata block came with its stream. A block
    /// that is the one the source has, or that has no text, changes
    /// nothing; one that spells out a title or an address gives the source
    /// new metadata; one that spells out neither leaves it without
    /// metadata; one that cannot be read asks the feeder to stop.
    pub open spec fn after_block(self, block: Seq<u8>) -> SourceView {
        if block == self.metadata_vec {
            self
        } else {
            match decoded_block(block) {
                Ok(Some(m)) => if m.is_empty() {
                    self.with_metadata(None)
                } else {
                    self.with_metadata(Some(m))
                },
                Ok(None) => self,
                Err(_) => SourceView { disconnect_flag: true, ..self },
            }
        }
    }
}

impl ServerView {
    /// The server after a metadata block came with the stream on `mount`.
    pub open spec fn after_block(self, mount: Seq<char>, block: Option<Seq<u8>>) -> ServerView {
        match (self.source_on(mount), block) {
            (Some(s), Some(b)) => self.with_source_as(mount, s.after_block(b)),
            _ => self,
        }
    }
}

impl Server {
    /// Takes in a metadata block that came with the stream on `mount`.
    pub fn relay_metadata(&mut self, mount: &str, block: Option<Vec<u8>>)
        requires
            old(self)@.wf(),
        ensures
            final(self)@.wf(),
            final(self)@ == old(self)@.after_block(mount@, opt_bytes(block)),
    {
        let i = self.source_index(mount);
        if i >= self.sources.len() {
            return ;
        }
        let block = match block {
            None => {
                return ;
            },
            Some(block) => block,
        };
        let ghost before = self@;
        let ghost s = before.sources[i as int];
        proof {
            assert(s.wf());
            lemma_with_source_as_wf(before, mount@, s.after_block(block@));
        }
        if bytes_eq(block.as_slice(), self.sources[i].metadata_vec.as_slice()) {
            assert(before.sources.update(i as int, s) =~= before.sources);
            return ;
        }
        match decode_metadata(block.as_slice()) {
            Ok(Some(m)) => {
                if m.is_empty() {
                    self.sources[i].set_metadata(None);
                } else {
                    self.sources[i].set_metadata(Some(m));
                }
            },
            Ok(None) => {
                assert(before.sources.update(i as int, s) =~= before.sources);
            },
            Err(_) => {
                self.sources[i].disconnect_flag = true;
            },
        }
        assert(self@.sources =~= before.sources.update(i as int, s.after_block(block@)));
    }
}

/// Takes in the first `read` bytes of `buf`, read from the peer that
/// feeds the relay on `mount`: decodes them, takes the metadata blocks out
/// of what they release, lets the last whole block speak, and sends out
/// and counts the audio. Says whether the feeder goes on, as for any source.
pub fn relay_step(
    server: &mut Server,
    mount: &str,
    decoder: &mut StreamDecoder,
    parser: &mut MetaParser,
    buf: &[u8],
    read: usize,
) -> (go_on: bool)
    requires
        old(server)@.wf(),
        read <= buf@.len(),
    ensures
        final(server)@.wf(),
        final(decoder)@ == old(decoder)@.after(buf@.take(read as int)),
        final(parser).metaint == old(parser).metaint,
        ({
            let released = old(decoder)@.produced(buf@.take(read as int));
            let end = demux_run(old(parser).start(), old(parser).metaint, released);
            if final(decoder)@.failure() is None {
                &&& final(parser).remaining == end.remaining
                &&& final(parser).vec@ == end.block
                &&& final(server)@ == old(server)@.after_block(mount@, end.last).after_feed(
                    mount@,
                    end.audio,
                )
            } else {
                &&& final(parser).remaining == old(parser).remaining
                &&& final(parser).vec@ == old(parser).vec@
                &&& final(server)@ == old(server)@
            }
        }),
        go_on == (final(decoder)@.failure() is None && read != 0 && !final(decoder)@.finished()
            && !stopped(final(server)@, mount@)),
{
    let mut data: Vec<u8> = Vec::new();
    proof {
        if old(decoder)@.finished() {
            lemma_finished_is_idle(old(decoder)@, buf@.take(read as int));
        }
        if read == 0 {
            assert(buf@.take(0) =~= Seq::<u8>::empty());
            lemma_nothing_taken(old(decoder)@);
        }
    }
    match decoder.decode(&mut data, buf, read) {
        Ok(_) => {
            assert(data@ =~= old(decoder)@.produced(buf@.take(read as int)));
            let (audio, last) = parser.demux(data.as_slice());
            server.relay_metadata(mount, last);
            server.feed(mount, audio);
            read != 0 && !decoder.is_finished() && !server.should_stop(mount)
        },
        Err(_) => false,
    }
}

} // verus!
