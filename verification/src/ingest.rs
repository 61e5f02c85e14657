//! Ingestion: what is decided when a source asks to be mounted, and what is
//! done with each read from it.

use vstd::prelude::*;
use vstd::utf8::*;
use crate::icy::{populate_properties, with_headers, Properties, PropertiesView};
use crate::request::{
    basic_auth_of, extract_queries, get_basic_auth, get_header, header_value, header_views,
    opt_pair, path_of, Header, HeaderView, RequestHead,
};
use crate::server::{
    fresh_source, is_user, validate_user, AdmissionError, Server, ServerView,
};
use crate::stream_decoder::{DecoderState, StreamDecoder, TransferEncoding};
use crate::text::{
    bytes_eq, decimal_value, has_prefix, lemma_cut_at_ascii, parse_decimal, starts_with, text_of,
    utf8,
};

verus! {

/// The path that cleaning makes of `path`: without repeated slashes and
/// without `.` and `..` segments, as far as they can be resolved.
pub uninterp spec fn cleaned_path(path: Seq<char>) -> Seq<char>;

/// `clean` of path-clean: the cleaned form of `path`.
#[verifier::external_body]
pub(crate) fn clean_path(path: &str) -> (r: String)
    ensures
        r@ == cleaned_path(path@),
{
    path_clean::clean(path)
}

/// `path` without the slash that ends it, if one does.
pub open spec fn without_trailing_slash(path: Seq<u8>) -> Seq<u8> {
    if path.len() > 0 && path.last() == 47 {
        path.drop_last()
    } else {
        path
    }
}

/// Whether `path` begins with `/admin` or with `/api`.
pub open spec fn is_reserved(path: Seq<u8>) -> bool {
    has_prefix(path, utf8("/admin"@)) || has_prefix(path, utf8("/api"@))
}

/// Whether `path` is a single segment below the root: a slash, followed
/// by at least one byte and by no further slash.
pub open spec fn is_single_segment(path: Seq<u8>) -> bool {
    &&& path.len() >= 2
    &&& path[0] == 47
    &&& forall|i: int| 1 <= i < path.len() ==> #[trigger] path[i] != 47
}

/// Whether a source may be mounted on `path`.
pub open spec fn is_mountpoint(path: Seq<u8>) -> bool {
    !is_reserved(path) && is_single_segment(path)
}

/// The mountpoint that a request path names: the cleaned path, without a
/// slash at its end.
pub open spec fn canonical(path: Seq<char>) -> Seq<u8> {
    without_trailing_slash(utf8(cleaned_path(path)))
}

/// Takes the slash off the end of `path`, if it ends in one.
pub fn strip_trailing_slash(path: String) -> (r: String)
    ensures
        utf8(r@) == without_trailing_slash(utf8(path@)),
{
    let bytes = path.as_str().as_bytes();
    let n = bytes.len();
    if n > 0 && bytes[n - 1] == 47 {
        proof {
            encode_utf8_valid_utf8(path@);
            lemma_cut_at_ascii(bytes@, n - 1);
            assert(bytes@.subrange(0, n - 1) =~= bytes@.drop_last());
        }
        match text_of(&bytes[0..n - 1]) {
            Some(stripped) => stripped,
            None => path,
        }
    } else {
        path
    }
}

/// The mountpoint that the path of a request names.
pub fn canonical_mount(path: &str) -> (r: String)
    ensures
        utf8(r@) == canonical(path@),
{
    strip_trailing_slash(clean_path(path))
}

/// Whether `path` is reserved for the control plane.
pub fn check_reserved(path: &[u8]) -> (r: bool)
    ensures
        r == is_reserved(path@),
{
    starts_with(path, "/admin".as_bytes()) || starts_with(path, "/api".as_bytes())
}

/// Whether a source may be mounted on `path`.
pub fn check_mountpoint(path: &str) -> (r: bool)
    ensures
        r == is_mountpoint(utf8(path@)),
{
    let bytes = path.as_bytes();
    if check_reserved(bytes) {
        return false;
    }
    if bytes.len() < 2 || bytes[0] != 47 {
        return false;
    }
    let mut i: usize = 1;
    while i < bytes.len()
        invariant
            1 <= i <= bytes.len(),
            bytes@ == utf8(path@),
            forall|k: int| 1 <= k < i ==> #[trigger] bytes@[k] != 47,
        decreases bytes.len() - i,
    {
        if bytes[i] == 47 {
            assert(bytes@[i as int] == 47);
            return false;
        }
        i += 1;
    }
    true
}

/// Why the framing of a body is not accepted.
#[derive(Clone, Copy, Debug, PartialEq, Eq, Structural)]
pub enum FramingError {
    /// The content length is not a number that the machine can hold.
    InvalidContentLength,
    /// The transfer encoding is unknown, or does not go with a content length.
    Unsupported,
}

/// The framing that a content length alone asks for.
pub open spec fn length_framing(value: Seq<u8>) -> Result<TransferEncoding, FramingError> {
    match decimal_value(value) {
        Some(n) if n <= usize::MAX => Ok(TransferEncoding::Length(n as usize)),
        _ => Err(FramingError::InvalidContentLength),
    }
}

/// The framing that a transfer encoding and a content length ask for: the
/// length where one is given, with the encoding `identity` or none;
/// chunks for `chunked` without a length; identity without either.
pub open spec fn framing(encoding: Option<Seq<u8>>, length: Option<Seq<u8>>) -> Result<
    TransferEncoding,
    FramingError,
> {
    match (encoding, length) {
        (Some(e), Some(v)) => if e == utf8("identity"@) {
            length_framing(v)
        } else {
            Err(FramingError::Unsupported)
        },
        (None, Some(v)) => length_framing(v),
        (Some(e), None) => if e == utf8("chunked"@) {
            Ok(TransferEncoding::Chunked)
        } else if e == utf8("identity"@) {
            Ok(TransferEncoding::Identity)
        } else {
            Err(FramingError::Unsupported)
        },
        (None, None) => Ok(TransferEncoding::Identity),
    }
}

/// The bytes of an optional slice.
pub open spec fn opt_slice(o: Option<&[u8]>) -> Option<Seq<u8>> {
    match o {
        Some(v) => Some(v@),
        None => None,
    }
}

fn length_of(value: &[u8]) -> (r: Result<TransferEncoding, FramingError>)
    ensures
        r == length_framing(value@),
{
    match parse_decimal(value) {
        Some(n) => Ok(TransferEncoding::Length(n)),
        None => Err(FramingError::InvalidContentLength),
    }
}

/// Chooses the framing of a body from the values of `Transfer-Encoding`
/// and `Content-Length`.
pub fn select_decoder(encoding: Option<&[u8]>, length: Option<&[u8]>) -> (r: Result<
    TransferEncoding,
    FramingError,
>)
    ensures
        r == framing(opt_slice(encoding), opt_slice(length)),
{
    match (encoding, length) {
        (Some(e), Some(v)) => if bytes_eq(e, "identity".as_bytes()) {
            length_of(v)
        } else {
            Err(FramingError::Unsupported)
        },
        (None, Some(v)) => length_of(v),
        (Some(e), None) => if bytes_eq(e, "chunked".as_bytes()) {
            Ok(TransferEncoding::Chunked)
        } else if bytes_eq(e, "identity".as_bytes()) {
            Ok(TransferEncoding::Identity)
        } else {
            Err(FramingError::Unsupported)
        },
        (None, None) => Ok(TransferEncoding::Identity),
    }
}

/// Why a source is not mounted.
#[derive(Clone, Copy, Debug, PartialEq, Eq, Structural)]
pub enum IngestError {
    /// The request carries no credentials. Status 401.
    NoCredentials,
    /// No user has these credentials. Status 401.
    BadCredentials,
    /// The path is reserved, or is not a single segment below the root. Status 403.
    InvalidMountpoint,
    /// The request names no content type. Status 403.
    NoContentType,
    /// The content type is not UTF-8. Status 400.
    InvalidContentType,
    /// A source is mounted there already. Status 403.
    MountInUse,
    /// A limit on the number of sources is reached. Status 403.
    TooManySources,
    /// The content length is not a number. Status 400.
    InvalidContentLength,
    /// The transfer encoding is not supported. Status 400.
    UnsupportedEncoding,
    /// `PUT` without an `Expect` header. Status 400.
    MissingExpect,
    /// `PUT` with an `Expect` header that does not say `100-continue`. Status 400.
    UnexpectedExpect,
}

impl IngestError {
    /// The status of the response that tells of this error.
    pub open spec fn status_of(self) -> u16 {
        match self {
            IngestError::NoCredentials | IngestError::BadCredentials => 401,
            IngestError::InvalidMountpoint | IngestError::NoContentType | IngestError::MountInUse
            | IngestError::TooManySources => 403,
            _ => 400,
        }
    }

    /// The status of the response that tells of this error.
    pub fn status(&self) -> (r: u16)
        ensures
            r == self.status_of(),
    {
        match self {
            IngestError::NoCredentials | IngestError::BadCredentials => 401,
            IngestError::InvalidMountpoint | IngestError::NoContentType | IngestError::MountInUse
            | IngestError::TooManySources => 403,
            _ => 400,
        }
    }

    /// The text of the response that tells of this error.
    pub open spec fn message_of(self) -> Seq<char> {
        match self {
            IngestError::NoCredentials => "You need to authenticate"@,
            IngestError::BadCredentials => "Invalid credentials"@,
            IngestError::InvalidMountpoint => "Invalid mountpoint"@,
            IngestError::NoContentType => "No Content-type provided"@,
            IngestError::InvalidContentType => "Unknown unicode found in Content-Type"@,
            IngestError::MountInUse => "Invalid mountpoint"@,
            IngestError::TooManySources => "Too many sources connected"@,
            IngestError::InvalidContentLength => "Invalid Content-Length"@,
            IngestError::UnsupportedEncoding => "Unsupported transfer encoding"@,
            IngestError::MissingExpect => "PUT request must come with Expect header"@,
            IngestError::UnexpectedExpect => "Expected 100-continue in Expect header"@,
        }
    }

    /// The text of the response that tells of this error.
    pub fn message(&self) -> (r: &'static str)
        ensures
            r@ == self.message_of(),
    {
        match self {
            IngestError::NoCredentials => "You need to authenticate",
            IngestError::BadCredentials => "Invalid credentials",
            IngestError::InvalidMountpoint => "Invalid mountpoint",
            IngestError::NoContentType => "No Content-type provided",
            IngestError::InvalidContentType => "Unknown unicode found in Content-Type",
            IngestError::MountInUse => "Invalid mountpoint",
            IngestError::TooManySources => "Too many sources connected",
            IngestError::InvalidContentLength => "Invalid Content-Length",
            IngestError::UnsupportedEncoding => "Unsupported transfer encoding",
            IngestError::MissingExpect => "PUT request must come with Expect header",
            IngestError::UnexpectedExpect => "Expected 100-continue in Expect header",
        }
    }
}

/// What was settled when a source was mounted.
pub struct Ingest {
    pub mount: String,
    pub decoder: StreamDecoder,
    /// Whether the method was `PUT`: the source is then sent the interim
    /// response 100 before its body and a response 200 at the end; else it
    /// is sent a response 200 at once.
    pub put: bool,
    /// Milliseconds that the source has to send something.
    pub source_timeout: u64,
}

/// The framing of the body of a request to mount a source. `SOURCE` has
/// an identity body; with `PUT` the headers decide, and `Expect` must ask
/// for `100-continue`.
pub open spec fn body_framing(put: bool, headers: Seq<HeaderView>) -> Result<
    TransferEncoding,
    IngestError,
> {
    if !put {
        Ok(TransferEncoding::Identity)
    } else {
        match framing(
            header_value(headers, "Transfer-Encoding"@),
            header_value(headers, "Content-Length"@),
        ) {
            Err(FramingError::InvalidContentLength) => Err(IngestError::InvalidContentLength),
            Err(FramingError::Unsupported) => Err(IngestError::UnsupportedEncoding),
            Ok(encoding) => match header_value(headers, "Expect"@) {
                None => Err(IngestError::MissingExpect),
                Some(e) => if e == utf8("100-continue"@) {
                    Ok(encoding)
                } else {
                    Err(IngestError::UnexpectedExpect)
                },
            },
        }
    }
}

/// Whether a source is mounted, and with which framing: it must give the
/// credentials of a user, name a mountpoint that is free and not
/// reserved, name a content type, find the limits on sources not reached,
/// and frame its body in a way that is supported.
pub open spec fn ingest_verdict(
    s: ServerView,
    put: bool,
    credentials: Option<(Seq<char>, Seq<char>)>,
    mount: Seq<char>,
    headers: Seq<HeaderView>,
) -> Result<TransferEncoding, IngestError> {
    match credentials {
        None => Err(IngestError::NoCredentials),
        Some((name, password)) => if !is_user(s.properties.users@, name, password) {
            Err(IngestError::BadCredentials)
        } else if !is_mountpoint(utf8(mount)) {
            Err(IngestError::InvalidMountpoint)
        } else {
            match header_value(headers, "Content-Type"@) {
                None => Err(IngestError::NoContentType),
                Some(content_type) => if !valid_utf8(content_type) {
                    Err(IngestError::InvalidContentType)
                } else {
                    match s.admission(mount, false) {
                        Some(AdmissionError::MountInUse) => Err(IngestError::MountInUse),
                        Some(_) => Err(IngestError::TooManySources),
                        None => body_framing(put, headers),
                    }
                },
            }
        },
    }
}

/// The properties of the stream of a source with these headers.
pub open spec fn stream_properties(headers: Seq<HeaderView>) -> PropertiesView {
    with_headers(
        PropertiesView {
            uagent: None,
            public: false,
            name: None,
            description: None,
            url: None,
            genre: None,
            bitrate: None,
            content_type: match header_value(headers, "Content-Type"@) {
                Some(v) => decode_utf8(v),
                None => Seq::empty(),
            },
        },
        headers,
    )
}

fn check_framing(put: bool, headers: &[Header]) -> (r: Result<TransferEncoding, IngestError>)
    ensures
        r == body_framing(put, header_views(headers@)),
{
    if !put {
        return Ok(TransferEncoding::Identity);
    }
    let encoding = match select_decoder(
        get_header("Transfer-Encoding", headers),
        get_header("Content-Length", headers),
    ) {
        Err(FramingError::InvalidContentLength) => {
            return Err(IngestError::InvalidContentLength);
        },
        Err(FramingError::Unsupported) => {
            return Err(IngestError::UnsupportedEncoding);
        },
        Ok(encoding) => encoding,
    };
    match get_header("Expect", headers) {
        None => Err(IngestError::MissingExpect),
        Some(e) => if bytes_eq(e, "100-continue".as_bytes()) {
            Ok(encoding)
        } else {
            Err(IngestError::UnexpectedExpect)
        },
    }
}

/// Mounts the source that asks for it with these credentials, on this
/// mountpoint and with these headers, or says why it is not mounted.
pub fn admit_ingest(
    server: &mut Server,
    put: bool,
    credentials: Option<(String, String)>,
    mount: String,
    headers: &[Header],
    start_time: u64,
) -> (r: Result<Ingest, IngestError>)
    requires
        old(server)@.wf(),
    ensures
        final(server)@.wf(),
        match r {
            Ok(ingest) => {
                &&& ingest_verdict(
                    old(server)@,
                    put,
                    opt_pair(credentials),
                    mount@,
                    header_views(headers@),
                ) matches Ok(encoding)
                &&& ingest.decoder@ == DecoderState::initial(encoding)
                &&& ingest.mount@ == mount@
                &&& ingest.put == put
                &&& ingest.source_timeout == old(server)@.properties.limits.timeout_of(mount@)
                &&& final(server)@ == old(server)@.mounted(
                    fresh_source(
                        mount@,
                        stream_properties(header_views(headers@)),
                        start_time,
                        false,
                    ),
                )
            },
            Err(e) => {
                &&& ingest_verdict(
                    old(server)@,
                    put,
                    opt_pair(credentials),
                    mount@,
                    header_views(headers@),
                ) == Err::<TransferEncoding, IngestError>(e)
                &&& final(server)@ == old(server)@
            },
        },
{
    match credentials {
        None => {
            return Err(IngestError::NoCredentials);
        },
        Some((name, password)) => {
            if !validate_user(&server.properties, name, password) {
                return Err(IngestError::BadCredentials);
            }
        },
    }
    if !check_mountpoint(mount.as_str()) {
        return Err(IngestError::InvalidMountpoint);
    }
    let content_type = match get_header("Content-Type", headers) {
        None => {
            return Err(IngestError::NoContentType);
        },
        Some(v) => match text_of(v) {
            None => {
                return Err(IngestError::InvalidContentType);
            },
            Some(text) => {
                proof {
                    encode_utf8_decode_utf8(text@);
                }
                text
            },
        },
    };
    match server.check_admission(mount.as_str(), false) {
        Some(AdmissionError::MountInUse) => {
            return Err(IngestError::MountInUse);
        },
        Some(_) => {
            return Err(IngestError::TooManySources);
        },
        None => {},
    }
    let encoding = match check_framing(put, headers) {
        Err(e) => {
            return Err(e);
        },
        Ok(encoding) => encoding,
    };
    let mut properties = Properties::new(content_type);
    populate_properties(&mut properties, headers);
    let source_timeout = server.properties.limits.source_timeout_for(mount.as_str());
    let name = mount.clone();
    match server.mount(mount, properties, start_time, false) {
        Ok(()) => Ok(Ingest { mount: name, decoder: StreamDecoder::new(encoding), put, source_timeout }),
        Err(_) => Err(IngestError::MountInUse),
    }
}

/// Mounts the source that sent the request with the head `head`, or says
/// why it is not mounted. The mountpoint is the path of the request
/// target, cleaned and without a slash at its end.
pub fn begin_ingest(server: &mut Server, head: &RequestHead, put: bool, start_time: u64) -> (r:
    Result<Ingest, IngestError>)
    requires
        old(server)@.wf(),
    ensures
        final(server)@.wf(),
        ({
            let mount = decode_utf8(canonical(decode_utf8(path_of(utf8(head@.path)))));
            let verdict = ingest_verdict(
                old(server)@,
                put,
                basic_auth_of(head@.headers),
                mount,
                head@.headers,
            );
            match r {
                Ok(ingest) => {
                    &&& verdict matches Ok(encoding)
                    &&& ingest.decoder@ == DecoderState::initial(encoding)
                    &&& ingest.mount@ == mount
                    &&& ingest.put == put
                    &&& final(server)@ == old(server)@.mounted(
                        fresh_source(mount, stream_properties(head@.headers), start_time, false),
                    )
                },
                Err(e) => verdict == Err::<TransferEncoding, IngestError>(e) && final(server)@
                    == old(server)@,
            }
        }),
{
    let credentials = get_basic_auth(head.headers.as_slice());
    let (path, _) = extract_queries(head.path.as_str());
    let mount = canonical_mount(path.as_str());
    proof {
        encode_utf8_decode_utf8(path@);
        encode_utf8_decode_utf8(mount@);
    }
    admit_ingest(server, put, credentials, mount, head.headers.as_slice(), start_time)
}

/// Whether the feeder of the source on `mount` has to stop.
pub open spec fn stopped(s: ServerView, mount: Seq<char>) -> bool {
    match s.source_on(mount) {
        Some(source) => source.disconnect_flag,
        None => true,
    }
}

/// Takes in the first `read` bytes of `buf`, read from the source on
/// `mount`: decodes them, and sends out and counts what they release.
/// Says whether the feeder goes on: not after an empty read, after the
/// end of the body, after a breach of the framing, or when the source was
/// asked to stop. A body that breaks its framing releases nothing.
pub fn ingest_step(
    server: &mut Server,
    mount: &str,
    decoder: &mut StreamDecoder,
    buf: &[u8],
    read: usize,
) -> (go_on: bool)
    requires
        old(server)@.wf(),
        read <= buf@.len(),
    ensures
        final(server)@.wf(),
        final(decoder)@ == old(decoder)@.after(buf@.take(read as int)),
        final(server)@ == if final(decoder)@.failure() is None {
            old(server)@.after_feed(mount@, old(decoder)@.produced(buf@.take(read as int)))
        } else {
            old(server)@
        },
        go_on == (final(decoder)@.failure() is None && read != 0 && !final(decoder)@.finished()
            && !stopped(final(server)@, mount@)),
{
    let mut data: Vec<u8> = Vec::new();
    match decoder.decode(&mut data, buf, read) {
        Ok(_) => {
            assert(data@ =~= old(decoder)@.produced(buf@.take(read as int)));
            server.feed(mount, data);
            read != 0 && !decoder.is_finished() && !server.should_stop(mount)
        },
        Err(_) => false,
    }
}

} // verus!
