//! The heads of the responses that the server sends, as bytes.

use vstd::prelude::*;
use crate::icy::Properties;
use crate::icy::PropertiesView;
use crate::request::{
    parse_response, parsed_response, response_progress, response_read, response_verdict,
    HeadError, ResponseHead,
};
use crate::text::{append, append_str, decimal, decimal_digits, utf8};

verus! {

/// The first second that has no HTTP date: the start of the year 10000.
pub open spec fn date_limit() -> u64 {
    253402300800
}

/// The HTTP date of the second `secs` after the epoch, as in
/// `Fri, 15 May 2015 15:34:21 GMT`.
pub uninterp spec fn http_date(secs: u64) -> Seq<char>;

/// `fmt_http_date` of httpdate, for the time `secs` seconds after the
/// epoch: that time as an HTTP date. The crate panics from the year 10000 on.
#[verifier::external_body]
pub(crate) fn fmt_http_date(secs: u64) -> (r: String)
    requires
        secs < date_limit(),
    ensures
        r@ == http_date(secs),
{
    httpdate::fmt_http_date(std::time::UNIX_EPOCH + std::time::Duration::from_secs(secs))
}

/// A header line: the name, what follows it, and CRLF.
pub open spec fn header_line(name: Seq<char>, value: Seq<u8>) -> Seq<u8> {
    utf8(name) + value + utf8("\r\n"@)
}

/// The lines that tell the time and forbid caching, and the empty line
/// that ends the head.
pub open spec fn info_lines(now: u64) -> Seq<u8> {
    header_line("Date: "@, utf8(http_date(now))) + utf8("Cache-Control: no-cache, no-store\r\n"@)
        + utf8("Expires: Mon, 26 Jul 1997 05:00:00 GMT\r\n"@) + utf8("Pragma: no-cache\r\n"@)
        + utf8("Access-Control-Allow-Origin: *\r\n\r\n"@)
}

/// The lines that announce a body of the type `message.0` with the text `message.1`.
pub open spec fn content_lines(message: Option<(Seq<char>, Seq<char>)>) -> Seq<u8> {
    match message {
        Some((content_type, text)) => header_line("Content-Type: "@, utf8(content_type))
            + header_line("Content-Length: "@, decimal_digits(utf8(text).len())),
        None => Seq::empty(),
    }
}

/// The text of a message, if there is one.
pub open spec fn body_of(message: Option<(Seq<char>, Seq<char>)>) -> Seq<u8> {
    match message {
        Some((_, text)) => utf8(text),
        None => Seq::empty(),
    }
}

/// A response: the status line, the name of the server, the lines for the
/// body, further lines, the time, and the body.
pub open spec fn response(
    status: Seq<char>,
    id: Seq<char>,
    message: Option<(Seq<char>, Seq<char>)>,
    further: Seq<char>,
    now: u64,
) -> Seq<u8> {
    utf8(status) + header_line("Server: "@, utf8(id)) + utf8("Connection: Close\r\n"@)
        + content_lines(message) + utf8(further) + info_lines(now) + body_of(message)
}

/// The view of an optional message.
pub open spec fn message_view(message: Option<(&str, &str)>) -> Option<(Seq<char>, Seq<char>)> {
    match message {
        Some((content_type, text)) => Some((content_type@, text@)),
        None => None,
    }
}

fn push_line(out: &mut Vec<u8>, name: &str, value: &[u8])
    ensures
        final(out)@ == old(out)@ + header_line(name@, value@),
{
    append_str(out, name);
    append(out, value);
    append_str(out, "\r\n");
    assert(out@ =~= old(out)@ + header_line(name@, value@));
}

/// Appends the lines that tell the time and forbid caching, and the empty
/// line that ends the head.
pub fn server_info(out: &mut Vec<u8>, now: u64)
    requires
        now < date_limit(),
    ensures
        final(out)@ == old(out)@ + info_lines(now),
{
    let date = fmt_http_date(now);
    push_line(out, "Date: ", date.as_str().as_bytes());
    append_str(out, "Cache-Control: no-cache, no-store\r\n");
    append_str(out, "Expires: Mon, 26 Jul 1997 05:00:00 GMT\r\n");
    append_str(out, "Pragma: no-cache\r\n");
    append_str(out, "Access-Control-Allow-Origin: *\r\n\r\n");
    assert(out@ =~= old(out)@ + info_lines(now));
}

/// Appends a response with the given status line and, after the lines for
/// the body, the given further lines.
pub fn send_status(
    out: &mut Vec<u8>,
    status: &str,
    id: &str,
    message: Option<(&str, &str)>,
    further: &str,
    now: u64,
)
    requires
        now < date_limit(),
    ensures
        final(out)@ == old(out)@ + response(status@, id@, message_view(message), further@, now),
{
    let ghost start = out@;
    append_str(out, status);
    push_line(out, "Server: ", id.as_bytes());
    append_str(out, "Connection: Close\r\n");
    let ghost first = out@;
    match message {
        Some((content_type, text)) => {
            push_line(out, "Content-Type: ", content_type.as_bytes());
            let length = decimal(text.as_bytes().len() as u64);
            push_line(out, "Content-Length: ", length.as_slice());
        },
        None => {},
    }
    assert(out@ =~= first + content_lines(message_view(message)));
    append_str(out, further);
    server_info(out, now);
    let ghost head = out@;
    match message {
        Some((_, text)) => {
            append_str(out, text);
        },
        None => {},
    }
    assert(out@ =~= head + body_of(message_view(message)));
    assert(out@ =~= start + response(status@, id@, message_view(message), further@, now));
}

/// Appends a response 400.
pub fn send_bad_request(out: &mut Vec<u8>, id: &str, message: Option<(&str, &str)>, now: u64)
    requires
        now < date_limit(),
    ensures
        final(out)@ == old(out)@ + response(
            "HTTP/1.0 400 Bad Request\r\n"@,
            id@,
            message_view(message),
            ""@,
            now,
        ),
{
    send_status(out, "HTTP/1.0 400 Bad Request\r\n", id, message, "", now);
}

/// Appends a response 403.
pub fn send_forbidden(out: &mut Vec<u8>, id: &str, message: Option<(&str, &str)>, now: u64)
    requires
        now < date_limit(),
    ensures
        final(out)@ == old(out)@ + response(
            "HTTP/1.0 403 Forbidden\r\n"@,
            id@,
            message_view(message),
            ""@,
            now,
        ),
{
    send_status(out, "HTTP/1.0 403 Forbidden\r\n", id, message, "", now);
}

/// Appends a response 401, which asks for Basic credentials.
pub fn send_unauthorized(out: &mut Vec<u8>, id: &str, message: Option<(&str, &str)>, now: u64)
    requires
        now < date_limit(),
    ensures
        final(out)@ == old(out)@ + response(
            "HTTP/1.0 401 Authorization Required\r\n"@,
            id@,
            message_view(message),
            "WWW-Authenticate: Basic realm=\"Icy Server\"\r\n"@,
            now,
        ),
{
    send_status(
        out,
        "HTTP/1.0 401 Authorization Required\r\n",
        id,
        message,
        "WWW-Authenticate: Basic realm=\"Icy Server\"\r\n",
        now,
    );
}

/// Appends a response 404.
pub fn send_not_found(out: &mut Vec<u8>, id: &str, message: Option<(&str, &str)>, now: u64)
    requires
        now < date_limit(),
    ensures
        final(out)@ == old(out)@ + response(
            "HTTP/1.0 404 File Not Found\r\n"@,
            id@,
            message_view(message),
            ""@,
            now,
        ),
{
    send_status(out, "HTTP/1.0 404 File Not Found\r\n", id, message, "", now);
}

/// Appends a response 200.
pub fn send_ok(out: &mut Vec<u8>, id: &str, message: Option<(&str, &str)>, now: u64)
    requires
        now < date_limit(),
    ensures
        final(out)@ == old(out)@ + response(
            "HTTP/1.0 200 OK\r\n"@,
            id@,
            message_view(message),
            ""@,
            now,
        ),
{
    send_status(out, "HTTP/1.0 200 OK\r\n", id, message, "", now);
}

/// Appends the interim response 100, which lets a source go on with its body.
pub fn send_continue(out: &mut Vec<u8>, id: &str, now: u64)
    requires
        now < date_limit(),
    ensures
        final(out)@ == old(out)@ + response("HTTP/1.0 100 Continue\r\n"@, id@, None, ""@, now),
{
    send_status(out, "HTTP/1.0 100 Continue\r\n", id, None, "", now);
}

/// Appends a response 500.
pub fn send_internal_error(out: &mut Vec<u8>, id: &str, message: Option<(&str, &str)>, now: u64)
    requires
        now < date_limit(),
    ensures
        final(out)@ == old(out)@ + response(
            "HTTP/1.0 500 Internal Server Error\r\n"@,
            id@,
            message_view(message),
            ""@,
            now,
        ),
{
    send_status(out, "HTTP/1.0 500 Internal Server Error\r\n", id, message, "", now);
}

/// Appends a response 405, which names the methods that are served.
pub fn send_method_not_allowed(out: &mut Vec<u8>, id: &str, now: u64)
    requires
        now < date_limit(),
    ensures
        final(out)@ == old(out)@ + response(
            "HTTP/1.0 405 Method Not Allowed\r\n"@,
            id@,
            None,
            "Allow: GET, SOURCE\r\n"@,
            now,
        ),
{
    send_status(out, "HTTP/1.0 405 Method Not Allowed\r\n", id, None, "Allow: GET, SOURCE\r\n", now);
}

/// Appends what was read to `buffer` and looks for the head of a response
/// in it: the head once it is complete, nothing while more bytes are
/// needed and allowed, and an error once the parser refuses the bytes or
/// more than `max_len` of them came without completing the head.
pub fn read_http_response(buffer: &mut Vec<u8>, read: &[u8], max_len: usize) -> (r: Result<
    Option<ResponseHead>,
    HeadError,
>)
    ensures
        final(buffer)@ == old(buffer)@ + read@,
        response_read(r) == response_verdict(
            parsed_response(final(buffer)@),
            final(buffer)@.len() as usize,
            max_len,
        ),
{
    append(buffer, read);
    response_progress(parse_response(buffer.as_slice()), buffer.len(), max_len)
}

/// The text of a property, or `fallback` where the source did not give it.
pub open spec fn or_default(value: Option<Seq<char>>, fallback: Seq<char>) -> Seq<u8> {
    match value {
        Some(v) => utf8(v),
        None => utf8(fallback),
    }
}

/// The lines of a listener's response that do not depend on the stream,
/// but for its content type.
pub open spec fn listener_fixed(id: Seq<char>, content_type: Seq<char>, now: u64) -> Seq<u8> {
    utf8("HTTP/1.0 200 OK\r\n"@) + header_line("Server: "@, utf8(id)) + utf8(
        "Connection: Close\r\n"@,
    ) + header_line("Date: "@, utf8(http_date(now))) + header_line(
        "Content-Type: "@,
        utf8(content_type),
    ) + utf8(
        "Cache-Control: no-cache, no-store\r\nExpires: Mon, 26 Jul 1997 05:00:00 GMT\r\nPragma: no-cache\r\nAccess-Control-Allow-Origin: *\r\n"@,
    )
}

/// The lines that a listener's response has only sometimes: the interval
/// of the metadata, if the listener asked for metadata, and the bit rate,
/// if the source gave one.
pub open spec fn listener_optional(
    bitrate: Option<Seq<char>>,
    meta_enabled: bool,
    metaint: usize,
) -> Seq<u8> {
    (if meta_enabled {
        header_line("icy-metaint:"@, decimal_digits(metaint as nat))
    } else {
        Seq::empty()
    }) + (match bitrate {
        Some(br) => header_line("icy-br:"@, utf8(br)),
        None => Seq::empty(),
    })
}

/// The lines that tell a listener of the stream, and the empty line that
/// ends the head.
pub open spec fn listener_stream(properties: PropertiesView) -> Seq<u8> {
    header_line("icy-description:"@, or_default(properties.description, "Unknown"@))
        + header_line("icy-genre:"@, or_default(properties.genre, "Undefined"@)) + header_line(
        "icy-name:"@,
        or_default(properties.name, "Unnamed Station"@),
    ) + header_line(
        "icy-pub:"@,
        decimal_digits(
            if properties.public {
                1nat
            } else {
                0nat
            },
        ),
    ) + header_line("icy-url:"@, or_default(properties.url, "Unknown"@)) + utf8("\r\n"@)
}

/// The head of the response to a listener: status 200, the content type
/// of the source, no caching, the interval of the metadata if the listener
/// asked for it, and what the source says of its stream.
pub open spec fn listener_head(
    id: Seq<char>,
    properties: PropertiesView,
    meta_enabled: bool,
    metaint: usize,
    now: u64,
) -> Seq<u8> {
    listener_fixed(id, properties.content_type, now) + listener_optional(
        properties.bitrate,
        meta_enabled,
        metaint,
    ) + listener_stream(properties)
}

fn push_property(out: &mut Vec<u8>, name: &str, value: &Option<String>, fallback: &str)
    ensures
        final(out)@ == old(out)@ + header_line(
            name@,
            or_default(crate::request::opt_text(*value), fallback@),
        ),
{
    match value {
        Some(v) => push_line(out, name, v.as_str().as_bytes()),
        None => push_line(out, name, fallback.as_bytes()),
    }
}

fn push_fixed(out: &mut Vec<u8>, id: &str, content_type: &str, now: u64)
    requires
        now < date_limit(),
    ensures
        final(out)@ == old(out)@ + listener_fixed(id@, content_type@, now),
{
    append_str(out, "HTTP/1.0 200 OK\r\n");
    push_line(out, "Server: ", id.as_bytes());
    append_str(out, "Connection: Close\r\n");
    let date = fmt_http_date(now);
    push_line(out, "Date: ", date.as_str().as_bytes());
    push_line(out, "Content-Type: ", content_type.as_bytes());
    append_str(
        out,
        "Cache-Control: no-cache, no-store\r\nExpires: Mon, 26 Jul 1997 05:00:00 GMT\r\nPragma: no-cache\r\nAccess-Control-Allow-Origin: *\r\n",
    );
    assert(out@ =~= old(out)@ + listener_fixed(id@, content_type@, now));
}

fn push_optional(out: &mut Vec<u8>, bitrate: &Option<String>, meta_enabled: bool, metaint: usize)
    ensures
        final(out)@ == old(out)@ + listener_optional(
            crate::request::opt_text(*bitrate),
            meta_enabled,
            metaint,
        ),
{
    if meta_enabled {
        let interval = decimal(metaint as u64);
        push_line(out, "icy-metaint:", interval.as_slice());
    }
    match bitrate {
        Some(br) => push_line(out, "icy-br:", br.as_str().as_bytes()),
        None => {},
    }
    assert(out@ =~= old(out)@ + listener_optional(
        crate::request::opt_text(*bitrate),
        meta_enabled,
        metaint,
    ));
}

fn push_stream(out: &mut Vec<u8>, properties: &Properties)
    ensures
        final(out)@ == old(out)@ + listener_stream(properties@),
{
    push_property(out, "icy-description:", &properties.description, "Unknown");
    push_property(out, "icy-genre:", &properties.genre, "Undefined");
    push_property(out, "icy-name:", &properties.name, "Unnamed Station");
    let public = decimal(
        if properties.public {
            1
        } else {
            0
        },
    );
    push_line(out, "icy-pub:", public.as_slice());
    push_property(out, "icy-url:", &properties.url, "Unknown");
    append_str(out, "\r\n");
    assert(out@ =~= old(out)@ + listener_stream(properties@));
}

/// Appends the head of the response to a listener.
pub fn send_listener_ok(
    out: &mut Vec<u8>,
    id: &str,
    properties: &Properties,
    meta_enabled: bool,
    metaint: usize,
    now: u64,
)
    requires
        now < date_limit(),
    ensures
        final(out)@ == old(out)@ + listener_head(id@, properties@, meta_enabled, metaint, now),
{
    push_fixed(out, id, properties.content_type.as_str(), now);
    push_optional(out, &properties.bitrate, meta_enabled, metaint);
    push_stream(out, properties);
    assert(out@ =~= old(out)@ + listener_head(id@, properties@, meta_enabled, metaint, now));
}

} // verus!
