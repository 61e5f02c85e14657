use rusty_zenith::icy::Properties;
use rusty_zenith::request::{HeadError, Header};
use rusty_zenith::response::{
    read_http_response, send_bad_request, send_continue, send_forbidden, send_internal_error,
    send_listener_ok, send_method_not_allowed, send_not_found, send_ok, send_unauthorized,
    server_info,
};

const INFO: &str = "Date: Sun, 02 Oct 2016 14:44:11 GMT\r\nCache-Control: no-cache, no-store\r\nExpires: Mon, 26 Jul 1997 05:00:00 GMT\r\nPragma: no-cache\r\nAccess-Control-Allow-Origin: *\r\n\r\n";
const NOW: u64 = 1475419451;

fn text(bytes: Vec<u8>) -> String {
    String::from_utf8(bytes).unwrap()
}

#[test]
fn info_lines_tell_the_time() {
    let mut out = b"x".to_vec();
    server_info(&mut out, NOW);
    assert_eq!(text(out), format!("x{}", INFO));
    let mut out = Vec::new();
    server_info(&mut out, 0);
    assert!(text(out).starts_with("Date: Thu, 01 Jan 1970 00:00:00 GMT\r\n"));
}

#[test]
fn ok_with_a_message() {
    let mut out = Vec::new();
    send_ok(&mut out, "Zenith", Some(("text/plain; charset=utf-8", "Success")), NOW);
    assert_eq!(
        text(out),
        format!(
            "HTTP/1.0 200 OK\r\nServer: Zenith\r\nConnection: Close\r\nContent-Type: text/plain; charset=utf-8\r\nContent-Length: 7\r\n{}Success",
            INFO
        )
    );
}

#[test]
fn ok_without_a_message() {
    let mut out = Vec::new();
    send_ok(&mut out, "Zenith", None, NOW);
    assert_eq!(
        text(out),
        format!("HTTP/1.0 200 OK\r\nServer: Zenith\r\nConnection: Close\r\n{}", INFO)
    );
}

#[test]
fn content_length_counts_bytes() {
    let mut out = Vec::new();
    send_bad_request(&mut out, "id", Some(("text/plain", "\u{e9}t\u{e9} 0123456789")), NOW);
    assert_eq!(
        text(out),
        format!(
            "HTTP/1.0 400 Bad Request\r\nServer: id\r\nConnection: Close\r\nContent-Type: text/plain\r\nContent-Length: 16\r\n{}\u{e9}t\u{e9} 0123456789",
            INFO
        )
    );
}

#[test]
fn status_lines() {
    let mut out = Vec::new();
    send_forbidden(&mut out, "id", None, NOW);
    assert!(text(out).starts_with("HTTP/1.0 403 Forbidden\r\nServer: id\r\n"));
    let mut out = Vec::new();
    send_not_found(&mut out, "id", Some(("text/html; charset=utf-8", "<b>404</b>")), NOW);
    let s = text(out);
    assert!(s.starts_with("HTTP/1.0 404 File Not Found\r\nServer: id\r\nConnection: Close\r\nContent-Type: text/html; charset=utf-8\r\nContent-Length: 10\r\nDate: "));
    assert!(s.ends_with("\r\n\r\n<b>404</b>"));
    let mut out = Vec::new();
    send_internal_error(&mut out, "id", None, NOW);
    assert!(text(out).starts_with("HTTP/1.0 500 Internal Server Error\r\n"));
    let mut out = Vec::new();
    send_continue(&mut out, "id", NOW);
    assert_eq!(
        text(out),
        format!("HTTP/1.0 100 Continue\r\nServer: id\r\nConnection: Close\r\n{}", INFO)
    );
}

#[test]
fn unauthorized_asks_for_credentials() {
    let mut out = Vec::new();
    send_unauthorized(&mut out, "id", Some(("text/plain; charset=utf-8", "You need to authenticate")), NOW);
    assert_eq!(
        text(out),
        format!(
            "HTTP/1.0 401 Authorization Required\r\nServer: id\r\nConnection: Close\r\nContent-Type: text/plain; charset=utf-8\r\nContent-Length: 24\r\nWWW-Authenticate: Basic realm=\"Icy Server\"\r\n{}You need to authenticate",
            INFO
        )
    );
}

#[test]
fn method_not_allowed_names_the_methods() {
    let mut out = Vec::new();
    send_method_not_allowed(&mut out, "id", NOW);
    assert_eq!(
        text(out),
        format!(
            "HTTP/1.0 405 Method Not Allowed\r\nServer: id\r\nConnection: Close\r\nAllow: GET, SOURCE\r\n{}",
            INFO
        )
    );
}

#[test]
fn listener_head_with_everything() {
    let mut properties = Properties::new("audio/mpeg".to_string());
    properties.bitrate = Some("128".to_string());
    properties.description = Some("Desc".to_string());
    properties.genre = Some("Jazz".to_string());
    properties.name = Some("Radio".to_string());
    properties.url = Some("http://r".to_string());
    properties.public = true;
    let mut out = Vec::new();
    send_listener_ok(&mut out, "Zenith", &properties, true, 16000, NOW);
    assert_eq!(
        text(out),
        "HTTP/1.0 200 OK\r\nServer: Zenith\r\nConnection: Close\r\nDate: Sun, 02 Oct 2016 14:44:11 GMT\r\nContent-Type: audio/mpeg\r\nCache-Control: no-cache, no-store\r\nExpires: Mon, 26 Jul 1997 05:00:00 GMT\r\nPragma: no-cache\r\nAccess-Control-Allow-Origin: *\r\nicy-metaint:16000\r\nicy-br:128\r\nicy-description:Desc\r\nicy-genre:Jazz\r\nicy-name:Radio\r\nicy-pub:1\r\nicy-url:http://r\r\n\r\n"
    );
}

#[test]
fn listener_head_with_defaults() {
    let properties = Properties::new("audio/ogg".to_string());
    let mut out = Vec::new();
    send_listener_ok(&mut out, "Zenith", &properties, false, 16000, NOW);
    assert_eq!(
        text(out),
        "HTTP/1.0 200 OK\r\nServer: Zenith\r\nConnection: Close\r\nDate: Sun, 02 Oct 2016 14:44:11 GMT\r\nContent-Type: audio/ogg\r\nCache-Control: no-cache, no-store\r\nExpires: Mon, 26 Jul 1997 05:00:00 GMT\r\nPragma: no-cache\r\nAccess-Control-Allow-Origin: *\r\nicy-description:Unknown\r\nicy-genre:Undefined\r\nicy-name:Unnamed Station\r\nicy-pub:0\r\nicy-url:Unknown\r\n\r\n"
    );
}

#[test]
fn response_head_is_read_piece_by_piece() {
    let mut buffer = Vec::new();
    assert_eq!(read_http_response(&mut buffer, b"HTTP/1.1 302 Fou", 8192), Ok(None));
    assert_eq!(buffer, b"HTTP/1.1 302 Fou".to_vec());
    let head = read_http_response(&mut buffer, b"nd\r\nLocation: /b\r\n\r\nrest", 8192)
        .unwrap()
        .unwrap();
    assert_eq!(head.code, 302);
    assert_eq!(head.reason, "Found");
    assert_eq!(
        head.headers,
        vec![Header { name: "Location".to_string(), value: b"/b".to_vec() }]
    );
    assert_eq!(&buffer[head.body_offset..], b"rest");
}

#[test]
fn response_head_that_is_too_long_or_wrong_is_given_up() {
    let mut buffer = Vec::new();
    assert_eq!(
        read_http_response(&mut buffer, b"HTTP/1.1 200 OK\r\nX: y", 10),
        Err(HeadError::TooLong)
    );
    let mut buffer = Vec::new();
    assert_eq!(
        read_http_response(&mut buffer, b"ICY 200 OK\r\n\r\n", 8192),
        Err(HeadError::Invalid)
    );
}
