use rusty_zenith::request::{
    extract_queries, get_basic_auth, get_header, get_queries_for, read_request,
    split_credentials, HeadError, Header, Query,
};

fn header(name: &str, value: &[u8]) -> Header {
    Header { name: name.to_string(), value: value.to_vec() }
}

fn query(field: &str, value: &str) -> Query {
    Query { field: field.to_string(), value: value.to_string() }
}

#[test]
fn target_without_query_is_all_path() {
    let (path, queries) = extract_queries("/radio");
    assert_eq!(path, "/radio");
    assert_eq!(queries, None);
}

#[test]
fn target_is_split_at_the_first_question_mark() {
    let (path, queries) = extract_queries("/a?b=c?d");
    assert_eq!(path, "/a");
    assert_eq!(queries, Some(vec![query("b", "c?d")]));
    let (path, queries) = extract_queries("/a?");
    assert_eq!(path, "/a");
    assert_eq!(queries, Some(vec![]));
}

#[test]
fn queries_are_percent_decoded() {
    let (path, queries) = extract_queries(
        "/admin/metadata?mode=updinfo&mount=%2Fr&song=A+B%21&url=%zz%4&novalue&=empty&e=&p=%2B+",
    );
    assert_eq!(path, "/admin/metadata");
    assert_eq!(
        queries,
        Some(vec![
            query("mode", "updinfo"),
            query("mount", "/r"),
            query("song", "A B!"),
            query("url", "%zz%4"),
            query("", "empty"),
            query("e", ""),
            query("p", "+ "),
        ])
    );
}

#[test]
fn query_that_does_not_decode_to_text_is_left_out() {
    let (_, queries) = extract_queries("/x?a=%ff&b=%C3%A9&%fe=c&d=1=2");
    assert_eq!(queries, Some(vec![query("b", "\u{e9}"), query("d", "1=2")]));
}

#[test]
fn last_query_of_a_name_counts() {
    let queries = vec![query("mount", "/a"), query("song", "s"), query("mount", "/b")];
    let values = get_queries_for(vec!["mount", "song", "url"], &queries);
    assert_eq!(values, vec![Some("/b".to_string()), Some("s".to_string()), None]);
    assert_eq!(get_queries_for(vec![], &queries), Vec::<Option<String>>::new());
    assert_eq!(get_queries_for(vec!["mount"], &[]), vec![None]);
}

#[test]
fn header_is_found_whatever_its_case() {
    let headers = vec![
        header("Host", b"x"),
        header("content-TYPE", b"audio/mpeg"),
        header("Content-Type", b"second"),
    ];
    assert_eq!(get_header("Content-Type", &headers), Some(&b"audio/mpeg"[..]));
    assert_eq!(get_header("HOST", &headers), Some(&b"x"[..]));
    assert_eq!(get_header("Expect", &headers), None);
    assert_eq!(get_header("Content-Typ", &headers), None);
}

#[test]
fn basic_credentials_are_decoded() {
    let headers = vec![header("authorization", b"Basic YWRtaW46aGFja21l")];
    assert_eq!(
        get_basic_auth(&headers),
        Some(("admin".to_string(), "hackme".to_string()))
    );
    let headers = vec![header("Authorization", b"Basic c291cmNlOmhhY2ttZQ==")];
    assert_eq!(
        get_basic_auth(&headers),
        Some(("source".to_string(), "hackme".to_string()))
    );
    let headers = vec![header("Authorization", b"Basic dXNlcjpwYTpzcw==")];
    assert_eq!(
        get_basic_auth(&headers),
        Some(("user".to_string(), "pa:ss".to_string()))
    );
}

#[test]
fn credentials_that_are_not_well_formed_are_none() {
    let cases: Vec<&[u8]> = vec![
        b"Basic",
        b"Basic ",
        b"basic YWRtaW46aGFja21l",
        b"Basic YWRtaW46aGFja21",
        b"Basic YWRtaW46aGFja21l ",
        b"Basic YWRt*W46aGFja21l",
        b"Basic QQ==",
        b"Basic QR==",
        b"Basic /zph",
        b"Basic ====",
        b"Bearer YWRtaW46aGFja21l",
    ];
    for value in cases {
        assert_eq!(get_basic_auth(&[header("Authorization", value)]), None);
    }
    assert_eq!(get_basic_auth(&[]), None);
    assert_eq!(get_basic_auth(&[header("Host", b"Basic YWRtaW46aGFja21l")]), None);
}

#[test]
fn credentials_are_split_at_the_first_colon() {
    assert_eq!(split_credentials(b"a:b:c"), Some(("a".to_string(), "b:c".to_string())));
    assert_eq!(split_credentials(b":"), Some((String::new(), String::new())));
    assert_eq!(split_credentials(b"ab"), None);
    assert_eq!(split_credentials(b"a:\xff"), None);
}

#[test]
fn complete_head_is_parsed() {
    let message = b"PUT /radio?x=1 HTTP/1.1\r\nHost: example\r\nContent-Type: audio/mpeg\r\n\r\nBODY";
    let head = read_request(message, 8192).unwrap().unwrap();
    assert_eq!(head.method, "PUT");
    assert_eq!(head.path, "/radio?x=1");
    assert_eq!(
        head.headers,
        vec![header("Host", b"example"), header("Content-Type", b"audio/mpeg")]
    );
    assert_eq!(head.body_offset, message.len() - 4);
    assert_eq!(&message[head.body_offset..], b"BODY");
}

#[test]
fn incomplete_head_asks_for_more_until_it_is_too_long() {
    let message = b"GET /radio HTTP/1.1\r\nHost: exam";
    assert_eq!(read_request(message, 8192), Ok(None));
    assert_eq!(read_request(message, message.len()), Ok(None));
    assert_eq!(read_request(message, message.len() - 1), Err(HeadError::TooLong));
    assert_eq!(read_request(b"", 0), Ok(None));
}

#[test]
fn head_that_is_no_request_is_refused() {
    assert_eq!(read_request(b"GET /a HTTP/1.1\r\nBad Header: x\r\n\r\n", 8192), Err(HeadError::Invalid));
    assert_eq!(read_request(b"\x01\x02 / HTTP/1.1\r\n\r\n", 8192), Err(HeadError::Invalid));
    let mut many = b"GET / HTTP/1.1\r\n".to_vec();
    for i in 0..33 {
        many.extend_from_slice(format!("H{}: v\r\n", i).as_bytes());
    }
    many.extend_from_slice(b"\r\n");
    assert_eq!(read_request(&many, 8192), Err(HeadError::Invalid));
}

#[test]
fn complete_head_counts_even_beyond_the_allowed_length() {
    let message = b"GET / HTTP/1.0\r\n\r\n";
    let head = read_request(message, 1).unwrap().unwrap();
    assert_eq!(head.method, "GET");
    assert_eq!(head.body_offset, message.len());
    assert!(head.headers.is_empty());
}
