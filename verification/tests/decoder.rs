use rusty_zenith::stream_decoder::{DecodeError, StreamDecoder, TransferEncoding};

#[test]
fn identity_passes_bytes_through() {
    let mut decoder = StreamDecoder::new(TransferEncoding::Identity);
    let mut out = Vec::new();
    assert_eq!(decoder.decode(&mut out, b"hello world", 5), Ok(5));
    assert_eq!(out, b"hello".to_vec());
    assert!(!decoder.is_finished());
    assert_eq!(decoder.decode(&mut out, b"", 0), Ok(0));
    assert!(!decoder.is_finished());
}

#[test]
fn length_stops_after_its_bytes() {
    let mut decoder = StreamDecoder::new(TransferEncoding::Length(7));
    let mut out = Vec::new();
    assert!(!decoder.is_finished());
    assert_eq!(decoder.decode(&mut out, b"abcd", 4), Ok(4));
    assert!(!decoder.is_finished());
    assert_eq!(decoder.decode(&mut out, b"efghij", 6), Ok(3));
    assert_eq!(out, b"abcdefg".to_vec());
    assert!(decoder.is_finished());
    assert_eq!(decoder.decode(&mut out, b"klm", 3), Ok(0));
    assert_eq!(decoder.decode(&mut out, b"klm", 3), Ok(0));
    assert_eq!(out, b"abcdefg".to_vec());
}

#[test]
fn length_zero_is_finished_at_once() {
    let mut decoder = StreamDecoder::new(TransferEncoding::Length(0));
    let mut out = Vec::new();
    assert!(decoder.is_finished());
    assert_eq!(decoder.decode(&mut out, b"abc", 3), Ok(0));
    assert!(out.is_empty());
}

#[test]
fn chunked_releases_whole_chunks() {
    let mut decoder = StreamDecoder::new(TransferEncoding::Chunked);
    let mut out = Vec::new();
    let body = b"5\r\nhello\r\n6;ext=1\r\n world\r\n0\r\n\r\n";
    assert_eq!(decoder.decode(&mut out, body, body.len()), Ok(11));
    assert_eq!(out, b"hello world".to_vec());
    assert!(decoder.is_finished());
    assert_eq!(decoder.decode(&mut out, b"more", 4), Ok(0));
    assert_eq!(out, b"hello world".to_vec());
}

#[test]
fn chunked_holds_a_chunk_until_it_is_closed() {
    let mut decoder = StreamDecoder::new(TransferEncoding::Chunked);
    let mut out = Vec::new();
    assert_eq!(decoder.decode(&mut out, b"A\r\n01234", 8), Ok(0));
    assert!(out.is_empty());
    assert_eq!(decoder.decode(&mut out, b"56789\r", 6), Ok(0));
    assert!(out.is_empty());
    assert_eq!(decoder.decode(&mut out, b"\n", 1), Ok(10));
    assert_eq!(out, b"0123456789".to_vec());
    assert!(!decoder.is_finished());
    assert_eq!(decoder.decode(&mut out, b"0\r", 2), Ok(0));
    assert!(!decoder.is_finished());
    assert_eq!(decoder.decode(&mut out, b"\n", 1), Ok(0));
    assert!(decoder.is_finished());
}

#[test]
fn chunked_reads_hexadecimal_sizes_in_both_cases() {
    let mut lower = StreamDecoder::new(TransferEncoding::Chunked);
    let mut upper = StreamDecoder::new(TransferEncoding::Chunked);
    let mut payload = Vec::new();
    for i in 0..26u8 {
        payload.push(b'a' + i);
    }
    let mut body = b"1a\r\n".to_vec();
    body.extend_from_slice(&payload);
    body.extend_from_slice(b"\r\n");
    let mut out = Vec::new();
    assert_eq!(lower.decode(&mut out, &body, body.len()), Ok(26));
    assert_eq!(out, payload);
    body[1] = b'A';
    let mut out = Vec::new();
    assert_eq!(upper.decode(&mut out, &body, body.len()), Ok(26));
    assert_eq!(out, payload);
}

#[test]
fn chunked_refuses_missing_crlf() {
    let mut decoder = StreamDecoder::new(TransferEncoding::Chunked);
    let mut out = Vec::new();
    let body = b"2\r\nabXY";
    assert_eq!(decoder.decode(&mut out, body, body.len()), Err(DecodeError::MissingCrlf));
    assert!(out.is_empty());
    assert!(!decoder.is_finished());
    assert_eq!(decoder.decode(&mut out, b"\r\n", 2), Err(DecodeError::MissingCrlf));
}

#[test]
fn chunked_refuses_a_size_line_without_line_feed() {
    let mut decoder = StreamDecoder::new(TransferEncoding::Chunked);
    let mut out = Vec::new();
    assert_eq!(decoder.decode(&mut out, b"2\rab", 4), Err(DecodeError::MissingCrlf));
}

#[test]
fn chunked_refuses_a_size_that_is_no_number() {
    let mut decoder = StreamDecoder::new(TransferEncoding::Chunked);
    let mut out = Vec::new();
    assert_eq!(decoder.decode(&mut out, b"zz\r\n", 4), Err(DecodeError::InvalidChunkSize));
    let mut decoder = StreamDecoder::new(TransferEncoding::Chunked);
    assert_eq!(decoder.decode(&mut out, b"\r\n", 2), Err(DecodeError::InvalidChunkSize));
    let mut decoder = StreamDecoder::new(TransferEncoding::Chunked);
    assert_eq!(decoder.decode(&mut out, b"+5\r\n", 4), Err(DecodeError::InvalidChunkSize));
    let mut decoder = StreamDecoder::new(TransferEncoding::Chunked);
    assert_eq!(decoder.decode(&mut out, b"5 \r\n", 4), Err(DecodeError::InvalidChunkSize));
}

#[test]
fn chunked_refuses_a_size_too_large_for_the_machine() {
    let mut decoder = StreamDecoder::new(TransferEncoding::Chunked);
    let mut out = Vec::new();
    let body = b"fffffffffffffffffffffffffffffffff\r\n";
    assert_eq!(decoder.decode(&mut out, body, body.len()), Err(DecodeError::InvalidChunkSize));
}

#[test]
fn chunked_keeps_what_came_before_the_breach() {
    let mut decoder = StreamDecoder::new(TransferEncoding::Chunked);
    let mut out = b"kept".to_vec();
    let body = b"3\r\nabc\r\nq";
    assert_eq!(decoder.decode(&mut out, body, body.len()), Err(DecodeError::InvalidChunkSize));
    assert_eq!(out, b"keptabc".to_vec());
}

#[test]
fn decode_reads_only_the_given_length() {
    let mut decoder = StreamDecoder::new(TransferEncoding::Chunked);
    let mut out = Vec::new();
    let body = b"1\r\nx\r\n0\r\n";
    assert_eq!(decoder.decode(&mut out, body, 6), Ok(1));
    assert!(!decoder.is_finished());
}

#[test]
fn call_without_bytes_returns_zero_in_every_state() {
    let mut out = b"kept".to_vec();
    for encoding in [
        TransferEncoding::Identity,
        TransferEncoding::Length(5),
        TransferEncoding::Length(0),
        TransferEncoding::Chunked,
    ] {
        let mut decoder = StreamDecoder::new(encoding);
        let finished = decoder.is_finished();
        assert_eq!(decoder.decode(&mut out, b"abc", 0), Ok(0));
        assert_eq!(decoder.decode(&mut out, b"", 0), Ok(0));
        assert_eq!(decoder.is_finished(), finished);
    }
    assert_eq!(out, b"kept".to_vec());
    // a decoder that has refused its body
    let mut decoder = StreamDecoder::new(TransferEncoding::Chunked);
    assert_eq!(decoder.decode(&mut out, b"zz", 2), Err(DecodeError::InvalidChunkSize));
    assert_eq!(decoder.decode(&mut out, b"zz", 0), Ok(0));
    assert_eq!(decoder.decode(&mut out, b"", 0), Ok(0));
    assert!(!decoder.is_finished());
    assert_eq!(decoder.decode(&mut out, b"1", 1), Err(DecodeError::InvalidChunkSize));
    assert_eq!(out, b"kept".to_vec());
    // a chunk held back stays held back
    let mut decoder = StreamDecoder::new(TransferEncoding::Chunked);
    assert_eq!(decoder.decode(&mut out, b"2\r\nab", 5), Ok(0));
    assert_eq!(decoder.decode(&mut out, b"", 0), Ok(0));
    assert_eq!(decoder.decode(&mut out, b"\r\n", 2), Ok(2));
    assert_eq!(out, b"keptab".to_vec());
}

#[test]
fn finished_decoder_takes_any_length() {
    let mut out = Vec::new();
    let mut decoder = StreamDecoder::new(TransferEncoding::Length(2));
    assert_eq!(decoder.decode(&mut out, b"ab", 2), Ok(2));
    assert!(decoder.is_finished());
    assert_eq!(decoder.decode(&mut out, b"", 100), Ok(0));
    assert_eq!(decoder.decode(&mut out, b"cd", 7), Ok(0));
    let mut decoder = StreamDecoder::new(TransferEncoding::Chunked);
    assert_eq!(decoder.decode(&mut out, b"0\r\n", 3), Ok(0));
    assert!(decoder.is_finished());
    assert_eq!(decoder.decode(&mut out, b"", 9), Ok(0));
    assert!(decoder.is_finished());
    assert_eq!(out, b"ab".to_vec());
}
