use rusty_zenith::icy::{
    decode_metadata, get_metadata_vec, populate_properties, write_to_client, MalformedMetadata,
    MetaParser, Metadata, Properties,
};
use rusty_zenith::request::Header;

fn meta(title: Option<&str>, url: Option<&str>) -> Option<Metadata> {
    Some(Metadata { title: title.map(String::from), url: url.map(String::from) })
}

fn header(name: &str, value: &[u8]) -> Header {
    Header { name: name.to_string(), value: value.to_vec() }
}

#[test]
fn absent_metadata_is_a_single_zero() {
    assert_eq!(get_metadata_vec(&None), vec![0u8]);
}

#[test]
fn block_is_count_text_and_padding() {
    let block = get_metadata_vec(&meta(Some("x"), Some("")));
    let mut expected = vec![2u8];
    expected.extend_from_slice(b"StreamTitle='x';StreamUrl='';");
    expected.extend_from_slice(&[0, 0, 0]);
    assert_eq!(block, expected);
    assert_eq!(block.len(), 1 + 16 * 2);
}

#[test]
fn block_of_a_text_of_a_whole_number_of_units_has_no_padding() {
    // 28 bytes of marks and 4 of title: two units exactly
    let block = get_metadata_vec(&meta(Some("abcd"), None));
    assert_eq!(block[0], 2);
    assert_eq!(block.len(), 33);
    assert_eq!(&block[1..], b"StreamTitle='abcd';StreamUrl='';");
}

#[test]
fn metadata_that_says_nothing_is_a_single_zero() {
    assert_eq!(get_metadata_vec(&meta(None, None)), vec![0u8]);
    assert_eq!(get_metadata_vec(&meta(Some(""), None)), vec![0u8]);
    assert_eq!(get_metadata_vec(&meta(None, Some(""))), vec![0u8]);
    assert_eq!(get_metadata_vec(&meta(Some(""), Some(""))), vec![0u8]);
    assert!(meta(None, None).unwrap().is_empty());
    assert!(meta(Some(""), Some("")).unwrap().is_empty());
    assert!(!meta(Some("x"), None).unwrap().is_empty());
    assert!(!meta(None, Some("u")).unwrap().is_empty());
}

#[test]
fn block_with_an_address_alone() {
    let block = get_metadata_vec(&meta(None, Some("u")));
    let mut expected = vec![2u8];
    expected.extend_from_slice(b"StreamTitle='';StreamUrl='u';");
    expected.extend_from_slice(&[0, 0, 0]);
    assert_eq!(block, expected);
}

#[test]
fn count_byte_keeps_the_low_eight_bits() {
    let title = "t".repeat(4096 - 28);
    let block = get_metadata_vec(&meta(Some(&title), None));
    assert_eq!(block.len(), 1 + 4096);
    assert_eq!(block[0], 0);
}

#[test]
fn decode_reads_title_and_url() {
    let mut block = vec![3u8];
    block.extend_from_slice(b"StreamTitle='A song';StreamUrl='http://x/';");
    block.extend_from_slice(&[0; 5]);
    assert_eq!(
        decode_metadata(&block),
        Ok(meta(Some("A song"), Some("http://x/")))
    );
}

#[test]
fn decode_maps_empty_fields_to_absent() {
    let mut block = vec![2u8];
    block.extend_from_slice(b"StreamTitle='';StreamUrl='';");
    block.extend_from_slice(&[0; 4]);
    assert_eq!(decode_metadata(&block), Ok(meta(None, None)));
}

#[test]
fn decode_of_an_empty_block_is_no_metadata() {
    assert_eq!(decode_metadata(&[0]), Ok(None));
    assert_eq!(decode_metadata(&[]), Ok(None));
    assert_eq!(decode_metadata(&[1, 0, 0, 0]), Ok(None));
}

#[test]
fn decode_takes_the_first_mark_as_the_end_of_the_title() {
    let mut block = vec![0u8];
    block.extend_from_slice(b"StreamTitle='a';StreamUrl='b';StreamUrl='c';");
    assert_eq!(
        decode_metadata(&block),
        Ok(meta(Some("a"), Some("b';StreamUrl='c")))
    );
}

#[test]
fn decode_refuses_what_is_no_metadata() {
    assert_eq!(decode_metadata(b"\x01hello"), Err(MalformedMetadata));
    assert_eq!(decode_metadata(b"\x01StreamTitle='a';"), Err(MalformedMetadata));
    assert_eq!(decode_metadata(b"\x01StreamTitle='a';StreamUrl='b'"), Err(MalformedMetadata));
    assert_eq!(decode_metadata(b"\x01StreamTitle='a';StreamUrl='"), Err(MalformedMetadata));
    assert_eq!(decode_metadata(b"\x01StreamTitle='a\nb';StreamUrl='c';"), Err(MalformedMetadata));
    assert_eq!(decode_metadata(b"\x01StreamTitle='a';StreamUrl='c\n';"), Err(MalformedMetadata));
    assert_eq!(decode_metadata(b"\x01StreamTitle='\xff';StreamUrl='c';"), Err(MalformedMetadata));
    assert_eq!(decode_metadata(b"\x01 StreamTitle='a';StreamUrl='c';"), Err(MalformedMetadata));
}

#[test]
fn encoding_and_decoding_gives_the_metadata_back() {
    let cases = vec![
        None,
        meta(Some("Artist - Title"), None),
        meta(None, Some("http://example.com/a?b=c")),
        meta(Some("It's a song; really"), Some("u';")),
        meta(Some("na\u{ef}ve \u{1F3B5}"), Some("\u{0}")),
    ];
    for m in cases {
        assert_eq!(decode_metadata(&get_metadata_vec(&m)), Ok(m));
    }
}

#[test]
fn metadata_that_is_not_well_formed_does_not_come_back() {
    let m = meta(Some(""), Some("u"));
    assert_eq!(decode_metadata(&get_metadata_vec(&m)), Ok(meta(None, Some("u"))));
    // metadata that says nothing comes back as no metadata
    assert_eq!(decode_metadata(&get_metadata_vec(&meta(None, None))), Ok(None));
    assert_eq!(decode_metadata(&get_metadata_vec(&meta(Some(""), None))), Ok(None));
    let m = meta(Some("a';StreamUrl="), Some("u"));
    assert_eq!(
        decode_metadata(&get_metadata_vec(&m)),
        Ok(meta(Some("a"), Some(";StreamUrl='u")))
    );
}

#[test]
fn properties_start_with_the_content_type_alone() {
    let p = Properties::new("audio/mpeg".to_string());
    assert_eq!(p.content_type, "audio/mpeg");
    assert_eq!(p.uagent, None);
    assert!(!p.public);
    assert_eq!(p.name, None);
    assert_eq!(p.description, None);
    assert_eq!(p.url, None);
    assert_eq!(p.genre, None);
    assert_eq!(p.bitrate, None);
}

#[test]
fn headers_set_the_properties() {
    let mut p = Properties::new("audio/ogg".to_string());
    let headers = vec![
        header("User-Agent", b"butt"),
        header("Ice-Public", b"1"),
        header("ICE-NAME", b"Radio"),
        header("x-audiocast-description", b"Desc"),
        header("icy-url", b"http://r"),
        header("ice-genre", b"Jazz"),
        header("icy-br", b"128"),
        header("Content-Type", b"ignored"),
        header("icy-name", b"Later name"),
    ];
    populate_properties(&mut p, &headers);
    assert_eq!(p.uagent.as_deref(), Some("butt"));
    assert!(p.public);
    assert_eq!(p.name.as_deref(), Some("Later name"));
    assert_eq!(p.description.as_deref(), Some("Desc"));
    assert_eq!(p.url.as_deref(), Some("http://r"));
    assert_eq!(p.genre.as_deref(), Some("Jazz"));
    assert_eq!(p.bitrate.as_deref(), Some("128"));
    assert_eq!(p.content_type, "audio/ogg");
}

#[test]
fn every_name_of_a_property_is_known() {
    let names: [(&str, &[&str]); 6] = [
        ("name", &["ice-name", "icy-name", "x-audiocast-name"]),
        ("description", &["ice-description", "icy-description", "x-audiocast-description"]),
        ("url", &["ice-url", "icy-url", "x-audiocast-url"]),
        ("genre", &["ice-genre", "icy-genre", "x-audiocast-genre"]),
        ("bitrate", &["ice-bitrate", "icy-bitrate", "x-audiocast-bitrate", "icy-br"]),
        ("uagent", &["user-agent"]),
    ];
    for (field, headers) in names {
        for name in headers {
            let mut p = Properties::new(String::new());
            populate_properties(&mut p, &[header(&name.to_uppercase(), b"v")]);
            let value = match field {
                "name" => p.name,
                "description" => p.description,
                "url" => p.url,
                "genre" => p.genre,
                "bitrate" => p.bitrate,
                _ => p.uagent,
            };
            assert_eq!(value.as_deref(), Some("v"), "{}", name);
        }
    }
    for name in ["ice-public", "icy-public", "x-audiocast-public", "icy-pub"] {
        let mut p = Properties::new(String::new());
        populate_properties(&mut p, &[header(name, b"1")]);
        assert!(p.public, "{}", name);
    }
    let mut p = Properties::new(String::new());
    populate_properties(&mut p, &[header("icy-names", b"v"), header("name", b"v")]);
    assert_eq!(p, Properties::new(String::new()));
}

#[test]
fn public_needs_the_number_one() {
    for (value, expected) in [
        (&b"1"[..], true),
        (b"01", true),
        (b"+1", true),
        (b"+", false),
        (b"0", false),
        (b"2", false),
        (b"yes", false),
        (b"", false),
    ] {
        let mut p = Properties::new(String::new());
        populate_properties(&mut p, &[header("icy-pub", value)]);
        assert_eq!(p.public, expected);
    }
    let mut p = Properties::new(String::new());
    populate_properties(&mut p, &[header("icy-public", b"1"), header("x-audiocast-public", b"0")]);
    assert!(!p.public);
}

#[test]
fn header_value_that_is_not_utf8_gives_an_empty_text() {
    let mut p = Properties::new(String::new());
    populate_properties(&mut p, &[header("ice-bitrate", b"\xff\xfe")]);
    assert_eq!(p.bitrate.as_deref(), Some(""));
}

#[test]
fn demux_takes_blocks_out_of_the_stream() {
    let mut parser = MetaParser::new(4);
    let mut stream = b"abcd".to_vec();
    stream.push(1);
    stream.extend_from_slice(b"0123456789ABCDEF");
    stream.extend_from_slice(b"efgh");
    stream.push(0);
    stream.extend_from_slice(b"ij");
    let (audio, last) = parser.demux(&stream);
    assert_eq!(audio, b"abcdefghij".to_vec());
    assert_eq!(last, Some(vec![0u8]));
    assert_eq!(parser.remaining, 2);
    assert!(parser.vec.is_empty());
}

#[test]
fn demux_keeps_a_block_that_is_cut_in_two() {
    let mut parser = MetaParser::new(2);
    let (audio, last) = parser.demux(b"ab\x01StreamTit");
    assert_eq!(audio, b"ab".to_vec());
    assert_eq!(last, None);
    assert_eq!(parser.vec.len(), 10);
    let (audio, last) = parser.demux(b"le='x';cd");
    assert_eq!(audio, b"cd".to_vec());
    assert_eq!(last, Some(b"\x01StreamTitle='x';".to_vec()));
    assert_eq!(parser.remaining, 0);
}

#[test]
fn demux_without_interval_passes_everything() {
    let mut parser = MetaParser::new(0);
    let (audio, last) = parser.demux(b"\x00abc\x01");
    assert_eq!(audio, b"\x00abc\x01".to_vec());
    assert_eq!(last, None);
}

#[test]
fn splice_puts_a_block_after_every_interval() {
    let mut out = Vec::new();
    let mut sent = 0usize;
    let data: Vec<u8> = (0..48u8).collect();
    let block = get_metadata_vec(&meta(Some("x"), Some("")));
    write_to_client(&mut out, &mut sent, 16, &data, &block);
    let mut expected = Vec::new();
    for part in data.chunks(16) {
        expected.extend_from_slice(part);
        expected.extend_from_slice(&block);
    }
    assert_eq!(out, expected);
    assert_eq!(out.len(), 48 + 3 * 33);
    assert_eq!(&out[16..49], &block[..]);
    assert_eq!(sent, 0);
}

#[test]
fn splice_keeps_count_between_calls() {
    let mut out = Vec::new();
    let mut sent = 0usize;
    write_to_client(&mut out, &mut sent, 4, b"abc", &[0]);
    assert_eq!(out, b"abc".to_vec());
    assert_eq!(sent, 3);
    write_to_client(&mut out, &mut sent, 4, b"defgh", &[7]);
    assert_eq!(out, b"abcd\x07efgh\x07".to_vec());
    assert_eq!(sent, 0);
    write_to_client(&mut out, &mut sent, 4, b"", &[9]);
    assert_eq!(sent, 0);
    assert_eq!(out.len(), 10);
}

#[test]
fn splice_without_interval_adds_nothing() {
    let mut out = Vec::new();
    let mut sent = 5usize;
    write_to_client(&mut out, &mut sent, 0, b"abcdef", &[1, 2, 3]);
    assert_eq!(out, b"abcdef".to_vec());
    assert_eq!(sent, 5);
}

#[test]
fn what_is_spliced_is_taken_apart_again() {
    let mut out = Vec::new();
    let mut sent = 0usize;
    let data: Vec<u8> = (0..100u8).collect();
    let block = get_metadata_vec(&meta(Some("t"), Some("u")));
    write_to_client(&mut out, &mut sent, 8, &data, &block);
    let mut parser = MetaParser::new(8);
    let (audio, last) = parser.demux(&out);
    assert_eq!(audio, data);
    assert_eq!(last, Some(block));
}
