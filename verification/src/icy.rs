//! ICY stream properties and in-band metadata: the block format, its
//! encoder and decoder.

use vstd::prelude::*;
use vstd::utf8::*;
use crate::request::{header_views, opt_text, Header, HeaderView};
use crate::text::{
    append, append_str, decimal_value, eq_ignore_case, find, has_prefix, lemma_offset_of,
    occurs_at, offset_of, parse_decimal, same_ignoring_case, starts_with, text_of, utf8,
};

verus! {

/// What a source says of its stream.
#[derive(Debug, PartialEq, Eq)]
pub struct Properties {
    pub uagent: Option<String>,
    pub public: bool,
    pub name: Option<String>,
    pub description: Option<String>,
    pub url: Option<String>,
    pub genre: Option<String>,
    pub bitrate: Option<String>,
    pub content_type: String,
}

pub struct PropertiesView {
    pub uagent: Option<Seq<char>>,
    pub public: bool,
    pub name: Option<Seq<char>>,
    pub description: Option<Seq<char>>,
    pub url: Option<Seq<char>>,
    pub genre: Option<Seq<char>>,
    pub bitrate: Option<Seq<char>>,
    pub content_type: Seq<char>,
}

impl View for Properties {
    type V = PropertiesView;

    open spec fn view(&self) -> PropertiesView {
        PropertiesView {
            uagent: opt_text(self.uagent),
            public: self.public,
            name: opt_text(self.name),
            description: opt_text(self.description),
            url: opt_text(self.url),
            genre: opt_text(self.genre),
            bitrate: opt_text(self.bitrate),
            content_type: self.content_type@,
        }
    }
}

/// The title and the address that go with the stream at the moment.
#[derive(Debug, PartialEq, Eq)]
pub struct Metadata {
    pub title: Option<String>,
    pub url: Option<String>,
}

pub struct MetadataView {
    pub title: Option<Seq<char>>,
    pub url: Option<Seq<char>>,
}

impl View for Metadata {
    type V = MetadataView;

    open spec fn view(&self) -> MetadataView {
        MetadataView { title: opt_text(self.title), url: opt_text(self.url) }
    }
}

/// A copy of an optional text.
pub fn copy_text(text: &Option<String>) -> (r: Option<String>)
    ensures
        opt_text(r) == opt_text(*text),
{
    match text {
        Some(s) => Some(s.clone()),
        None => None,
    }
}

impl Clone for Properties {
    fn clone(&self) -> (r: Properties)
        ensures
            r@ == self@,
    {
        Properties {
            uagent: copy_text(&self.uagent),
            public: self.public,
            name: copy_text(&self.name),
            description: copy_text(&self.description),
            url: copy_text(&self.url),
            genre: copy_text(&self.genre),
            bitrate: copy_text(&self.bitrate),
            content_type: self.content_type.clone(),
        }
    }
}

impl Clone for Metadata {
    fn clone(&self) -> (r: Metadata)
        ensures
            r@ == self@,
    {
        Metadata { title: copy_text(&self.title), url: copy_text(&self.url) }
    }
}

/// The view of optional metadata.
pub open spec fn opt_metadata(m: Option<Metadata>) -> Option<MetadataView> {
    match m {
        Some(m) => Some(m@),
        None => None,
    }
}

impl Properties {
    /// The properties of a stream of which only the content type is known.
    pub fn new(content_type: String) -> (r: Properties)
        ensures
            r@ == (PropertiesView {
                uagent: None,
                public: false,
                name: None,
                description: None,
                url: None,
                genre: None,
                bitrate: None,
                content_type: content_type@,
            }),
    {
        Properties {
            uagent: None,
            public: false,
            name: None,
            description: None,
            url: None,
            genre: None,
            bitrate: None,
            content_type,
        }
    }
}

/// The property that a header sets.
pub enum Field {
    UserAgent,
    Public,
    Name,
    Description,
    Url,
    Genre,
    Bitrate,
}

/// Whether `name` is one of three names, letter case aside.
pub open spec fn one_of(name: Seq<u8>, a: Seq<char>, b: Seq<char>, c: Seq<char>) -> bool {
    same_ignoring_case(name, utf8(a)) || same_ignoring_case(name, utf8(b)) || same_ignoring_case(
        name,
        utf8(c),
    )
}

/// The property that a header of this name sets, if it sets one.
pub open spec fn field_named(name: Seq<u8>) -> Option<Field> {
    if same_ignoring_case(name, utf8("user-agent"@)) {
        Some(Field::UserAgent)
    } else if one_of(name, "ice-public"@, "icy-pub"@, "x-audiocast-public"@) || same_ignoring_case(
        name,
        utf8("icy-public"@),
    ) {
        Some(Field::Public)
    } else if one_of(name, "ice-name"@, "icy-name"@, "x-audiocast-name"@) {
        Some(Field::Name)
    } else if one_of(name, "ice-description"@, "icy-description"@, "x-audiocast-description"@) {
        Some(Field::Description)
    } else if one_of(name, "ice-url"@, "icy-url"@, "x-audiocast-url"@) {
        Some(Field::Url)
    } else if one_of(name, "ice-genre"@, "icy-genre"@, "x-audiocast-genre"@) {
        Some(Field::Genre)
    } else if one_of(name, "ice-bitrate"@, "icy-bitrate"@, "x-audiocast-bitrate"@)
        || same_ignoring_case(name, utf8("icy-br"@)) {
        Some(Field::Bitrate)
    } else {
        None
    }
}

/// The text of a header value: what it encodes, or nothing where it is not UTF-8.
pub open spec fn header_text(value: Seq<u8>) -> Seq<char> {
    if valid_utf8(value) {
        decode_utf8(value)
    } else {
        Seq::empty()
    }
}

/// The properties after one header.
pub open spec fn with_header(p: PropertiesView, h: HeaderView) -> PropertiesView {
    let text = Some(header_text(h.value));
    match field_named(utf8(h.name)) {
        Some(Field::UserAgent) => PropertiesView { uagent: text, ..p },
        Some(Field::Public) => PropertiesView {
            public: decimal_value(h.value) == Some(1nat),
            ..p
        },
        Some(Field::Name) => PropertiesView { name: text, ..p },
        Some(Field::Description) => PropertiesView { description: text, ..p },
        Some(Field::Url) => PropertiesView { url: text, ..p },
        Some(Field::Genre) => PropertiesView { genre: text, ..p },
        Some(Field::Bitrate) => PropertiesView { bitrate: text, ..p },
        None => p,
    }
}

/// The properties after a list of headers, taken in order.
pub open spec fn with_headers(p: PropertiesView, headers: Seq<HeaderView>) -> PropertiesView
    decreases headers.len(),
{
    if headers.len() == 0 {
        p
    } else {
        with_headers(with_header(p, headers[0]), headers.drop_first())
    }
}

fn is_one_of(name: &[u8], a: &str, b: &str, c: &str) -> (r: bool)
    ensures
        r == one_of(name@, a@, b@, c@),
{
    eq_ignore_case(name, a.as_bytes()) || eq_ignore_case(name, b.as_bytes()) || eq_ignore_case(
        name,
        c.as_bytes(),
    )
}

/// The property that a header of this name sets, if it sets one.
pub fn field_of(name: &[u8]) -> (r: Option<Field>)
    ensures
        r == field_named(name@),
{
    if eq_ignore_case(name, "user-agent".as_bytes()) {
        Some(Field::UserAgent)
    } else if is_one_of(name, "ice-public", "icy-pub", "x-audiocast-public") || eq_ignore_case(
        name,
        "icy-public".as_bytes(),
    ) {
        Some(Field::Public)
    } else if is_one_of(name, "ice-name", "icy-name", "x-audiocast-name") {
        Some(Field::Name)
    } else if is_one_of(name, "ice-description", "icy-description", "x-audiocast-description") {
        Some(Field::Description)
    } else if is_one_of(name, "ice-url", "icy-url", "x-audiocast-url") {
        Some(Field::Url)
    } else if is_one_of(name, "ice-genre", "icy-genre", "x-audiocast-genre") {
        Some(Field::Genre)
    } else if is_one_of(name, "ice-bitrate", "icy-bitrate", "x-audiocast-bitrate")
        || eq_ignore_case(name, "icy-br".as_bytes()) {
        Some(Field::Bitrate)
    } else {
        None
    }
}

fn text_or_empty(value: &[u8]) -> (r: String)
    ensures
        r@ == header_text(value@),
{
    match text_of(value) {
        Some(s) => {
            proof {
                encode_utf8_decode_utf8(s@);
            }
            s
        },
        None => String::new(),
    }
}

/// Takes over what the headers of a source say of its stream. Of several
/// headers for one property the last one counts.
pub fn populate_properties(properties: &mut Properties, headers: &[Header])
    ensures
        final(properties)@ == with_headers(old(properties)@, header_views(headers@)),
{
    let ghost all = header_views(headers@);
    let mut i: usize = 0;
    assert(all.skip(0) =~= all);
    while i < headers.len()
        invariant
            i <= headers.len(),
            all == header_views(headers@),
            with_headers(properties@, all.skip(i as int)) == with_headers(old(properties)@, all),
        decreases headers.len() - i,
    {
        proof {
            let t = all.skip(i as int);
            assert(t[0] == headers@[i as int]@);
            assert(t.drop_first() =~= all.skip(i + 1));
        }
        let header = &headers[i];
        match field_of(header.name.as_str().as_bytes()) {
            Some(Field::UserAgent) => {
                properties.uagent = Some(text_or_empty(header.value.as_slice()));
            },
            Some(Field::Public) => {
                properties.public = match parse_decimal(header.value.as_slice()) {
                    Some(v) => v == 1,
                    None => false,
                };
            },
            Some(Field::Name) => {
                properties.name = Some(text_or_empty(header.value.as_slice()));
            },
            Some(Field::Description) => {
                properties.description = Some(text_or_empty(header.value.as_slice()));
            },
            Some(Field::Url) => {
                properties.url = Some(text_or_empty(header.value.as_slice()));
            },
            Some(Field::Genre) => {
                properties.genre = Some(text_or_empty(header.value.as_slice()));
            },
            Some(Field::Bitrate) => {
                properties.bitrate = Some(text_or_empty(header.value.as_slice()));
            },
            None => {},
        }
        i += 1;
    }
}

/// The UTF-8 bytes of an optional text; none where it is absent.
pub open spec fn opt_utf8(o: Option<Seq<char>>) -> Seq<u8> {
    match o {
        Some(s) => utf8(s),
        None => Seq::empty(),
    }
}

/// What opens a metadata text.
pub open spec fn title_mark() -> Seq<u8> {
    utf8("StreamTitle='"@)
}

/// What parts the title from the address.
pub open spec fn url_mark() -> Seq<u8> {
    utf8("';StreamUrl='"@)
}

/// What closes a metadata text.
pub open spec fn end_mark() -> Seq<u8> {
    utf8("';"@)
}

/// The text of a metadata block: `StreamTitle='<title>';StreamUrl='<url>';`.
pub open spec fn metadata_text(m: MetadataView) -> Seq<u8> {
    title_mark() + opt_utf8(m.title) + url_mark() + opt_utf8(m.url) + end_mark()
}

/// `n` zero bytes.
pub open spec fn zeros(n: nat) -> Seq<u8> {
    Seq::new(n, |i: int| 0u8)
}

/// How many zero bytes bring `len` up to a multiple of 16.
pub open spec fn padding(len: nat) -> nat {
    ((16 - len % 16) % 16) as nat
}

/// The count byte of a text of `len` bytes: the number of 16-byte units that
/// hold it, of which a byte keeps the low eight bits.
pub open spec fn count_byte(len: nat) -> u8 {
    (((len + 15) / 16) % 256) as u8
}

/// Whether a text is missing: it is absent, or has no character.
pub open spec fn is_blank(o: Option<Seq<char>>) -> bool {
    match o {
        Some(s) => s.len() == 0,
        None => true,
    }
}

impl MetadataView {
    /// Whether the metadata says nothing: it has no title and no address.
    pub open spec fn is_empty(self) -> bool {
        is_blank(self.title) && is_blank(self.url)
    }
}

/// A metadata block: the count byte, the text, and zeros up to the next
/// multiple of 16. Metadata that is absent, or that says nothing, is the
/// single byte zero.
pub open spec fn metadata_block(m: Option<MetadataView>) -> Seq<u8> {
    match m {
        None => seq![0u8],
        Some(m) => if m.is_empty() {
            seq![0u8]
        } else {
            let text = metadata_text(m);
            seq![count_byte(text.len())] + text + zeros(padding(text.len()))
        },
    }
}

/// A block whose text fits 255 units is the count byte N followed by exactly 16 N bytes.
pub proof fn lemma_block_length(m: Option<MetadataView>)
    requires
        m is Some ==> metadata_text(m->0).len() <= 4080,
    ensures
        metadata_block(m).len() == 1 + 16 * metadata_block(m)[0],
{
    match m {
        None => {},
        Some(v) => {
            if !v.is_empty() {
                let len = metadata_text(v).len();
                assert(len + padding(len) == 16 * ((len + 15) / 16)) by (nonlinear_arith)
                    requires
                        padding(len) == ((16 - len % 16) % 16) as nat,
                ;
            }
        },
    }
}

fn check_blank(text: &Option<String>) -> (r: bool)
    ensures
        r == is_blank(opt_text(*text)),
{
    match text {
        Some(s) => s.as_str().is_empty(),
        None => true,
    }
}

fn append_opt(v: &mut Vec<u8>, text: &Option<String>)
    ensures
        final(v)@ == old(v)@ + opt_utf8(opt_text(*text)),
{
    match text {
        Some(s) => {
            append_str(v, s.as_str());
        },
        None => {
            assert(v@ + Seq::<u8>::empty() =~= v@);
        },
    }
}

impl Metadata {
    /// Whether the metadata says nothing: it has no title and no address.
    pub fn is_empty(&self) -> (r: bool)
        ensures
            r == self@.is_empty(),
    {
        check_blank(&self.title) && check_blank(&self.url)
    }
}

/// Encodes metadata as the block that goes into the stream.
pub fn get_metadata_vec(metadata: &Option<Metadata>) -> (r: Vec<u8>)
    ensures
        r@ == metadata_block(opt_metadata(*metadata)),
{
    let mut v: Vec<u8> = Vec::new();
    v.push(0);
    match metadata {
        None => {
            assert(v@ =~= seq![0u8]);
        },
        Some(m) => {
            if m.is_empty() {
                assert(v@ =~= seq![0u8]);
                return v;
            }
            append_str(&mut v, "StreamTitle='");
            append_opt(&mut v, &m.title);
            append_str(&mut v, "';StreamUrl='");
            append_opt(&mut v, &m.url);
            append_str(&mut v, "';");
            let ghost text = metadata_text(m@);
            assert(v@ =~= seq![0u8] + text);
            let len: usize = v.len() - 1;
            let units: usize = if len % 16 > 0 {
                len / 16 + 1
            } else {
                len / 16
            };
            let pad: usize = if len % 16 > 0 {
                16 - len % 16
            } else {
                0
            };
            assert(units == (len + 15) / 16);
            v[0] = (units % 256) as u8;
            let mut i: usize = 0;
            while i < pad
                invariant
                    i <= pad,
                    v@ == seq![count_byte(text.len())] + text + zeros(i as nat),
                decreases pad - i,
            {
                v.push(0);
                assert(v@ =~= seq![count_byte(text.len())] + text + zeros((i + 1) as nat));
                i += 1;
            }
        },
    }
    v
}

/// `s` without the zero bytes that end it.
pub open spec fn without_trailing_nuls(s: Seq<u8>) -> Seq<u8>
    decreases s.len(),
{
    if s.len() > 0 && s.last() == 0 {
        without_trailing_nuls(s.drop_last())
    } else {
        s
    }
}

/// No byte of `s` is a line feed.
pub open spec fn one_line(s: Seq<u8>) -> bool {
    forall|i: int| 0 <= i < s.len() ==> #[trigger] s[i] != 10
}

/// A text, or nothing where it is empty.
pub open spec fn non_empty(s: Seq<char>) -> Option<Seq<char>> {
    if s.len() == 0 {
        None
    } else {
        Some(s)
    }
}

/// The metadata that a text spells out. The title runs up to the first
/// `';StreamUrl='`, the address from there to the closing `';`; neither
/// holds a line feed, both are UTF-8, and an empty one counts as absent.
pub open spec fn parsed_text(text: Seq<u8>) -> Option<MetadataView> {
    let rest = text.skip(title_mark().len() as int);
    match offset_of(url_mark(), rest) {
        Some(at) => {
            let title = rest.take(at);
            let tail = rest.skip(at + url_mark().len());
            let url = tail.take(tail.len() - end_mark().len());
            if has_prefix(text, title_mark()) && occurs_at(
                end_mark(),
                tail,
                tail.len() - end_mark().len(),
            ) && one_line(title) && one_line(url) && valid_utf8(title) && valid_utf8(url) {
                Some(
                    MetadataView {
                        title: non_empty(decode_utf8(title)),
                        url: non_empty(decode_utf8(url)),
                    },
                )
            } else {
                None
            }
        },
        None => None,
    }
}

/// The text of a block: what follows the count byte, without the padding.
pub open spec fn block_text(block: Seq<u8>) -> Seq<u8> {
    if block.len() == 0 {
        block
    } else {
        without_trailing_nuls(block.skip(1))
    }
}

/// A block whose text does not spell out metadata.
#[derive(Clone, Copy, Debug, PartialEq, Eq, Structural)]
pub struct MalformedMetadata;

/// What a block says: no metadata where its text is empty, the metadata
/// that the text spells out, or an error where it spells out none.
pub open spec fn decoded_block(block: Seq<u8>) -> Result<Option<MetadataView>, MalformedMetadata> {
    let text = block_text(block);
    if text.len() == 0 {
        Ok(None)
    } else {
        match parsed_text(text) {
            Some(m) => Ok(Some(m)),
            None => Err(MalformedMetadata),
        }
    }
}

/// The view of what `decode_metadata` returns.
pub open spec fn decode_outcome(r: Result<Option<Metadata>, MalformedMetadata>) -> Result<
    Option<MetadataView>,
    MalformedMetadata,
> {
    match r {
        Ok(m) => Ok(opt_metadata(m)),
        Err(e) => Err(e),
    }
}

fn check_one_line(s: &[u8]) -> (r: bool)
    ensures
        r == one_line(s@),
{
    let mut i: usize = 0;
    while i < s.len()
        invariant
            i <= s.len(),
            forall|k: int| 0 <= k < i ==> #[trigger] s@[k] != 10,
        decreases s.len() - i,
    {
        if s[i] == 10 {
            return false;
        }
        i += 1;
    }
    true
}

fn text_if_any(s: String) -> (r: Option<String>)
    ensures
        opt_text(r) == non_empty(s@),
{
    if s.as_str().is_empty() {
        None
    } else {
        Some(s)
    }
}

/// Reads the metadata out of a block.
pub fn decode_metadata(block: &[u8]) -> (r: Result<Option<Metadata>, MalformedMetadata>)
    ensures
        decode_outcome(r) == decoded_block(block@),
{
    if block.len() == 0 {
        return Ok(None);
    }
    let mut end: usize = block.len();
    assert(block@.skip(1).take(end - 1) =~= block@.skip(1));
    while end > 1 && block[end - 1] == 0
        invariant
            1 <= end <= block.len(),
            without_trailing_nuls(block@.skip(1)) == without_trailing_nuls(
                block@.skip(1).take(end - 1),
            ),
        decreases end,
    {
        proof {
            let s = block@.skip(1).take(end - 1);
            assert(s.last() == block@[end - 1]);
            assert(s.drop_last() =~= block@.skip(1).take(end - 2));
        }
        end -= 1;
    }
    let text = &block[1..end];
    proof {
        assert(text@ =~= block@.skip(1).take(end - 1));
        if end > 1 {
            assert(text@.last() == block@[end - 1]);
        }
        assert(text@ == block_text(block@));
    }
    if text.len() == 0 {
        return Ok(None);
    }
    let head = "StreamTitle='".as_bytes();
    let mid = "';StreamUrl='".as_bytes();
    let tail_mark = "';".as_bytes();
    if !starts_with(text, head) {
        assert(parsed_text(text@) is None);
        return Err(MalformedMetadata);
    }
    let rest = &text[head.len()..text.len()];
    assert(rest@ =~= text@.skip(head.len() as int));
    match find(rest, mid) {
        None => Err(MalformedMetadata),
        Some(at) => {
            let title = &rest[0..at];
            let tail = &rest[at + mid.len()..rest.len()];
            assert(title@ =~= rest@.take(at as int));
            assert(tail@ =~= rest@.skip(at + mid.len()));
            if tail.len() < tail_mark.len() {
                return Err(MalformedMetadata);
            }
            let cut: usize = tail.len() - tail_mark.len();
            if !crate::text::matches_at(tail, tail_mark, cut) {
                return Err(MalformedMetadata);
            }
            let url = &tail[0..cut];
            assert(url@ =~= tail@.take(cut as int));
            if !check_one_line(title) || !check_one_line(url) {
                return Err(MalformedMetadata);
            }
            match (text_of(title), text_of(url)) {
                (Some(title), Some(url)) => {
                    proof {
                        encode_utf8_decode_utf8(title@);
                        encode_utf8_decode_utf8(url@);
                    }
                    Ok(Some(Metadata { title: text_if_any(title), url: text_if_any(url) }))
                },
                _ => Err(MalformedMetadata),
            }
        },
    }
}

/// Metadata that survives encoding and decoding: it says something, a
/// field is absent rather than empty, holds no line feed, and the title
/// does not bring the mark `';StreamUrl='` forward.
pub open spec fn well_formed(m: Option<MetadataView>) -> bool {
    match m {
        None => true,
        Some(m) => {
            &&& !m.is_empty()
            &&& m.title != Some(Seq::<char>::empty())
            &&& m.url != Some(Seq::<char>::empty())
            &&& one_line(opt_utf8(m.title))
            &&& one_line(opt_utf8(m.url))
            &&& forall|k: int|
                0 <= k < opt_utf8(m.title).len() ==> !occurs_at(
                    url_mark(),
                    opt_utf8(m.title) + url_mark(),
                    k,
                )
        },
    }
}

proof fn lemma_marks()
    ensures
        title_mark().len() == 13,
        url_mark().len() == 13,
        end_mark().len() == 2,
        end_mark()[1] == 59,
{
    reveal_strlit("StreamTitle='");
    reveal_strlit("';StreamUrl='");
    reveal_strlit("';");
    is_ascii_chars_encode_utf8("StreamTitle='"@);
    is_ascii_chars_encode_utf8("';StreamUrl='"@);
    is_ascii_chars_encode_utf8("';"@);
}

proof fn lemma_padding_stripped(s: Seq<u8>, n: nat)
    requires
        s.len() > 0,
        s.last() != 0,
    ensures
        without_trailing_nuls(s + zeros(n)) == s,
    decreases n,
{
    if n == 0 {
        assert(s + zeros(0) =~= s);
    } else {
        let t = s + zeros(n);
        assert(t.last() == 0);
        assert(t.drop_last() =~= s + zeros((n - 1) as nat));
        lemma_padding_stripped(s, (n - 1) as nat);
    }
}

proof fn lemma_opt_utf8(o: Option<Seq<char>>)
    requires
        o != Some(Seq::<char>::empty()),
    ensures
        valid_utf8(opt_utf8(o)),
        non_empty(decode_utf8(opt_utf8(o))) == o,
{
    match o {
        Some(s) => {
            encode_utf8_valid_utf8(s);
            encode_utf8_decode_utf8(s);
        },
        None => {
            assert(decode_utf8(Seq::<u8>::empty()) =~= Seq::<char>::empty());
        },
    }
}

/// Decoding the block that encodes well-formed metadata gives that metadata back.
pub proof fn lemma_metadata_round_trip(m: Option<MetadataView>)
    requires
        well_formed(m),
    ensures
        decoded_block(metadata_block(m)) == Ok::<Option<MetadataView>, MalformedMetadata>(m),
{
    lemma_marks();
    match m {
        None => {
            let block = metadata_block(m);
            assert(block.skip(1) =~= Seq::<u8>::empty());
        },
        Some(v) => {
            let title = opt_utf8(v.title);
            let url = opt_utf8(v.url);
            let text = metadata_text(v);
            let block = metadata_block(m);
            assert(block.skip(1) =~= text + zeros(padding(text.len())));
            assert(text.last() == end_mark()[1]);
            lemma_padding_stripped(text, padding(text.len()));
            assert(block_text(block) == text);
            let rest = text.skip(13);
            assert(rest =~= title + url_mark() + url + end_mark());
            assert(text.subrange(0, 13) =~= title_mark());
            let at = title.len() as int;
            assert(rest.subrange(at, at + 13) =~= url_mark());
            assert forall|k: int| 0 <= k < at implies !occurs_at(url_mark(), rest, k) by {
                assert(!occurs_at(url_mark(), title + url_mark(), k));
                assert(rest.subrange(k, k + 13) =~= (title + url_mark()).subrange(k, k + 13));
            }
            lemma_offset_of(url_mark(), rest, at);
            let tail = rest.skip(at + 13);
            assert(tail =~= url + end_mark());
            assert(tail.subrange(tail.len() - 2, tail.len() as int) =~= end_mark());
            assert(rest.take(at) =~= title);
            assert(tail.take(tail.len() - 2) =~= url);
            lemma_opt_utf8(v.title);
            lemma_opt_utf8(v.url);
        },
    }
}

/// A stream in which every `metaint` bytes of audio a metadata block
/// follows, taken apart byte by byte.
pub struct Demux {
    /// Bytes of audio still to come before the next block.
    pub remaining: usize,
    /// The bytes of the block that is being read.
    pub block: Seq<u8>,
    /// The audio taken out so far.
    pub audio: Seq<u8>,
    /// The last block that was read to its end.
    pub last: Option<Seq<u8>>,
}

/// The length of a block whose count byte is `count`.
pub open spec fn block_len(count: u8) -> nat {
    (1 + 16 * count) as nat
}

/// The stream after one more byte.
pub open spec fn demux_step(d: Demux, metaint: usize, b: u8) -> Demux {
    if metaint == 0 {
        Demux { audio: d.audio.push(b), ..d }
    } else if d.remaining != 0 {
        Demux { remaining: (d.remaining - 1) as usize, audio: d.audio.push(b), ..d }
    } else {
        let block = d.block.push(b);
        if block.len() >= block_len(block[0]) {
            Demux { remaining: metaint, block: Seq::empty(), last: Some(block), ..d }
        } else {
            Demux { block, ..d }
        }
    }
}

/// The stream after the bytes of `input`.
pub open spec fn demux_run(d: Demux, metaint: usize, input: Seq<u8>) -> Demux
    decreases input.len(),
{
    if input.len() == 0 {
        d
    } else {
        demux_run(demux_step(d, metaint, input[0]), metaint, input.drop_first())
    }
}

/// Takes the metadata blocks out of a relayed stream.
pub struct MetaParser {
    pub metaint: usize,
    pub vec: Vec<u8>,
    pub remaining: usize,
}

impl MetaParser {
    /// A parser at the start of a stream that carries a block every
    /// `metaint` bytes, or none where `metaint` is zero.
    pub fn new(metaint: usize) -> (r: MetaParser)
        ensures
            r.metaint == metaint,
            r.remaining == metaint,
            r.vec@ == Seq::<u8>::empty(),
    {
        MetaParser { metaint, vec: Vec::new(), remaining: metaint }
    }

    /// The parser as a stream that starts with nothing taken out.
    pub open spec fn start(&self) -> Demux {
        Demux { remaining: self.remaining, block: self.vec@, audio: Seq::empty(), last: None }
    }

    /// Takes `data` apart: returns the audio in it and the last metadata
    /// block that ended in it, if one did.
    pub fn demux(&mut self, data: &[u8]) -> (r: (Vec<u8>, Option<Vec<u8>>))
        ensures
            final(self).metaint == old(self).metaint,
            ({
                let end = demux_run(old(self).start(), old(self).metaint, data@);
                &&& final(self).remaining == end.remaining
                &&& final(self).vec@ == end.block
                &&& r.0@ == end.audio
                &&& crate::request::opt_bytes(r.1) == end.last
            }),
    {
        let mut audio: Vec<u8> = Vec::new();
        let mut last: Option<Vec<u8>> = None;
        let mut i: usize = 0;
        assert(data@.skip(0) =~= data@);
        while i < data.len()
            invariant
                i <= data.len(),
                self.metaint == old(self).metaint,
                demux_run(
                    Demux {
                        remaining: self.remaining,
                        block: self.vec@,
                        audio: audio@,
                        last: crate::request::opt_bytes(last),
                    },
                    self.metaint,
                    data@.skip(i as int),
                ) == demux_run(old(self).start(), old(self).metaint, data@),
            decreases data.len() - i,
        {
            proof {
                let t = data@.skip(i as int);
                assert(t[0] == data@[i as int]);
                assert(t.drop_first() =~= data@.skip(i + 1));
            }
            let b: u8 = data[i];
            if self.metaint == 0 {
                audio.push(b);
            } else if self.remaining != 0 {
                audio.push(b);
                self.remaining = self.remaining - 1;
            } else {
                self.vec.push(b);
                let count: u8 = self.vec[0];
                let size: usize = 1 + 16 * (count as usize);
                if self.vec.len() >= size {
                    let mut block: Vec<u8> = Vec::new();
                    append(&mut block, self.vec.as_slice());
                    assert(block@ =~= self.vec@);
                    last = Some(block);
                    self.vec.clear();
                    self.remaining = self.metaint;
                }
            }
            i += 1;
        }
        (audio, last)
    }
}

/// What goes to a listener for `data`: the bytes of `data` with the block
/// `meta` put in after every `metaint`-th byte, counted from `sent` bytes
/// since the last block; and the count after it. Nothing is put in where
/// `metaint` is zero.
pub open spec fn spliced(data: Seq<u8>, sent: usize, metaint: usize, meta: Seq<u8>) -> (
    Seq<u8>,
    usize,
)
    decreases data.len(),
{
    if data.len() == 0 {
        (data, sent)
    } else if metaint == 0 {
        (data, sent)
    } else if sent >= metaint - 1 {
        let rest = spliced(data.drop_first(), 0, metaint, meta);
        (seq![data[0]] + meta + rest.0, rest.1)
    } else {
        let rest = spliced(data.drop_first(), (sent + 1) as usize, metaint, meta);
        (seq![data[0]] + rest.0, rest.1)
    }
}

/// Taking apart two inputs put together is taking apart the first and
/// then the second.
pub proof fn lemma_demux_split(d: Demux, metaint: usize, a: Seq<u8>, b: Seq<u8>)
    ensures
        demux_run(d, metaint, a + b) == demux_run(demux_run(d, metaint, a), metaint, b),
    decreases a.len(),
{
    if a.len() == 0 {
        assert(a + b =~= b);
    } else {
        assert((a + b).drop_first() =~= a.drop_first() + b);
        lemma_demux_split(demux_step(d, metaint, a[0]), metaint, a.drop_first(), b);
    }
}

/// A block that is as long as its count byte says.
pub open spec fn whole_block(block: Seq<u8>) -> bool {
    block.len() > 0 && block.len() == block_len(block[0])
}

proof fn lemma_demux_block(d: Demux, metaint: usize, block: Seq<u8>, k: int)
    requires
        metaint != 0,
        whole_block(block),
        0 <= k < block.len(),
        d.remaining == 0,
        d.block == block.take(k),
    ensures
        demux_run(d, metaint, block.skip(k)) == (Demux {
            remaining: metaint,
            block: Seq::empty(),
            last: Some(block),
            ..d
        }),
    decreases block.len() - k,
{
    let rest = block.skip(k);
    let next = demux_step(d, metaint, rest[0]);
    let grown = d.block.push(rest[0]);
    assert(rest[0] == block[k]);
    assert(grown =~= block.take(k + 1));
    assert(grown[0] == block[0]);
    assert(rest.drop_first() =~= block.skip(k + 1));
    if k + 1 == block.len() {
        assert(grown =~= block);
        assert(rest.drop_first().len() == 0);
        assert(demux_run(next, metaint, rest.drop_first()) == next);
    } else {
        lemma_demux_block(next, metaint, block, k + 1);
    }
}

/// What the splicer writes, the demuxer takes apart again: the audio
/// comes out as it went in, and the block is the last one seen, if one
/// was put in.
pub proof fn lemma_splice_then_demux(
    data: Seq<u8>,
    sent: usize,
    metaint: usize,
    block: Seq<u8>,
    audio: Seq<u8>,
    last: Option<Seq<u8>>,
)
    requires
        metaint != 0,
        sent < metaint,
        whole_block(block),
    ensures
        ({
            let start = Demux {
                remaining: (metaint - sent) as usize,
                block: Seq::empty(),
                audio,
                last,
            };
            let end = demux_run(start, metaint, spliced(data, sent, metaint, block).0);
            &&& end.audio == audio + data
            &&& end.block == Seq::<u8>::empty()
            &&& end.remaining == metaint - spliced(data, sent, metaint, block).1
            &&& spliced(data, sent, metaint, block).1 < metaint
            &&& end.last == if sent + data.len() >= metaint {
                Some(block)
            } else {
                last
            }
        }),
    decreases data.len(),
{
    let start = Demux { remaining: (metaint - sent) as usize, block: Seq::empty(), audio, last };
    if data.len() == 0 {
        assert(audio + data =~= audio);
    } else {
        let first = seq![data[0]];
        let heard = demux_step(start, metaint, data[0]);
        assert(first[0] == data[0]);
        assert(first.drop_first().len() == 0);
        assert(demux_run(heard, metaint, first.drop_first()) == heard);
        assert(demux_run(start, metaint, first) == heard);
        assert(audio.push(data[0]) + data.drop_first() =~= audio + data);
        if sent >= metaint - 1 {
            let rest = spliced(data.drop_first(), 0, metaint, block);
            assert(spliced(data, sent, metaint, block).0 =~= first + (block + rest.0));
            lemma_demux_split(start, metaint, first, block + rest.0);
            lemma_demux_split(heard, metaint, block, rest.0);
            assert(block.take(0) =~= Seq::<u8>::empty());
            assert(block.skip(0) =~= block);
            lemma_demux_block(heard, metaint, block, 0);
            lemma_splice_then_demux(
                data.drop_first(),
                0,
                metaint,
                block,
                audio.push(data[0]),
                Some(block),
            );
        } else {
            let rest = spliced(data.drop_first(), (sent + 1) as usize, metaint, block);
            assert(spliced(data, sent, metaint, block).0 =~= first + rest.0);
            lemma_demux_split(start, metaint, first, rest.0);
            lemma_splice_then_demux(
                data.drop_first(),
                (sent + 1) as usize,
                metaint,
                block,
                audio.push(data[0]),
                last,
            );
        }
    }
}

/// Appends to `out` what goes to a listener for `data`, with the metadata
/// block put in where it is due, and keeps count in `sent_count`.
pub fn write_to_client(
    out: &mut Vec<u8>,
    sent_count: &mut usize,
    metalen: usize,
    data: &[u8],
    metadata: &[u8],
)
    ensures
        final(out)@ == old(out)@ + spliced(data@, *old(sent_count), metalen, metadata@).0,
        *final(sent_count) == spliced(data@, *old(sent_count), metalen, metadata@).1,
{
    if metalen == 0 {
        append(out, data);
        proof {
            if data@.len() == 0 {
                assert(old(out)@ + data@ =~= old(out)@);
            }
        }
        return ;
    }
    let ghost all = spliced(data@, *old(sent_count), metalen, metadata@);
    let mut i: usize = 0;
    assert(data@.skip(0) =~= data@);
    assert(out@ + all.0 =~= old(out)@ + all.0);
    while i < data.len()
        invariant
            i <= data.len(),
            metalen != 0,
            all == spliced(data@, *old(sent_count), metalen, metadata@),
            out@ + spliced(data@.skip(i as int), *sent_count, metalen, metadata@).0 == old(out)@
                + all.0,
            spliced(data@.skip(i as int), *sent_count, metalen, metadata@).1 == all.1,
        decreases data.len() - i,
    {
        let ghost before = out@;
        let ghost t = data@.skip(i as int);
        proof {
            assert(t[0] == data@[i as int]);
            assert(t.drop_first() =~= data@.skip(i + 1));
        }
        out.push(data[i]);
        if *sent_count >= metalen - 1 {
            append(out, metadata);
            *sent_count = 0;
            proof {
                let rest = spliced(t.drop_first(), 0, metalen, metadata@);
                assert(out@ + rest.0 =~= before + (seq![t[0]] + metadata@ + rest.0));
            }
        } else {
            proof {
                let rest = spliced(t.drop_first(), (*sent_count + 1) as usize, metalen, metadata@);
                assert(out@ + rest.0 =~= before + (seq![t[0]] + rest.0));
            }
            *sent_count = *sent_count + 1;
        }
        i += 1;
    }
    proof {
        assert(out@ + Seq::<u8>::empty() =~= out@);
    }
}

} // verus!
