//! Transfer decoding: turns the bytes of a message body, as framed on the
//! wire, into the payload they carry.

use vstd::prelude::*;
use crate::text::{append, hex_digit, hex_value};

verus! {

/// How a body is framed on the wire.
#[derive(Clone, Copy, Debug, PartialEq, Eq, Structural)]
pub enum TransferEncoding {
    /// The payload is the body itself and never ends.
    Identity,
    /// The body is a sequence of chunks, each preceded by its size in hexadecimal.
    Chunked,
    /// The payload is the first `n` bytes of the body.
    Length(usize),
}

/// Why a chunked body was refused.
#[derive(Clone, Copy, Debug, PartialEq, Eq, Structural)]
pub enum DecodeError {
    /// A size line that is not hexadecimal digits followed by an optional
    /// extension, or whose number does not fit the machine.
    InvalidChunkSize,
    /// A carriage return or line feed was due and something else came.
    MissingCrlf,
}

/// Where a chunked body stands between two bytes.
#[derive(Clone, Copy, Debug, PartialEq, Eq, Structural)]
pub enum ChunkPhase {
    /// In the digits of a size line; `seen` once there is at least one digit.
    Size { value: usize, seen: bool },
    /// In the extension of a size line.
    Extension { value: usize },
    /// After the carriage return that ends a size line.
    SizeLf { value: usize },
    /// In the data of a chunk, `remaining` bytes of it still to come.
    Data { remaining: usize },
    /// After the data of a chunk: a carriage return is due.
    DataCr,
    /// After that carriage return: a line feed is due.
    DataLf,
    /// The chunk of size zero was read.
    Done,
    /// The body was refused.
    Failed(DecodeError),
}

/// A chunked body in the middle of decoding.
pub struct ChunkModel {
    pub phase: ChunkPhase,
    /// The data of the current chunk read so far; it is released when the
    /// chunk's closing CRLF has been seen.
    pub held: Seq<u8>,
    /// The payload released so far.
    pub out: Seq<u8>,
}

/// The phase that follows `phase` on byte `b`, as far as the phase alone decides it.
pub open spec fn next_phase(phase: ChunkPhase, b: u8) -> ChunkPhase {
    match phase {
        ChunkPhase::Size { value, seen } => match hex_value(b) {
            Some(d) => if value * 16 + d <= usize::MAX {
                ChunkPhase::Size { value: (value * 16 + d) as usize, seen: true }
            } else {
                ChunkPhase::Failed(DecodeError::InvalidChunkSize)
            },
            None => if !seen {
                ChunkPhase::Failed(DecodeError::InvalidChunkSize)
            } else if b == 59 {
                ChunkPhase::Extension { value }
            } else if b == 13 {
                ChunkPhase::SizeLf { value }
            } else {
                ChunkPhase::Failed(DecodeError::InvalidChunkSize)
            },
        },
        ChunkPhase::Extension { value } => if b == 13 {
            ChunkPhase::SizeLf { value }
        } else {
            phase
        },
        ChunkPhase::SizeLf { value } => if b != 10 {
            ChunkPhase::Failed(DecodeError::MissingCrlf)
        } else if value == 0 {
            ChunkPhase::Done
        } else {
            ChunkPhase::Data { remaining: value }
        },
        ChunkPhase::Data { remaining } => if remaining <= 1 {
            ChunkPhase::DataCr
        } else {
            ChunkPhase::Data { remaining: (remaining - 1) as usize }
        },
        ChunkPhase::DataCr => if b == 13 {
            ChunkPhase::DataLf
        } else {
            ChunkPhase::Failed(DecodeError::MissingCrlf)
        },
        ChunkPhase::DataLf => if b == 10 {
            ChunkPhase::Size { value: 0, seen: false }
        } else {
            ChunkPhase::Failed(DecodeError::MissingCrlf)
        },
        ChunkPhase::Done => phase,
        ChunkPhase::Failed(_) => phase,
    }
}

/// A chunked body after one more byte.
pub open spec fn chunk_step(m: ChunkModel, b: u8) -> ChunkModel {
    let phase = next_phase(m.phase, b);
    match m.phase {
        ChunkPhase::Data { .. } => ChunkModel { phase, held: m.held.push(b), out: m.out },
        ChunkPhase::DataLf => if b == 10 {
            ChunkModel { phase, held: Seq::empty(), out: m.out + m.held }
        } else {
            ChunkModel { phase, held: m.held, out: m.out }
        },
        _ => ChunkModel { phase, held: m.held, out: m.out },
    }
}

/// Whether a chunked body takes no more bytes.
pub open spec fn halted(phase: ChunkPhase) -> bool {
    phase is Done || phase is Failed
}

/// A chunked body after the bytes of `input`, read up to the end of the
/// body or to the first byte that is refused.
pub open spec fn chunk_run(m: ChunkModel, input: Seq<u8>) -> ChunkModel
    decreases input.len(),
{
    if input.len() == 0 || halted(m.phase) {
        m
    } else {
        chunk_run(chunk_step(m, input[0]), input.drop_first())
    }
}

/// What was released before a run does not change what the run releases.
pub proof fn lemma_run_appends(m: ChunkModel, input: Seq<u8>)
    ensures
        chunk_run(m, input).out == m.out + chunk_run(
            ChunkModel { out: Seq::empty(), ..m },
            input,
        ).out,
        chunk_run(m, input).phase == chunk_run(ChunkModel { out: Seq::empty(), ..m }, input).phase,
        chunk_run(m, input).held == chunk_run(ChunkModel { out: Seq::empty(), ..m }, input).held,
    decreases input.len(),
{
    let bare = ChunkModel { out: Seq::empty(), ..m };
    if input.len() == 0 || halted(m.phase) {
        assert(m.out + bare.out =~= m.out);
    } else {
        let m1 = chunk_step(m, input[0]);
        let b1 = chunk_step(bare, input[0]);
        lemma_run_appends(m1, input.drop_first());
        lemma_run_appends(b1, input.drop_first());
        assert(m1.out =~= m.out + b1.out);
        assert(ChunkModel { out: Seq::empty(), ..m1 } == ChunkModel { out: Seq::empty(), ..b1 });
        let tail = chunk_run(ChunkModel { out: Seq::empty(), ..m1 }, input.drop_first()).out;
        assert(m1.out + tail =~= m.out + (b1.out + tail));
    }
}

/// The hexadecimal digit for a number below 16, in lower case.
pub open spec fn hex_digit_of(d: nat) -> u8 {
    if d < 10 {
        (48 + d) as u8
    } else {
        (87 + d) as u8
    }
}

/// The hexadecimal digits of `n`, most significant first, without leading zeros.
pub open spec fn hex_digits(n: nat) -> Seq<u8>
    decreases n,
{
    if n < 16 {
        seq![hex_digit_of(n)]
    } else {
        hex_digits(n / 16).push(hex_digit_of(n % 16))
    }
}

/// A carriage return and a line feed.
pub open spec fn crlf() -> Seq<u8> {
    seq![13u8, 10u8]
}

/// One chunk on the wire: the size of the data in hexadecimal, CRLF, the
/// data, CRLF.
pub open spec fn chunk_of(data: Seq<u8>) -> Seq<u8> {
    hex_digits(data.len()) + crlf() + data + crlf()
}

/// A chunked body: a chunk for each part, and the chunk of size zero.
pub open spec fn chunked(parts: Seq<Seq<u8>>) -> Seq<u8>
    decreases parts.len(),
{
    if parts.len() == 0 {
        seq![48u8] + crlf()
    } else {
        chunk_of(parts[0]) + chunked(parts.drop_first())
    }
}

/// The parts put together.
pub open spec fn joined(parts: Seq<Seq<u8>>) -> Seq<u8>
    decreases parts.len(),
{
    if parts.len() == 0 {
        Seq::empty()
    } else {
        parts[0] + joined(parts.drop_first())
    }
}

/// A run over two inputs put together is a run over the first and then
/// one over the second.
pub proof fn lemma_run_split(m: ChunkModel, a: Seq<u8>, b: Seq<u8>)
    ensures
        chunk_run(m, a + b) == chunk_run(chunk_run(m, a), b),
    decreases a.len(),
{
    if a.len() == 0 {
        assert(a + b =~= b);
    } else if halted(m.phase) {
        assert(chunk_run(m, b) == m);
    } else {
        assert((a + b).drop_first() =~= a.drop_first() + b);
        lemma_run_split(chunk_step(m, a[0]), a.drop_first(), b);
    }
}

proof fn lemma_run_one(m: ChunkModel, b: u8)
    requires
        !halted(m.phase),
    ensures
        chunk_run(m, seq![b]) == chunk_step(m, b),
{
    let input = seq![b];
    assert(input.drop_first().len() == 0);
    assert(chunk_run(chunk_step(m, b), input.drop_first()) == chunk_step(m, b));
}

proof fn lemma_run_two(m: ChunkModel, a: u8, b: u8)
    requires
        !halted(m.phase),
        !halted(chunk_step(m, a).phase),
    ensures
        chunk_run(m, seq![a, b]) == chunk_step(chunk_step(m, a), b),
{
    assert(seq![a, b] =~= seq![a] + seq![b]);
    lemma_run_split(m, seq![a], seq![b]);
    lemma_run_one(m, a);
    lemma_run_one(chunk_step(m, a), b);
}

proof fn lemma_run_size(held: Seq<u8>, out: Seq<u8>, n: nat)
    requires
        n <= usize::MAX,
    ensures
        chunk_run(
            ChunkModel { phase: ChunkPhase::Size { value: 0, seen: false }, held, out },
            hex_digits(n),
        ) == (ChunkModel { phase: ChunkPhase::Size { value: n as usize, seen: true }, held, out }),
    decreases n,
{
    let start = ChunkModel { phase: ChunkPhase::Size { value: 0, seen: false }, held, out };
    if n < 16 {
        assert(hex_value(hex_digit_of(n)) == Some(n));
        lemma_run_one(start, hex_digit_of(n));
    } else {
        let d = n % 16;
        assert(hex_value(hex_digit_of(d)) == Some(d));
        lemma_run_size(held, out, n / 16);
        let before = chunk_run(start, hex_digits(n / 16));
        assert(hex_digits(n) =~= hex_digits(n / 16) + seq![hex_digit_of(d)]);
        lemma_run_split(start, hex_digits(n / 16), seq![hex_digit_of(d)]);
        lemma_run_one(before, hex_digit_of(d));
        assert((n / 16) * 16 + d == n);
    }
}

proof fn lemma_run_data(remaining: usize, held: Seq<u8>, out: Seq<u8>, data: Seq<u8>)
    requires
        data.len() == remaining,
        remaining >= 1,
    ensures
        chunk_run(ChunkModel { phase: ChunkPhase::Data { remaining }, held, out }, data) == (
        ChunkModel { phase: ChunkPhase::DataCr, held: held + data, out }),
    decreases data.len(),
{
    let start = ChunkModel { phase: ChunkPhase::Data { remaining }, held, out };
    let next = chunk_step(start, data[0]);
    assert(chunk_run(start, data) == chunk_run(next, data.drop_first()));
    if remaining == 1 {
        assert(data.drop_first().len() == 0);
        assert(chunk_run(next, data.drop_first()) == next);
        assert(held.push(data[0]) =~= held + data);
    } else {
        assert(next == (ChunkModel {
            phase: ChunkPhase::Data { remaining: (remaining - 1) as usize },
            held: held.push(data[0]),
            out,
        }));
        lemma_run_data((remaining - 1) as usize, held.push(data[0]), out, data.drop_first());
        assert(held.push(data[0]) + data.drop_first() =~= held + data);
    }
}

/// One whole chunk releases its data and leaves the decoder at the start
/// of the next size line.
pub proof fn lemma_chunk_releases_data(out: Seq<u8>, data: Seq<u8>)
    requires
        0 < data.len() <= usize::MAX,
    ensures
        chunk_run(
            ChunkModel {
                phase: ChunkPhase::Size { value: 0, seen: false },
                held: Seq::empty(),
                out,
            },
            chunk_of(data),
        ) == (ChunkModel {
            phase: ChunkPhase::Size { value: 0, seen: false },
            held: Seq::empty(),
            out: out + data,
        }),
{
    let n = data.len() as usize;
    let none = Seq::<u8>::empty();
    let start = ChunkModel { phase: ChunkPhase::Size { value: 0, seen: false }, held: none, out };
    let sized = ChunkModel { phase: ChunkPhase::Size { value: n, seen: true }, held: none, out };
    let ready = ChunkModel { phase: ChunkPhase::Data { remaining: n }, held: none, out };
    let full = ChunkModel { phase: ChunkPhase::DataCr, held: data, out };
    lemma_run_size(none, out, data.len());
    lemma_run_two(sized, 13, 10);
    lemma_run_data(n, none, out, data);
    assert(none + data =~= data);
    lemma_run_two(full, 13, 10);
    lemma_run_split(start, hex_digits(data.len()), crlf());
    lemma_run_split(start, hex_digits(data.len()) + crlf(), data);
    lemma_run_split(start, hex_digits(data.len()) + crlf() + data, crlf());
    assert(chunk_run(start, hex_digits(data.len()) + crlf()) == ready);
    assert(chunk_run(start, hex_digits(data.len()) + crlf() + data) == full);
}

proof fn lemma_chunked_run(out: Seq<u8>, parts: Seq<Seq<u8>>)
    requires
        forall|i: int| 0 <= i < parts.len() ==> 0 < (#[trigger] parts[i]).len() <= usize::MAX,
    ensures
        chunk_run(
            ChunkModel {
                phase: ChunkPhase::Size { value: 0, seen: false },
                held: Seq::empty(),
                out,
            },
            chunked(parts),
        ) == (ChunkModel { phase: ChunkPhase::Done, held: Seq::empty(), out: out + joined(parts) }),
    decreases parts.len(),
{
    let none = Seq::<u8>::empty();
    let start = ChunkModel { phase: ChunkPhase::Size { value: 0, seen: false }, held: none, out };
    if parts.len() == 0 {
        let zero = ChunkModel { phase: ChunkPhase::Size { value: 0, seen: true }, held: none, out };
        assert(hex_value(48u8) == Some(0nat));
        lemma_run_one(start, 48);
        lemma_run_two(zero, 13, 10);
        lemma_run_split(start, seq![48u8], crlf());
        assert(out + joined(parts) =~= out);
    } else {
        let rest = parts.drop_first();
        assert forall|i: int| 0 <= i < rest.len() implies 0 < (#[trigger] rest[i]).len()
            <= usize::MAX by {
            assert(rest[i] == parts[i + 1]);
        }
        lemma_chunk_releases_data(out, parts[0]);
        lemma_chunked_run(out + parts[0], rest);
        lemma_run_split(start, chunk_of(parts[0]), chunked(rest));
        assert((out + parts[0]) + joined(rest) =~= out + joined(parts));
    }
}

/// A decoder at the start of a chunked body that is well formed releases
/// the parts of the body, put together, and is finished at its end.
pub proof fn lemma_chunked_body(parts: Seq<Seq<u8>>)
    requires
        forall|i: int| 0 <= i < parts.len() ==> 0 < (#[trigger] parts[i]).len() <= usize::MAX,
    ensures
        DecoderState::initial(TransferEncoding::Chunked).produced(chunked(parts)) == joined(parts),
        DecoderState::initial(TransferEncoding::Chunked).after(chunked(parts)).finished(),
        DecoderState::initial(TransferEncoding::Chunked).after(chunked(parts)).failure() is None,
{
    lemma_chunked_run(Seq::empty(), parts);
    assert(Seq::<u8>::empty() + joined(parts) =~= joined(parts));
}

/// The state of a decoder between two calls.
pub enum DecoderState {
    Identity,
    /// `remaining` bytes of payload are still to come.
    Length { remaining: usize },
    Chunked { phase: ChunkPhase, held: Seq<u8> },
}

impl DecoderState {
    /// The state of a fresh decoder.
    pub open spec fn initial(encoding: TransferEncoding) -> DecoderState {
        match encoding {
            TransferEncoding::Identity => DecoderState::Identity,
            TransferEncoding::Length(n) => DecoderState::Length { remaining: n },
            TransferEncoding::Chunked => DecoderState::Chunked {
                phase: ChunkPhase::Size { value: 0, seen: false },
                held: Seq::empty(),
            },
        }
    }

    /// The whole payload has been produced.
    pub open spec fn finished(self) -> bool {
        match self {
            DecoderState::Identity => false,
            DecoderState::Length { remaining } => remaining == 0,
            DecoderState::Chunked { phase, .. } => phase is Done,
        }
    }

    /// Whether a call with `length` bytes finds nothing to do: the payload
    /// is complete, or the call brings no bytes.
    pub open spec fn idle_on(self, length: usize) -> bool {
        self.finished() || length == 0
    }

    /// The error on which the body was refused, if it was.
    pub open spec fn failure(self) -> Option<DecodeError> {
        match self {
            DecoderState::Chunked { phase: ChunkPhase::Failed(e), .. } => Some(e),
            _ => None,
        }
    }

    /// The state after the bytes of `input`.
    pub open spec fn after(self, input: Seq<u8>) -> DecoderState {
        match self {
            DecoderState::Identity => self,
            DecoderState::Length { remaining } => DecoderState::Length {
                remaining: if input.len() < remaining {
                    (remaining - input.len()) as usize
                } else {
                    0
                },
            },
            DecoderState::Chunked { phase, held } => {
                let m = chunk_run(ChunkModel { phase, held, out: Seq::empty() }, input);
                DecoderState::Chunked { phase: m.phase, held: m.held }
            },
        }
    }

    /// The payload that the bytes of `input` release.
    pub open spec fn produced(self, input: Seq<u8>) -> Seq<u8> {
        match self {
            DecoderState::Identity => input,
            DecoderState::Length { remaining } => if input.len() < remaining {
                input
            } else {
                input.take(remaining as int)
            },
            DecoderState::Chunked { phase, held } => chunk_run(
                ChunkModel { phase, held, out: Seq::empty() },
                input,
            ).out,
        }
    }
}

/// A finished decoder takes nothing more and releases nothing more.
pub proof fn lemma_finished_is_idle(s: DecoderState, input: Seq<u8>)
    requires
        s.finished(),
    ensures
        s.after(input) == s,
        s.produced(input) == Seq::<u8>::empty(),
{
    match s {
        DecoderState::Length { remaining } => {
            assert(input.take(0) =~= Seq::<u8>::empty());
        },
        _ => {},
    }
}

/// No bytes change nothing and release nothing.
pub proof fn lemma_nothing_taken(s: DecoderState)
    ensures
        s.after(Seq::empty()) == s,
        s.produced(Seq::empty()) == Seq::<u8>::empty(),
{
    match s {
        DecoderState::Length { remaining } => {
            assert(Seq::<u8>::empty().take(0) =~= Seq::<u8>::empty());
        },
        _ => {},
    }
}

/// A decoder of an identity body is never finished.
pub proof fn lemma_identity_never_finishes(input: Seq<u8>)
    ensures
        !DecoderState::initial(TransferEncoding::Identity).after(input).finished(),
        DecoderState::initial(TransferEncoding::Identity).produced(input) == input,
{
}

/// A decoder of a body of `n` bytes is finished exactly when `n` bytes went through it.
pub proof fn lemma_length_finishes(n: usize, input: Seq<u8>)
    ensures
        DecoderState::initial(TransferEncoding::Length(n)).after(input).finished() <==> input.len()
            >= n,
{
}

/// A stateful decoder of one message body.
pub struct StreamDecoder {
    encoding: TransferEncoding,
    remainder: usize,
    phase: ChunkPhase,
    chunk: Vec<u8>,
}

impl View for StreamDecoder {
    type V = DecoderState;

    closed spec fn view(&self) -> DecoderState {
        match self.encoding {
            TransferEncoding::Identity => DecoderState::Identity,
            TransferEncoding::Length(_) => DecoderState::Length { remaining: self.remainder },
            TransferEncoding::Chunked => DecoderState::Chunked {
                phase: self.phase,
                held: self.chunk@,
            },
        }
    }
}

/// The phase after one byte.
fn advance(phase: ChunkPhase, b: u8) -> (r: ChunkPhase)
    ensures
        r == next_phase(phase, b),
{
    match phase {
        ChunkPhase::Size { value, seen } => match hex_digit(b) {
            Some(d) => if value <= (usize::MAX - d) / 16 {
                ChunkPhase::Size { value: value * 16 + d, seen: true }
            } else {
                ChunkPhase::Failed(DecodeError::InvalidChunkSize)
            },
            None => if !seen {
                ChunkPhase::Failed(DecodeError::InvalidChunkSize)
            } else if b == 59 {
                ChunkPhase::Extension { value }
            } else if b == 13 {
                ChunkPhase::SizeLf { value }
            } else {
                ChunkPhase::Failed(DecodeError::InvalidChunkSize)
            },
        },
        ChunkPhase::Extension { value } => if b == 13 {
            ChunkPhase::SizeLf { value }
        } else {
            phase
        },
        ChunkPhase::SizeLf { value } => if b != 10 {
            ChunkPhase::Failed(DecodeError::MissingCrlf)
        } else if value == 0 {
            ChunkPhase::Done
        } else {
            ChunkPhase::Data { remaining: value }
        },
        ChunkPhase::Data { remaining } => if remaining <= 1 {
            ChunkPhase::DataCr
        } else {
            ChunkPhase::Data { remaining: remaining - 1 }
        },
        ChunkPhase::DataCr => if b == 13 {
            ChunkPhase::DataLf
        } else {
            ChunkPhase::Failed(DecodeError::MissingCrlf)
        },
        ChunkPhase::DataLf => if b == 10 {
            ChunkPhase::Size { value: 0, seen: false }
        } else {
            ChunkPhase::Failed(DecodeError::MissingCrlf)
        },
        ChunkPhase::Done => phase,
        ChunkPhase::Failed(_) => phase,
    }
}

impl StreamDecoder {
    /// A decoder at the start of a body framed as `encoding` says.
    pub fn new(encoding: TransferEncoding) -> (r: StreamDecoder)
        ensures
            r@ == DecoderState::initial(encoding),
    {
        let remainder: usize = match encoding {
            TransferEncoding::Length(v) => v,
            _ => 1,
        };
        StreamDecoder {
            encoding,
            remainder,
            phase: ChunkPhase::Size { value: 0, seen: false },
            chunk: Vec::new(),
        }
    }

    /// Whether the whole payload has been produced. Never true of an
    /// identity body.
    pub fn is_finished(&self) -> (r: bool)
        ensures
            r == self@.finished(),
    {
        match self.encoding {
            TransferEncoding::Identity => false,
            TransferEncoding::Length(_) => self.remainder == 0,
            TransferEncoding::Chunked => match self.phase {
                ChunkPhase::Done => true,
                _ => false,
            },
        }
    }

    /// Feeds one byte of a chunked body.
    fn feed(&mut self, out: &mut Vec<u8>, b: u8)
        requires
            old(self).encoding is Chunked,
        ensures
            final(self).encoding is Chunked,
            ({
                let m = chunk_step(
                    ChunkModel { phase: old(self).phase, held: old(self).chunk@, out: old(out)@ },
                    b,
                );
                &&& final(self).phase == m.phase
                &&& final(self).chunk@ == m.held
                &&& final(out)@ == m.out
            }),
    {
        let next = advance(self.phase, b);
        match self.phase {
            ChunkPhase::Data { .. } => {
                self.chunk.push(b);
            },
            ChunkPhase::DataLf => {
                if b == 10 {
                    append(out, self.chunk.as_slice());
                    self.chunk.clear();
                }
            },
            _ => {},
        }
        self.phase = next;
    }

    /// Decodes the first `length` bytes of `buf`, appends the payload they
    /// release to `out` and returns how many bytes that was. A finished
    /// decoder, and a call with no bytes, releases nothing, changes
    /// nothing and returns zero. A chunked body that breaks its framing is
    /// refused, at once and on every later call that brings bytes; what it
    /// released before the offending byte stays in `out`.
    pub fn decode(&mut self, out: &mut Vec<u8>, buf: &[u8], length: usize) -> (r: Result<
        usize,
        DecodeError,
    >)
        requires
            old(self)@.finished() || length <= buf@.len(),
        ensures
            old(self)@.idle_on(length) ==> {
                &&& r == Ok::<usize, DecodeError>(0)
                &&& final(self)@ == old(self)@
                &&& final(out)@ == old(out)@
            },
            !old(self)@.idle_on(length) ==> {
                &&& final(self)@ == old(self)@.after(buf@.take(length as int))
                &&& final(out)@ == old(out)@ + old(self)@.produced(buf@.take(length as int))
                &&& r == match final(self)@.failure() {
                    Some(e) => Err::<usize, DecodeError>(e),
                    None => Ok(old(self)@.produced(buf@.take(length as int)).len() as usize),
                }
            },
    {
        if length == 0 || self.is_finished() {
            return Ok(0);
        }
        let ghost input = buf@.take(length as int);
        match self.encoding {
            TransferEncoding::Identity => {
                append(out, &buf[0..length]);
                assert(buf@.subrange(0, length as int) =~= input);
                Ok(length)
            },
            TransferEncoding::Length(_) => {
                let allowed: usize = if length < self.remainder {
                    length
                } else {
                    self.remainder
                };
                append(out, &buf[0..allowed]);
                proof {
                    if length < self.remainder {
                        assert(buf@.subrange(0, allowed as int) =~= input);
                    } else {
                        assert(buf@.subrange(0, allowed as int) =~= input.take(allowed as int));
                    }
                }
                self.remainder = self.remainder - allowed;
                Ok(allowed)
            },
            TransferEncoding::Chunked => {
                let start: usize = out.len();
                let ghost first = ChunkModel {
                    phase: self.phase,
                    held: self.chunk@,
                    out: old(out)@,
                };
                let mut index: usize = 0;
                assert(input.subrange(0, length as int) =~= input);
                while index < length && !self.halted()
                    invariant
                        self.encoding is Chunked,
                        index <= length <= buf@.len(),
                        input == buf@.take(length as int),
                        out@.len() >= start,
                        chunk_run(
                            ChunkModel { phase: self.phase, held: self.chunk@, out: out@ },
                            input.subrange(index as int, length as int),
                        ) == chunk_run(first, input),
                    decreases length - index,
                {
                    let ghost rest = input.subrange(index as int, length as int);
                    let ghost before = ChunkModel {
                        phase: self.phase,
                        held: self.chunk@,
                        out: out@,
                    };
                    self.feed(out, buf[index]);
                    proof {
                        assert(rest[0] == buf@[index as int]);
                        assert(rest.drop_first() =~= input.subrange(index + 1, length as int));
                        assert(chunk_step(before, rest[0]).out.len() >= before.out.len());
                    }
                    index += 1;
                }
                proof {
                    let last = ChunkModel { phase: self.phase, held: self.chunk@, out: out@ };
                    assert(chunk_run(last, input.subrange(index as int, length as int)) == last);
                    lemma_run_appends(first, input);
                }
                match self.phase {
                    ChunkPhase::Failed(e) => Err(e),
                    _ => Ok(out.len() - start),
                }
            },
        }
    }

    /// Whether a chunked body takes no more bytes.
    fn halted(&self) -> (r: bool)
        ensures
            r == halted(self.phase),
    {
        match self.phase {
            ChunkPhase::Done => true,
            ChunkPhase::Failed(_) => true,
            _ => false,
        }
    }
}

} // verus!
