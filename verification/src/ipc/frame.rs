//! Frames on the wire: a header and a payload, each behind its length as four
//! little-endian bytes.

use super::error::{DesktopIpcError, DesktopIpcErrorView};
use vstd::prelude::*;

verus! {

/// The longest header that a reader accepts.
pub const MAX_HEADER_LEN: usize = 16_777_216;

/// The longest payload that a reader accepts.
pub const MAX_PAYLOAD_LEN: usize = 67_108_864;

// ---------------------------------------------------------------------------
// The format
// ---------------------------------------------------------------------------

/// A number below 2^32 as four bytes, the lowest first.
pub open spec fn le_bytes(n: nat) -> Seq<u8> {
    seq![
        (n % 256) as u8,
        (n / 256 % 256) as u8,
        (n / 65_536 % 256) as u8,
        (n / 16_777_216 % 256) as u8,
    ]
}

/// The number that four bytes spell, the lowest first.
pub open spec fn le_number(b: Seq<u8>) -> nat {
    (b[0] + b[1] * 256 + b[2] * 65_536 + b[3] * 16_777_216) as nat
}

/// Whether a length can be put in front of what it measures.
pub open spec fn fits(len: nat) -> bool {
    len <= u32::MAX
}

/// The bytes of a frame.
pub open spec fn frame(header: Seq<u8>, payload: Seq<u8>) -> Seq<u8> {
    le_bytes(header.len()) + header + le_bytes(payload.len()) + payload
}

/// What a reader makes of a stream of bytes.
pub enum Reading {
    /// A frame, and the bytes that follow it.
    Frame { header: Seq<u8>, payload: Seq<u8>, rest: Seq<u8> },
    /// A frame that is longer than a reader accepts.
    Refused(DesktopIpcErrorView),
    /// The stream ends before the frame does.
    Truncated,
}

/// What a reader makes of a stream of bytes, by the format.
pub open spec fn read_from(stream: Seq<u8>) -> Reading {
    let header_len = le_number(stream);
    let after = stream.skip(4 + header_len as int);
    let payload_len = le_number(after);
    if stream.len() < 4 {
        Reading::Truncated
    } else if header_len > MAX_HEADER_LEN {
        Reading::Refused(DesktopIpcErrorView::Protocol("header too large"@))
    } else if stream.len() < 4 + header_len + 4 {
        Reading::Truncated
    } else if payload_len > MAX_PAYLOAD_LEN {
        Reading::Refused(DesktopIpcErrorView::Protocol("payload too large"@))
    } else if stream.len() < 4 + header_len + 4 + payload_len {
        Reading::Truncated
    } else {
        Reading::Frame {
            header: stream.subrange(4, 4 + header_len as int),
            payload: after.subrange(4, 4 + payload_len as int),
            rest: after.skip(4 + payload_len as int),
        }
    }
}

// ---------------------------------------------------------------------------
// Writing
// ---------------------------------------------------------------------------

/// Append a length as four little-endian bytes.
fn push_len(out: &mut Vec<u8>, len: usize)
    requires
        fits(len as nat),
    ensures
        final(out)@ == old(out)@ + le_bytes(len as nat),
{
    out.push((len % 256) as u8);
    out.push((len / 256 % 256) as u8);
    out.push((len / 65_536 % 256) as u8);
    out.push((len / 16_777_216 % 256) as u8);
    assert(out@ == old(out)@ + le_bytes(len as nat));
}

/// Refuse parts that are too long for their lengths to be written.
pub fn check_frame_lens(header_len: usize, payload_len: usize) -> (r: Result<(), DesktopIpcError>)
    ensures
        match r {
            Ok(()) => fits(header_len as nat) && fits(payload_len as nat),
            Err(e) => !(fits(header_len as nat) && fits(payload_len as nat)) && e@
                == DesktopIpcErrorView::Protocol("frame too large"@),
        },
{
    if header_len > u32::MAX as usize || payload_len > u32::MAX as usize {
        return Err(DesktopIpcError::Protocol("frame too large".to_owned()));
    }
    Ok(())
}

/// The bytes of a frame, unless a part is too long for its length to be written.
pub fn encode_frame(header: &[u8], payload: &[u8]) -> (r: Result<Vec<u8>, DesktopIpcError>)
    ensures
        match r {
            Ok(bytes) => fits(header@.len()) && fits(payload@.len()) && bytes@ == frame(
                header@,
                payload@,
            ),
            Err(e) => !(fits(header@.len()) && fits(payload@.len())) && e@
                == DesktopIpcErrorView::Protocol("frame too large"@),
        },
{
    check_frame_lens(header.len(), payload.len())?;
    let mut out: Vec<u8> = Vec::new();
    push_len(&mut out, header.len());
    out.extend_from_slice(header);
    assert(out@ == le_bytes(header@.len()) + header@);
    push_len(&mut out, payload.len());
    out.extend_from_slice(payload);
    assert(out@ == frame(header@, payload@));
    Ok(out)
}

// ---------------------------------------------------------------------------
// Reading
// ---------------------------------------------------------------------------

/// Where a reader stands within a frame.
pub enum FrameReader {
    HeaderLength,
    Header { len: usize },
    PayloadLength { header: Vec<u8> },
    Payload { header: Vec<u8>, len: usize },
}

/// What a reader does after a chunk of bytes.
pub enum FrameStep {
    /// It goes on.
    Continue(FrameReader),
    /// It has the whole frame.
    Complete { header: Vec<u8>, payload: Vec<u8> },
}

/// Where a reader stands within a frame, with bytes as sequences.
pub enum ReaderView {
    HeaderLength,
    Header { len: nat },
    PayloadLength { header: Seq<u8> },
    Payload { header: Seq<u8>, len: nat },
}

/// What a reader does after a chunk of bytes, with bytes as sequences.
pub enum StepView {
    Continue(ReaderView),
    Complete { header: Seq<u8>, payload: Seq<u8> },
}

impl View for FrameReader {
    type V = ReaderView;

    open spec fn view(&self) -> ReaderView {
        match *self {
            FrameReader::HeaderLength => ReaderView::HeaderLength,
            FrameReader::Header { len } => ReaderView::Header { len: len as nat },
            FrameReader::PayloadLength { header } => ReaderView::PayloadLength { header: header@ },
            FrameReader::Payload { header, len } => ReaderView::Payload {
                header: header@,
                len: len as nat,
            },
        }
    }
}

impl View for FrameStep {
    type V = StepView;

    open spec fn view(&self) -> StepView {
        match *self {
            FrameStep::Continue(reader) => StepView::Continue(reader@),
            FrameStep::Complete { header, payload } => StepView::Complete {
                header: header@,
                payload: payload@,
            },
        }
    }
}

impl ReaderView {
    /// How many bytes the reader needs next.
    pub open spec fn wanted(self) -> nat {
        match self {
            ReaderView::HeaderLength => 4,
            ReaderView::Header { len } => len,
            ReaderView::PayloadLength { .. } => 4,
            ReaderView::Payload { len, .. } => len,
        }
    }

    /// What the reader does with the bytes it needed.
    pub open spec fn after(self, chunk: Seq<u8>) -> Result<StepView, DesktopIpcErrorView> {
        match self {
            ReaderView::HeaderLength => if le_number(chunk) > MAX_HEADER_LEN {
                Err(DesktopIpcErrorView::Protocol("header too large"@))
            } else {
                Ok(StepView::Continue(ReaderView::Header { len: le_number(chunk) }))
            },
            ReaderView::Header { .. } => Ok(
                StepView::Continue(ReaderView::PayloadLength { header: chunk }),
            ),
            ReaderView::PayloadLength { header } => if le_number(chunk) > MAX_PAYLOAD_LEN {
                Err(DesktopIpcErrorView::Protocol("payload too large"@))
            } else if le_number(chunk) == 0 {
                Ok(StepView::Complete { header, payload: Seq::empty() })
            } else {
                Ok(StepView::Continue(ReaderView::Payload { header, len: le_number(chunk) }))
            },
            ReaderView::Payload { header, .. } => Ok(
                StepView::Complete { header, payload: chunk },
            ),
        }
    }

    /// How many chunks may still follow.
    pub open spec fn chunks_left(self) -> nat {
        match self {
            ReaderView::HeaderLength => 4,
            ReaderView::Header { .. } => 3,
            ReaderView::PayloadLength { .. } => 2,
            ReaderView::Payload { .. } => 1,
        }
    }

    /// What comes of handing the reader the stream chunk by chunk, as many bytes
    /// each time as it needs.
    pub open spec fn fed(self, stream: Seq<u8>) -> Reading
        decreases self.chunks_left(),
    {
        let n = self.wanted() as int;
        if stream.len() < n {
            Reading::Truncated
        } else {
            match self.after(stream.take(n)) {
                Err(e) => Reading::Refused(e),
                Ok(StepView::Complete { header, payload }) => Reading::Frame {
                    header,
                    payload,
                    rest: stream.skip(n),
                },
                Ok(StepView::Continue(next)) => next.fed(stream.skip(n)),
            }
        }
    }
}

/// The number that four bytes spell, the lowest first.
fn number_of(b: &Vec<u8>) -> (r: usize)
    requires
        b@.len() == 4,
    ensures
        r == le_number(b@),
{
    let low: u32 = b[0] as u32 + b[1] as u32 * 256 + b[2] as u32 * 65_536;
    (low + b[3] as u32 * 16_777_216) as usize
}

impl FrameReader {
    /// A reader at the start of a frame.
    pub fn new() -> (r: Self)
        ensures
            r@ == ReaderView::HeaderLength,
    {
        FrameReader::HeaderLength
    }

    /// How many bytes the reader needs next.
    pub fn wanted(&self) -> (r: usize)
        ensures
            r == self@.wanted(),
    {
        match self {
            FrameReader::HeaderLength => 4,
            FrameReader::Header { len } => *len,
            FrameReader::PayloadLength { .. } => 4,
            FrameReader::Payload { len, .. } => *len,
        }
    }

    /// Hand the reader the bytes it needs.
    pub fn advance(self, chunk: Vec<u8>) -> (r: Result<FrameStep, DesktopIpcError>)
        requires
            chunk@.len() == self@.wanted(),
        ensures
            match r {
                Ok(step) => self@.after(chunk@) == Ok::<StepView, DesktopIpcErrorView>(step@),
                Err(e) => self@.after(chunk@) == Err::<StepView, DesktopIpcErrorView>(e@),
            },
    {
        match self {
            FrameReader::HeaderLength => {
                let len: usize = number_of(&chunk);
                if len > MAX_HEADER_LEN {
                    return Err(DesktopIpcError::Protocol("header too large".to_owned()));
                }
                Ok(FrameStep::Continue(FrameReader::Header { len }))
            },
            FrameReader::Header { .. } => Ok(
                FrameStep::Continue(FrameReader::PayloadLength { header: chunk }),
            ),
            FrameReader::PayloadLength { header } => {
                let len: usize = number_of(&chunk);
                if len > MAX_PAYLOAD_LEN {
                    return Err(DesktopIpcError::Protocol("payload too large".to_owned()));
                }
                if len == 0 {
                    return Ok(FrameStep::Complete { header, payload: Vec::new() });
                }
                Ok(FrameStep::Continue(FrameReader::Payload { header, len }))
            },
            FrameReader::Payload { header, .. } => Ok(
                FrameStep::Complete { header, payload: chunk },
            ),
        }
    }
}

// ---------------------------------------------------------------------------
// Laws
// ---------------------------------------------------------------------------

/// Four bytes give back the number they were made from.
pub proof fn lemma_le_bytes_spell(n: nat)
    requires
        fits(n),
    ensures
        le_bytes(n).len() == 4,
        le_number(le_bytes(n)) == n,
{
}

/// Four bytes are those of the number they spell.
pub proof fn lemma_le_number_spelled(b: Seq<u8>)
    requires
        b.len() == 4,
    ensures
        fits(le_number(b)),
        le_bytes(le_number(b)) == b,
{
    let n = le_number(b);
    assert(n % 256 == b[0]);
    assert(n / 256 % 256 == b[1]);
    assert(n / 65_536 % 256 == b[2]);
    assert(n / 16_777_216 % 256 == b[3]);
    assert(le_bytes(n) == b);
}

/// A reader that is handed a stream chunk by chunk makes of it what the format says.
pub proof fn law_reader_follows_format(stream: Seq<u8>)
    ensures
        ReaderView::HeaderLength.fed(stream) == read_from(stream),
{
    reveal_with_fuel(ReaderView::fed, 5);
    if stream.len() >= 4 {
        let header_len = le_number(stream);
        assert(stream.take(4)[0] == stream[0] && stream.take(4)[3] == stream[3]);
        assert(le_number(stream.take(4)) == header_len);
        let s1 = stream.skip(4);
        if header_len <= MAX_HEADER_LEN && s1.len() >= header_len {
            let header = s1.take(header_len as int);
            let s2 = s1.skip(header_len as int);
            assert(s2 == stream.skip(4 + header_len as int));
            assert(header == stream.subrange(4, 4 + header_len as int));
            if s2.len() >= 4 {
                assert(le_number(s2.take(4)) == le_number(s2));
                let payload_len = le_number(s2);
                let s3 = s2.skip(4);
                if payload_len == 0 {
                    assert(s2.subrange(4, 4) == Seq::<u8>::empty());
                } else if payload_len <= MAX_PAYLOAD_LEN && s3.len() >= payload_len {
                    assert(s3.take(payload_len as int) == s2.subrange(4, 4 + payload_len as int));
                    assert(s3.skip(payload_len as int) == s2.skip(4 + payload_len as int));
                }
            }
        }
    }
}

/// The parts of a frame sit where the format puts them, whatever follows it.
proof fn lemma_frame_parts(header: Seq<u8>, payload: Seq<u8>, rest: Seq<u8>)
    requires
        fits(header.len()),
        fits(payload.len()),
    ensures
        ({
            let stream = frame(header, payload) + rest;
            let after = stream.skip(4 + header.len() as int);
            &&& stream.len() == 8 + header.len() + payload.len() + rest.len()
            &&& le_number(stream) == header.len()
            &&& stream.subrange(4, 4 + header.len() as int) == header
            &&& le_number(after) == payload.len()
            &&& after.subrange(4, 4 + payload.len() as int) == payload
            &&& after.skip(4 + payload.len() as int) == rest
        }),
{
    let h = header.len();
    let p = payload.len();
    let stream = frame(header, payload) + rest;
    let after = stream.skip(4 + h as int);
    lemma_le_bytes_spell(h);
    lemma_le_bytes_spell(p);
    assert(stream.take(4) == le_bytes(h));
    assert(stream.take(4)[0] == stream[0] && stream.take(4)[3] == stream[3]);
    assert(le_number(stream) == le_number(stream.take(4)));
    assert(after == le_bytes(p) + payload + rest);
    assert(after.take(4) == le_bytes(p));
    assert(le_number(after) == le_number(after.take(4)));
    assert(stream.subrange(4, 4 + h as int) == header);
    assert(after.subrange(4, 4 + p as int) == payload);
    assert(after.skip(4 + p as int) == rest);
}

/// Reading gives back what was written: a frame within the reader's limits comes
/// out as the header and payload it was made from, and what follows it is left.
pub proof fn law_read_back(header: Seq<u8>, payload: Seq<u8>, rest: Seq<u8>)
    requires
        header.len() <= MAX_HEADER_LEN,
        payload.len() <= MAX_PAYLOAD_LEN,
    ensures
        read_from(frame(header, payload) + rest) == (Reading::Frame { header, payload, rest }),
        ReaderView::HeaderLength.fed(frame(header, payload) + rest) == (Reading::Frame {
            header,
            payload,
            rest,
        }),
{
    lemma_frame_parts(header, payload, rest);
    law_reader_follows_format(frame(header, payload) + rest);
}

/// A frame that can be written but exceeds the reader's limits is refused: for its
/// header if that is too long, else for its payload.
pub proof fn law_oversized_refused(header: Seq<u8>, payload: Seq<u8>, rest: Seq<u8>)
    requires
        fits(header.len()),
        fits(payload.len()),
        header.len() > MAX_HEADER_LEN || payload.len() > MAX_PAYLOAD_LEN,
    ensures
        read_from(frame(header, payload) + rest) == Reading::Refused(
            DesktopIpcErrorView::Protocol(
                if header.len() > MAX_HEADER_LEN {
                    "header too large"@
                } else {
                    "payload too large"@
                },
            ),
        ),
{
    lemma_frame_parts(header, payload, rest);
}

/// Writing gives back what was read: the bytes that a reader takes off a stream
/// are those of the frame with the header and payload it reports.
pub proof fn law_written_again(stream: Seq<u8>)
    ensures
        read_from(stream) matches Reading::Frame { header, payload, rest } ==> stream == frame(
            header,
            payload,
        ) + rest,
{
    if let Reading::Frame { header, payload, rest } = read_from(stream) {
        let h = le_number(stream);
        let after = stream.skip(4 + h as int);
        let p = le_number(after);
        lemma_le_number_spelled(stream.take(4));
        assert(le_number(stream.take(4)) == h);
        lemma_le_number_spelled(after.take(4));
        assert(le_number(after.take(4)) == p);
        assert(header.len() == h);
        assert(payload.len() == p);
        assert(after == le_bytes(p) + payload + rest);
        assert(stream == stream.take(4) + header + after);
        assert(stream == frame(header, payload) + rest);
    }
}

/// No byte stream begins with two different frames.
pub proof fn law_frames_differ(
    header: Seq<u8>,
    payload: Seq<u8>,
    rest: Seq<u8>,
    other_header: Seq<u8>,
    other_payload: Seq<u8>,
    other_rest: Seq<u8>,
)
    requires
        fits(header.len()),
        fits(payload.len()),
        fits(other_header.len()),
        fits(other_payload.len()),
        frame(header, payload) + rest == frame(other_header, other_payload) + other_rest,
    ensures
        header == other_header,
        payload == other_payload,
        rest == other_rest,
{
    lemma_frame_parts(header, payload, rest);
    lemma_frame_parts(other_header, other_payload, other_rest);
}

/// A reader waits for the whole frame: of a frame within its limits no proper
/// prefix is taken for a frame, and none is refused.
pub proof fn law_prefix_waits(header: Seq<u8>, payload: Seq<u8>, n: int)
    requires
        header.len() <= MAX_HEADER_LEN,
        payload.len() <= MAX_PAYLOAD_LEN,
        0 <= n < frame(header, payload).len(),
    ensures
        read_from(frame(header, payload).take(n)) is Truncated,
{
    let whole = frame(header, payload) + Seq::<u8>::empty();
    assert(whole == frame(header, payload));
    lemma_frame_parts(header, payload, Seq::empty());
    let part = whole.take(n);
    let h = header.len();
    if n >= 4 {
        assert(part[0] == whole[0] && part[1] == whole[1] && part[2] == whole[2] && part[3]
            == whole[3]);
        assert(le_number(part) == h);
        if n >= 4 + h + 4 {
            let a = part.skip(4 + h as int);
            let b = whole.skip(4 + h as int);
            assert(a[0] == b[0] && a[1] == b[1] && a[2] == b[2] && a[3] == b[3]);
            assert(le_number(a) == payload.len());
        }
    }
}

} // verus!
