//! Decoder for the container engine's multiplexed log stream.
//!
//! The engine carries a container's stdout and stderr over one byte stream,
//! cut into frames. Each frame opens with an 8-byte header: a stream tag
//! (0 = stdin, 1 = stdout, 2 = stderr), three reserved bytes, and the
//! payload length as a big-endian 32-bit integer; the payload follows.

use vstd::prelude::*;
use crate::bytesutil::{be32_at, read_be32, sub_vec, tail_from, append_bytes, Parsed, Scan};
use crate::stream::{drain, good_parser, shift_parsed, DrainOut, DecodeState, start_state, run_from, quiescent};
use crate::stream::{lemma_drain_shift, lemma_run_from};
use crate::error::DockerError;

verus! {

/// The stream a frame belongs to.
#[derive(Clone, Copy, Debug, PartialEq, Eq, Structural)]
pub enum LogType {
    Stdout,
    Stdin,
    Stderr,
}

/// A decoded frame header.
#[derive(Clone, Copy, Debug)]
pub struct Header {
    pub log_type: LogType,
    pub size: u32,
}

/// One decoded frame: the payload bytes, tagged by their stream.
#[derive(Debug)]
pub enum Message {
    Stdout(Vec<u8>),
    Stderr(Vec<u8>),
    Stdin(Vec<u8>),
}

/// The stream for a tag byte; meaningful for tags 0 through 2.
pub open spec fn type_of_tag(b: u8) -> LogType {
    if b == 0 {
        LogType::Stdin
    } else if b == 1 {
        LogType::Stdout
    } else {
        LogType::Stderr
    }
}

impl View for Message {
    type V = (u8, Seq<u8>);

    open spec fn view(&self) -> (u8, Seq<u8>) {
        match self {
            Message::Stdin(p) => (0u8, p@),
            Message::Stdout(p) => (1u8, p@),
            Message::Stderr(p) => (2u8, p@),
        }
    }
}

impl Header {
    /// Reads a frame header from the first 8 bytes of `bytes`.
    pub fn new(bytes: &[u8]) -> (r: Header)
        requires
            bytes@.len() >= 8,
            bytes@[0] <= 2,
        ensures
            r.log_type == type_of_tag(bytes@[0]),
            r.size == be32_at(bytes@, 4),
    {
        let log_type = if bytes[0] == 0 {
            LogType::Stdin
        } else if bytes[0] == 1 {
            LogType::Stdout
        } else {
            LogType::Stderr
        };
        let size = (bytes[4] as u32) * 0x100_0000 + (bytes[5] as u32) * 0x1_0000 + (bytes[6]
            as u32) * 0x100 + (bytes[7] as u32);
        Header { log_type, size }
    }
}

/// Tries to split one frame off `s` at position `i`: `Needs` until the
/// whole header and payload are present, `Bad` on an unknown stream tag,
/// else the `(tag, payload)` pair and the first position past the frame.
pub open spec fn parse_frame(s: Seq<u8>, i: int) -> Parsed<(u8, Seq<u8>)> {
    if s.len() - i < 8 {
        Parsed::Needs
    } else if s[i] > 2 {
        Parsed::Bad
    } else {
        let n = be32_at(s, i + 4);
        if s.len() - i - 8 < n {
            Parsed::Needs
        } else {
            Parsed::Found((s[i], s.subrange(i + 8, i + 8 + n)), i + 8 + n)
        }
    }
}

/// `parse_frame` as a value, for the decoder model in `stream`.
pub open spec fn frame_parser() -> spec_fn(Seq<u8>, int) -> Parsed<(u8, Seq<u8>)> {
    |s: Seq<u8>, i: int| parse_frame(s, i)
}

/// The frame parser cannot see chunk boundaries: appending bytes never
/// changes a parse that did not run short, a frame occupies at least its
/// header, and bytes before the start position are irrelevant.
pub proof fn lemma_frame_parser_good()
    ensures
        good_parser(frame_parser()),
{
    let p = frame_parser();
    assert forall|s: Seq<u8>, e: Seq<u8>, i: int|
        0 <= i <= s.len() && !(p(s, i) is Needs) implies #[trigger] p(s + e, i) == p(s, i) by {
        let sx = s + e;
        assert(s.len() - i >= 8);
        assert(sx[i] == s[i]);
        if s[i] <= 2 {
            assert(be32_at(sx, i + 4) == be32_at(s, i + 4));
            let n = be32_at(s, i + 4);
            assert(s.len() - i - 8 >= n);
            assert(sx.subrange(i + 8, i + 8 + n) =~= s.subrange(i + 8, i + 8 + n));
        }
    }
    assert forall|s: Seq<u8>, i: int| 0 <= i implies (#[trigger] p(s, i) matches Parsed::Found(v, j)
        ==> i < j <= s.len()) by {
        if p(s, i) is Found {
            assert(s.len() - i >= 8);
        }
    }
    assert forall|a: Seq<u8>, s: Seq<u8>, i: int| 0 <= i implies #[trigger] p(a + s, a.len() + i)
        == shift_parsed(p(s, i), a.len() as int) by {
        let sx = a + s;
        let d = a.len() as int;
        assert(sx.len() - (d + i) == s.len() - i);
        if s.len() - i >= 8 {
            assert(sx[d + i] == s[i]);
            assert(be32_at(sx, d + i + 4) == be32_at(s, i + 4));
            let n = be32_at(s, i + 4);
            if s.len() - i - 8 >= n {
                assert(sx.subrange(d + i + 8, d + i + 8 + n) =~= s.subrange(i + 8, i + 8 + n));
            }
        }
    }
}

/// Tries to decode one frame from the front of `buf`.
fn scan_frame(buf: &Vec<u8>) -> (r: Scan<Message>)
    ensures
        ({
            let pf = parse_frame(buf@, 0);
            &&& (pf matches Parsed::Found(f, j) ==> r matches Scan::Found(m, jj) && m@ == f && jj
                == j)
            &&& (pf is Needs ==> r is Needs)
            &&& (pf is Bad ==> r is Bad)
        }),
{
    if buf.len() < 8 {
        return Scan::Needs;
    }
    let tag = buf[0];
    if tag > 2 {
        return Scan::Bad;
    }
    let n = read_be32(buf, 4);
    if n as usize > buf.len() - 8 {
        return Scan::Needs;
    }
    let end = 8 + n as usize;
    let payload = sub_vec(buf, 8, end);
    let msg = if tag == 0 {
        Message::Stdin(payload)
    } else if tag == 1 {
        Message::Stdout(payload)
    } else {
        Message::Stderr(payload)
    };
    Scan::Found(msg, end)
}

/// Incremental decoder for the framed log stream. Bytes pushed into `buf`
/// are consumed from the front, one frame per `next_message` call.
pub struct Logs {
    pub buf: Vec<u8>,
    pub failed: bool,
}

impl Logs {
    /// A decoder that has seen no bytes.
    pub fn new() -> (r: Logs)
        ensures
            r.buf@ == Seq::<u8>::empty(),
            !r.failed,
    {
        Logs { buf: Vec::new(), failed: false }
    }

    /// Hands the decoder the next chunk of the stream.
    pub fn push_chunk(&mut self, chunk: &[u8])
        ensures
            final(self).buf@ == old(self).buf@ + chunk@,
            final(self).failed == old(self).failed,
    {
        append_bytes(&mut self.buf, chunk);
    }

    /// Yields the next complete frame buffered, `Ok(None)` when more bytes
    /// are needed, or an error on a malformed stream; the error sticks.
    pub fn next_message(&mut self) -> (r: Result<Option<Message>, DockerError>)
        ensures
            ({
                let pf = parse_frame(old(self).buf@, 0);
                &&& (old(self).failed ==> r == Result::<Option<Message>, DockerError>::Err(
                    DockerError::UnknownError,
                ) && *final(self) == *old(self))
                &&& (!old(self).failed ==> {
                    &&& (pf matches Parsed::Found(f, j) ==> r matches Ok(Some(m)) && m@ == f
                        && final(self).buf@ == old(self).buf@.subrange(j, old(self).buf@.len() as int)
                        && !final(self).failed)
                    &&& (pf is Needs ==> r == Result::<Option<Message>, DockerError>::Ok(None)
                        && *final(self) == *old(self))
                    &&& (pf is Bad ==> r == Result::<Option<Message>, DockerError>::Err(
                        DockerError::UnknownError,
                    ) && final(self).buf@ == old(self).buf@ && final(self).failed)
                })
            }),
    {
        if self.failed {
            return Err(DockerError::UnknownError);
        }
        match scan_frame(&self.buf) {
            Scan::Found(m, j) => {
                self.buf = tail_from(&self.buf, j);
                Ok(Some(m))
            },
            Scan::Needs => Ok(None),
            Scan::Bad => {
                self.failed = true;
                Err(DockerError::UnknownError)
            },
        }
    }

    /// Reports whether the stream may end here: an end of input is clean
    /// only with an empty buffer, anything buffered mid-frame is an error.
    pub fn finish(&self) -> (r: Result<(), DockerError>)
        ensures
            r is Ok <==> (!self.failed && self.buf@.len() == 0),
    {
        if self.failed || self.buf.len() > 0 {
            Err(DockerError::UnknownError)
        } else {
            Ok(())
        }
    }
}

/// The four length bytes of a frame header for a payload of `n` bytes.
pub open spec fn len_be32(n: int) -> Seq<u8> {
    seq![
        (n / 0x100_0000 % 256) as u8,
        (n / 0x1_0000 % 256) as u8,
        (n / 0x100 % 256) as u8,
        (n % 256) as u8,
    ]
}

/// The engine's encoding of one frame.
pub open spec fn encode_frame(t: u8, p: Seq<u8>) -> Seq<u8> {
    seq![t, 0u8, 0u8, 0u8] + len_be32(p.len() as int) + p
}

/// The engine's encoding of a whole sequence of frames.
pub open spec fn encode_frames(pairs: Seq<(u8, Seq<u8>)>) -> Seq<u8>
    decreases pairs.len(),
{
    if pairs.len() == 0 {
        Seq::empty()
    } else {
        encode_frame(pairs[0].0, pairs[0].1) + encode_frames(pairs.drop_first())
    }
}

/// Tags are known and payload lengths fit the 32-bit length field.
pub open spec fn valid_pairs(pairs: Seq<(u8, Seq<u8>)>) -> bool {
    forall|k: int|
        0 <= k < pairs.len() ==> (#[trigger] pairs[k]).0 <= 2 && pairs[k].1.len() < 0x1_0000_0000
}

/// Builds the engine's encoding of one frame, for exercising the decoder.
pub fn encode_frame_bytes(t: u8, payload: &Vec<u8>) -> (r: Vec<u8>)
    requires
        t <= 2,
        payload@.len() < 0x1_0000_0000,
    ensures
        r@ == encode_frame(t, payload@),
{
    let n = payload.len();
    let mut out: Vec<u8> = Vec::new();
    out.push(t);
    out.push(0);
    out.push(0);
    out.push(0);
    out.push(((n / 0x100_0000) % 256) as u8);
    out.push(((n / 0x1_0000) % 256) as u8);
    out.push(((n / 0x100) % 256) as u8);
    out.push((n % 256) as u8);
    append_bytes(&mut out, payload.as_slice());
    assert(out@ =~= encode_frame(t, payload@));
    out
}

/// Reading the length field back gives the payload length.
proof fn lemma_len_be32(n: int)
    requires
        0 <= n < 0x1_0000_0000,
    ensures
        len_be32(n)[0] * 0x100_0000 + len_be32(n)[1] * 0x1_0000 + len_be32(n)[2] * 0x100
            + len_be32(n)[3] == n,
{
    assert((n / 0x100_0000 % 256) * 0x100_0000 + (n / 0x1_0000 % 256) * 0x1_0000 + (n / 0x100
        % 256) * 0x100 + (n % 256) == n) by (nonlinear_arith)
        requires
            0 <= n < 0x1_0000_0000,
    ;
}

/// Draining the encoding of `pairs` yields exactly `pairs`, consuming all
/// of it cleanly.
pub proof fn lemma_frames_drain(pairs: Seq<(u8, Seq<u8>)>)
    requires
        valid_pairs(pairs),
    ensures
        drain(frame_parser(), encode_frames(pairs), 0) == (DrainOut::<(u8, Seq<u8>)> {
            events: pairs,
            end: encode_frames(pairs).len() as int,
            failed: false,
        }),
    decreases pairs.len(),
{
    lemma_frame_parser_good();
    let p = frame_parser();
    let s = encode_frames(pairs);
    if pairs.len() == 0 {
        assert(drain(p, s, 0).events =~= pairs);
    } else {
        let t0 = pairs[0].0;
        let p0 = pairs[0].1;
        let n0 = p0.len() as int;
        let e0 = encode_frame(t0, p0);
        let rest = encode_frames(pairs.drop_first());
        assert(s == e0 + rest);
        assert(e0.len() == 8 + n0);
        assert(s.len() == 8 + n0 + rest.len());
        // the header decodes back to the tag and the payload length
        assert(s[0] == t0 && s[4] == len_be32(n0)[0] && s[5] == len_be32(n0)[1] && s[6] == len_be32(
            n0,
        )[2] && s[7] == len_be32(n0)[3]);
        lemma_len_be32(n0);
        assert(be32_at(s, 4) == n0);
        assert(s.subrange(8, 8 + n0) =~= p0);
        assert(p(s, 0) == Parsed::<(u8, Seq<u8>)>::Found((t0, p0), 8 + n0));
        lemma_frames_drain(pairs.drop_first());
        lemma_drain_shift(p, e0, rest, 0);
        assert(e0 + rest =~= s);
        assert(drain(p, s, 8 + n0) == (DrainOut::<(u8, Seq<u8>)> {
            events: pairs.drop_first(),
            end: s.len() as int,
            failed: false,
        }));
        assert(drain(p, s, 0).events =~= pairs);
    }
}

/// Log-framing round-trip: encode any sequence of tagged payloads, cut the
/// bytes into chunks however you like, and the decoder gives back exactly
/// the original sequence, with nothing left over and no error.
pub proof fn lemma_log_round_trip(pairs: Seq<(u8, Seq<u8>)>, chunks: Seq<Seq<u8>>)
    requires
        valid_pairs(pairs),
        chunks.flatten() == encode_frames(pairs),
    ensures
        ({
            let fin = run_from(frame_parser(), start_state(), chunks);
            fin.emitted == pairs && fin.buf == Seq::<u8>::empty() && !fin.failed
        }),
{
    lemma_frame_parser_good();
    let p = frame_parser();
    let st = start_state::<(u8, Seq<u8>)>();
    assert(quiescent(p, st));
    lemma_run_from(p, st, chunks);
    let flat = st.buf + chunks.flatten();
    assert(flat =~= encode_frames(pairs));
    lemma_frames_drain(pairs);
    let r = drain(p, flat, 0);
    let fin = run_from(p, st, chunks);
    assert(fin.emitted =~= pairs);
    assert(fin.buf =~= Seq::<u8>::empty());
}

} // verus!
