use vstd::prelude::*;

use crate::error::KvError;
use flate2::read::GzDecoder;
use flate2::write::GzEncoder;
use flate2::Compression;
use std::io::{Read, Write};

verus! {

/// Bytes of the length header in front of every frame.
pub const LEN_LEN: usize = 4;

/// Payloads of this size or more cannot be framed: the header keeps 31 bits
/// for the length.
pub const MAX_FRAME: usize = 2 * 1024 * 1024 * 1024;

/// Payloads longer than this are compressed.
pub const COMPRESSION_LIMIT: usize = 1436;

/// The header bit that marks a compressed payload.
pub const COMPRESSION_BIT: u32 = 0x8000_0000;

/// The header bits that hold the payload length.
pub const LENGTH_MASK: u32 = 0x7fff_ffff;

/// The gzip stream, at the default level, of `b`.
pub uninterp spec fn gzip_of(b: Seq<u8>) -> Seq<u8>;

/// Relies on flate2's `GzEncoder` at `Compression::default()`, writing into a
/// `Vec`: its header carries no time stamp and a fixed OS byte, so the stream
/// depends on the input bytes alone.
/// Writing into a `Vec` cannot fail, and the encoder passes on only the
/// errors of the writer it wraps.
#[verifier::external_body]
fn gzip(b: &[u8]) -> (r: Vec<u8>)
    ensures
        r@ == gzip_of(b@),
{
    let mut encoder = GzEncoder::new(Vec::new(), Compression::default());
    match encoder.write_all(b) {
        Ok(()) => encoder.finish().unwrap_or_default(),
        Err(_) => Vec::new(),
    }
}

/// What decompressing the gzip stream `c` yields: the bytes it holds, or
/// nothing where `c` is not a well-formed stream.
pub uninterp spec fn gunzip_of(c: Seq<u8>) -> Option<Seq<u8>>;

/// Relies on flate2's `GzDecoder` and `Read::read_to_end`: gzip is lossless,
/// so a stream that `GzEncoder` made of `x` decodes to `x`.
#[verifier::external_body]
fn gunzip(c: &[u8]) -> (r: Option<Vec<u8>>)
    ensures
        r matches Some(d) ==> gunzip_of(c@) == Some(d@),
        r is None ==> gunzip_of(c@) is None,
        r is None ==> forall|x: Seq<u8>| #[trigger] gzip_of(x) != c@,
        r matches Some(d) ==> forall|x: Seq<u8>| #[trigger] gzip_of(x) == c@ ==> d@ == x,
{
    let mut decoder = GzDecoder::new(c);
    let mut out = Vec::new();
    decoder.read_to_end(&mut out).ok()?;
    Some(out)
}

/// The four big-endian bytes of `n`.
pub open spec fn be_bytes(n: u32) -> Seq<u8> {
    seq![(n >> 24u32) as u8, (n >> 16u32) as u8, (n >> 8u32) as u8, n as u8]
}

/// The number that four big-endian bytes spell.
pub open spec fn be_value(b0: u8, b1: u8, b2: u8, b3: u8) -> u32 {
    ((b0 as u32) << 24u32) | ((b1 as u32) << 16u32) | ((b2 as u32) << 8u32) | (b3 as u32)
}

/// The header of a frame: the payload length in the low 31 bits, and the
/// compression flag in the top bit.
pub open spec fn header_of(compressed: bool, len: nat) -> u32 {
    if compressed {
        (len as u32) | COMPRESSION_BIT
    } else {
        len as u32
    }
}

/// A frame: its header, then its payload.
pub open spec fn frame_of(compressed: bool, body: Seq<u8>) -> Seq<u8> {
    be_bytes(header_of(compressed, body.len())) + body
}

/// The header that the first four bytes of `f` spell.
pub open spec fn frame_header(f: Seq<u8>) -> u32 {
    be_value(f[0], f[1], f[2], f[3])
}

/// The payload length that a frame declares.
pub open spec fn frame_len(f: Seq<u8>) -> nat {
    (frame_header(f) & LENGTH_MASK) as nat
}

/// Whether a frame declares its payload compressed.
pub open spec fn frame_compressed(f: Seq<u8>) -> bool {
    frame_header(f) & COMPRESSION_BIT == COMPRESSION_BIT
}

/// Whether `f` holds a whole header and the whole payload it declares.
pub open spec fn frame_complete(f: Seq<u8>) -> bool {
    f.len() >= LEN_LEN && LEN_LEN + frame_len(f) <= f.len()
}

/// The payload bytes of a complete frame.
pub open spec fn frame_body(f: Seq<u8>) -> Seq<u8> {
    f.subrange(LEN_LEN as int, LEN_LEN + frame_len(f))
}

/// The frame that encoding `p` yields: raw up to the compression limit, and
/// the gzip stream of `p` above it.
pub open spec fn encodes_to(p: Seq<u8>, f: Seq<u8>) -> bool {
    if p.len() <= COMPRESSION_LIMIT {
        f == frame_of(false, p)
    } else {
        p.len() < MAX_FRAME && gzip_of(p).len() < MAX_FRAME && f == frame_of(true, gzip_of(p))
    }
}

/// `f` is a complete frame whose payload is `p`, raw or compressed as its
/// header says.
pub open spec fn decodes_to(f: Seq<u8>, p: Seq<u8>) -> bool {
    &&& frame_complete(f)
    &&& if frame_compressed(f) {
        frame_body(f) == gzip_of(p)
    } else {
        frame_body(f) == p
    }
}

/// Splits a header into the payload length and the compression flag.
pub fn decode_header(header: usize) -> (r: (usize, bool))
    ensures
        r.1 == ((header / (COMPRESSION_BIT as usize)) % 2 == 1),
        r.0 == if r.1 {
            header - COMPRESSION_BIT as int
        } else {
            header as int
        },
{
    let compressed = (header / (COMPRESSION_BIT as usize)) % 2 == 1;
    let len = if compressed {
        header - COMPRESSION_BIT as usize
    } else {
        header
    };
    (len, compressed)
}

proof fn lemma_be_round_trip(n: u32)
    ensures
        be_value(be_bytes(n)[0], be_bytes(n)[1], be_bytes(n)[2], be_bytes(n)[3]) == n,
{
    let b0 = (n >> 24u32) as u8;
    let b1 = (n >> 16u32) as u8;
    let b2 = (n >> 8u32) as u8;
    let b3 = n as u8;
    assert(((b0 as u32) << 24u32) | ((b1 as u32) << 16u32) | ((b2 as u32) << 8u32) | (b3 as u32)
        == n) by (bit_vector)
        requires
            b0 == (n >> 24u32) as u8,
            b1 == (n >> 16u32) as u8,
            b2 == (n >> 8u32) as u8,
            b3 == n as u8,
    ;
}

proof fn lemma_header_parts(compressed: bool, len: u32)
    requires
        len < 0x8000_0000u32,
    ensures
        header_of(compressed, len as nat) & LENGTH_MASK == len,
        (header_of(compressed, len as nat) & COMPRESSION_BIT == COMPRESSION_BIT) == compressed,
{
    if compressed {
        assert((len | 0x8000_0000u32) & 0x7fff_ffffu32 == len) by (bit_vector)
            requires
                len < 0x8000_0000u32,
        ;
        assert((len | 0x8000_0000u32) & 0x8000_0000u32 == 0x8000_0000u32) by (bit_vector);
    } else {
        assert(len & 0x7fff_ffffu32 == len) by (bit_vector)
            requires
                len < 0x8000_0000u32,
        ;
        assert(len & 0x8000_0000u32 != 0x8000_0000u32) by (bit_vector)
            requires
                len < 0x8000_0000u32,
        ;
    }
}

/// A frame reads back as the payload it was made of.
pub proof fn lemma_frame_of_decodes(compressed: bool, body: Seq<u8>)
    requires
        body.len() < MAX_FRAME,
    ensures
        frame_complete(frame_of(compressed, body)),
        frame_compressed(frame_of(compressed, body)) == compressed,
        frame_len(frame_of(compressed, body)) == body.len(),
        frame_body(frame_of(compressed, body)) == body,
{
    let f = frame_of(compressed, body);
    let h = header_of(compressed, body.len());
    lemma_be_round_trip(h);
    assert(frame_header(f) == h);
    lemma_header_parts(compressed, body.len() as u32);
    assert(frame_body(f) =~= body);
}

/// Round trip: a frame that encoding made of `p` decodes to `p`, whether it
/// was compressed or not.
pub proof fn lemma_round_trip(p: Seq<u8>, f: Seq<u8>)
    requires
        encodes_to(p, f),
    ensures
        decodes_to(f, p),
{
    if p.len() <= COMPRESSION_LIMIT {
        lemma_frame_of_decodes(false, p);
    } else {
        lemma_frame_of_decodes(true, gzip_of(p));
    }
}

/// Compression toggling: a frame is flagged compressed exactly when its
/// payload is longer than the compression limit.
pub proof fn lemma_compression_toggle(p: Seq<u8>, f: Seq<u8>)
    requires
        encodes_to(p, f),
    ensures
        frame_compressed(f) == (p.len() > COMPRESSION_LIMIT),
{
    if p.len() <= COMPRESSION_LIMIT {
        lemma_frame_of_decodes(false, p);
    } else {
        lemma_frame_of_decodes(true, gzip_of(p));
    }
}

/// Appends the header of a frame to `out`.
fn push_header(out: &mut Vec<u8>, header: u32)
    ensures
        final(out)@ == old(out)@ + be_bytes(header),
{
    out.push((header >> 24u32) as u8);
    out.push((header >> 16u32) as u8);
    out.push((header >> 8u32) as u8);
    out.push(header as u8);
    assert(final(out)@ =~= old(out)@ + be_bytes(header));
}

/// Appends `src[from..to]` to `out`.
fn push_range(out: &mut Vec<u8>, src: &[u8], from: usize, to: usize)
    requires
        from <= to <= src@.len(),
    ensures
        final(out)@ == old(out)@ + src@.subrange(from as int, to as int),
{
    let ghost start = out@;
    let mut i: usize = from;
    while i < to
        invariant
            from <= i <= to <= src@.len(),
            out@ == start + src@.subrange(from as int, i as int),
        decreases to - i,
    {
        out.push(src[i]);
        i = i + 1;
        assert(out@ =~= start + src@.subrange(from as int, i as int));
    }
}

/// A frame of `body` with the given header.
fn make_frame(compressed: bool, body: &[u8]) -> (r: Vec<u8>)
    requires
        body@.len() < MAX_FRAME,
    ensures
        r@ == frame_of(compressed, body@),
{
    let len = body.len() as u32;
    let header = if compressed {
        len | COMPRESSION_BIT
    } else {
        len
    };
    let mut out: Vec<u8> = Vec::new();
    push_header(&mut out, header);
    push_range(&mut out, body, 0, body.len());
    assert(body@.subrange(0, body@.len() as int) =~= body@);
    out
}

/// The bytes that follow the first frame of a complete buffer.
pub open spec fn frame_rest(f: Seq<u8>) -> Seq<u8> {
    f.subrange(LEN_LEN + frame_len(f), f.len() as int)
}

/// Encodes a serialized message into a frame. Payloads over the compression
/// limit are gzip-compressed and flagged in the header; a payload, or a
/// compressed payload, of `MAX_FRAME` bytes or more is refused.
pub fn encode_frame(payload: &[u8]) -> (r: Result<Vec<u8>, KvError>)
    ensures
        r matches Ok(f) ==> encodes_to(payload@, f@),
        payload@.len() <= COMPRESSION_LIMIT ==> (r matches Ok(f) && f@ == frame_of(
            false,
            payload@,
        )),
        COMPRESSION_LIMIT < payload@.len() < MAX_FRAME && gzip_of(payload@).len() < MAX_FRAME ==> (
        r matches Ok(f) && f@ == frame_of(true, gzip_of(payload@))),
        payload@.len() >= MAX_FRAME ==> r matches Err(KvError::FrameError),
        COMPRESSION_LIMIT < payload@.len() && gzip_of(payload@).len() >= MAX_FRAME ==> r matches Err(
            KvError::FrameError,
        ),
{
    let size = payload.len();
    if size >= MAX_FRAME {
        return Err(KvError::FrameError);
    }
    if size > COMPRESSION_LIMIT {
        let compressed = gzip(payload);
        if compressed.len() >= MAX_FRAME {
            Err(KvError::FrameError)
        } else {
            Ok(make_frame(true, compressed.as_slice()))
        }
    } else {
        Ok(make_frame(false, payload))
    }
}

/// Takes the first frame off the front of `buf` and returns the serialized
/// message it carries, decompressed where the header says so. A buffer
/// shorter than the header, or than the payload the header declares, is an
/// I/O error; so is a compressed payload that does not decompress. On an
/// error the buffer is left as it was.
pub fn decode_frame(buf: &mut Vec<u8>) -> (r: Result<Vec<u8>, KvError>)
    ensures
        forall|p: Seq<u8>| #[trigger] decodes_to(old(buf)@, p) ==> (r matches Ok(q) && q@ == p),
        !frame_complete(old(buf)@) ==> r matches Err(KvError::IoError),
        frame_complete(old(buf)@) && !frame_compressed(old(buf)@) ==> (r matches Ok(q) && q@
            == frame_body(old(buf)@)),
        frame_complete(old(buf)@) && frame_compressed(old(buf)@) ==> match gunzip_of(
            frame_body(old(buf)@),
        ) {
            Some(d) => r matches Ok(q) && q@ == d,
            None => r matches Err(KvError::IoError),
        },
        r matches Err(e) ==> e is IoError && final(buf)@ == old(buf)@,
        r is Ok ==> final(buf)@ == frame_rest(old(buf)@),
{
    if buf.len() < LEN_LEN {
        return Err(KvError::IoError);
    }
    let header = ((buf[0] as u32) << 24u32) | ((buf[1] as u32) << 16u32) | ((buf[2] as u32)
        << 8u32) | (buf[3] as u32);
    assert(header == frame_header(buf@));
    let len = (header & LENGTH_MASK) as usize;
    let compressed = header & COMPRESSION_BIT == COMPRESSION_BIT;
    if len > buf.len() - LEN_LEN {
        return Err(KvError::IoError);
    }
    let mut body: Vec<u8> = Vec::new();
    push_range(&mut body, buf.as_slice(), LEN_LEN, LEN_LEN + len);
    assert(body@ =~= frame_body(buf@));
    let payload = if compressed {
        match gunzip(body.as_slice()) {
            Some(out) => out,
            None => {
                return Err(KvError::IoError);
            },
        }
    } else {
        body
    };
    let mut rest: Vec<u8> = Vec::new();
    push_range(&mut rest, buf.as_slice(), LEN_LEN + len, buf.len());
    assert(rest@ =~= frame_rest(buf@));
    *buf = rest;
    Ok(payload)
}

} // verus!
