//! The frame layer: one frame is a length-prefixed packet, its payload a
//! packet id followed by the packet body.  When compression is armed the
//! length prefix is followed by the uncompressed payload size (zero marks a
//! payload sent in the clear) and, for sizes at or above the configured
//! threshold, the payload travels as one zlib stream.

use vstd::prelude::*;
use vstd::slice::slice_subrange;
use crate::varint::{
    VarIntParse, lemma_u32_lt_pow128_5, lemma_varint_bytes_len, lemma_varint_parse_at_stable,
    lemma_varint_round_trip, parse_varint, spec_varint_parse, varint_bytes,
};
use crate::wire::{read_varint, spec_read_varint, write_bytes, write_varint};

verus! {

/// Largest wire length accepted for one frame.
pub const MAX_FRAME_LEN: usize = 0x20_0000;

/// Largest packet body the encoder accepts; leaves room inside
/// `MAX_FRAME_LEN` for the id and the length fields.
pub const MAX_BODY_LEN: usize = 0x1f_0000;

/// One decoded frame: a packet id and the body bytes that follow it.
pub struct Frame {
    /// The packet id as its unsigned wire value.
    pub id: u32,
    /// The packet body.
    pub body: Vec<u8>,
}

/// What the complete zlib stream at the front of `data` holds: its
/// uncompressed contents, or nothing if `data` does not begin with such a
/// stream.  A stream delimits itself, so this is a function of the bytes
/// alone; bytes after the stream do not matter, and the decoder below
/// ignores them just as the spec does.
pub uninterp spec fn zlib_decompress(data: Seq<u8>) -> Option<Seq<u8>>;

/// Relies on flate2's `ZlibEncoder`: its output is one complete zlib stream
/// that decodes back to the input.
#[verifier::external_body]
fn zlib_compress(data: &[u8]) -> (r: Vec<u8>)
    ensures
        zlib_decompress(r@) == Some(data@),
{
    let mut e = flate2::write::ZlibEncoder::new(Vec::new(), flate2::Compression::new(4));
    std::io::Write::write_all(&mut e, data).unwrap();
    e.finish().unwrap()
}

/// Relies on flate2's `ZlibDecoder`: reading the zlib stream at the front
/// of the input yields its unique uncompressed contents, and fails on
/// malformed input.  The caller supplies the exact size it expects;
/// anything else is rejected.
#[verifier::external_body]
fn zlib_decompress_exact(data: &[u8], expected: usize) -> (r: Option<Vec<u8>>)
    ensures
        match zlib_decompress(data@) {
            Some(p) => if p.len() == expected as nat {
                r matches Some(v) && v@ == p
            } else {
                r is None
            },
            None => r is None,
        },
{
    let mut d = flate2::read::ZlibDecoder::new(data);
    let mut out = Vec::new();
    let cap = expected as u64 + 1;
    match std::io::Read::read_to_end(&mut std::io::Read::take(d, cap), &mut out) {
        Ok(_) => {},
        Err(_) => {
            return None;
        },
    }
    if out.len() == expected {
        Some(out)
    } else {
        None
    }
}

/// The payload of a frame: the packet id, then the body running to the end.
pub open spec fn spec_payload_parse(p: Seq<u8>) -> Option<(u32, Seq<u8>)> {
    match spec_read_varint(p, 0) {
        Some((id, q)) => Some((id, p.subrange(q, p.len() as int))),
        None => None,
    }
}

/// The payload bytes of a frame with id `id` and body `body`.
pub open spec fn payload_bytes(id: u32, body: Seq<u8>) -> Seq<u8> {
    varint_bytes(id as nat) + body
}

/// Outcome of carving one frame off the front of a buffer.
pub enum FrameParse {
    /// The id, the body, and the number of buffer bytes the frame spans.
    Done { id: u32, body: Seq<u8>, end: int },
    /// The buffer does not yet hold a whole frame.
    More,
    /// The buffer cannot begin with any valid frame.
    Bad,
}

/// Carving one frame off the front of `s`; `comp` says whether the
/// compression format is armed.
pub open spec fn spec_frame_parse(s: Seq<u8>, comp: bool) -> FrameParse {
    match spec_varint_parse(s, 0) {
        VarIntParse::More => FrameParse::More,
        VarIntParse::Bad => FrameParse::Bad,
        VarIntParse::Done(len, p) => {
            if len > MAX_FRAME_LEN {
                FrameParse::Bad
            } else if s.len() < p + len {
                FrameParse::More
            } else {
                let inner = s.subrange(p as int, p + len);
                let end = p + len;
                if !comp {
                    match spec_payload_parse(inner) {
                        Some((id, body)) => FrameParse::Done { id, body, end },
                        None => FrameParse::Bad,
                    }
                } else {
                    match spec_read_varint(inner, 0) {
                        None => FrameParse::Bad,
                        Some((data_len, q)) => {
                            if data_len == 0 {
                                match spec_payload_parse(
                                    inner.subrange(q, inner.len() as int),
                                ) {
                                    Some((id, body)) => FrameParse::Done { id, body, end },
                                    None => FrameParse::Bad,
                                }
                            } else if data_len > MAX_FRAME_LEN {
                                FrameParse::Bad
                            } else {
                                match zlib_decompress(inner.subrange(q, inner.len() as int)) {
                                    Some(payload) => if payload.len() == data_len {
                                        match spec_payload_parse(payload) {
                                            Some((id, body)) => FrameParse::Done {
                                                id,
                                                body,
                                                end,
                                            },
                                            None => FrameParse::Bad,
                                        }
                                    } else {
                                        FrameParse::Bad
                                    },
                                    None => FrameParse::Bad,
                                }
                            }
                        },
                    }
                }
            }
        },
    }
}

/// Carve one frame off the front of `buf`.
pub fn try_parse_frame(buf: &[u8], comp: bool) -> (r: Option<Result<(Frame, usize), ()>>)
    ensures
        match spec_frame_parse(buf@, comp) {
            FrameParse::Done { id, body, end } => r matches Some(Ok((f, e))) && f.id == id
                && f.body@ == body && e == end,
            FrameParse::More => r is None,
            FrameParse::Bad => r == Some(Err::<(Frame, usize), ()>(())),
        },
{
    let blen = buf.len();
    proof {
        crate::wire::lemma_read_varint_bounds(buf@, 0);
    }
    match parse_varint(buf, 0) {
        VarIntParse::More => None,
        VarIntParse::Bad => Some(Err(())),
        VarIntParse::Done(len, p) => {
            if len > MAX_FRAME_LEN as u32 {
                Some(Err(()))
            } else if blen - p < len as usize {
                None
            } else {
                let end: usize = p + len as usize;
                let inner = slice_subrange(buf, p, end);
                if !comp {
                    match parse_payload(inner) {
                        Some(f) => Some(Ok((f, end))),
                        None => Some(Err(())),
                    }
                } else {
                    let ilen = inner.len();
                    proof {
                        crate::wire::lemma_read_varint_bounds(inner@, 0);
                    }
                    match read_varint(inner, 0) {
                        None => Some(Err(())),
                        Some((data_len, q)) => {
                            let rest = slice_subrange(inner, q, inner.len());
                            if data_len == 0 {
                                match parse_payload(rest) {
                                    Some(f) => Some(Ok((f, end))),
                                    None => Some(Err(())),
                                }
                            } else if data_len > MAX_FRAME_LEN as u32 {
                                Some(Err(()))
                            } else {
                                match zlib_decompress_exact(rest, data_len as usize) {
                                    Some(payload) => match parse_payload(
                                        payload.as_slice(),
                                    ) {
                                        Some(f) => Some(Ok((f, end))),
                                        None => Some(Err(())),
                                    },
                                    None => Some(Err(())),
                                }
                            }
                        },
                    }
                }
            }
        },
    }
}

/// Split a complete payload into packet id and body.
fn parse_payload(p: &[u8]) -> (r: Option<Frame>)
    ensures
        match spec_payload_parse(p@) {
            Some((id, body)) => r matches Some(f) && f.id == id && f.body@ == body,
            None => r is None,
        },
{
    let plen = p.len();
    proof {
        crate::wire::lemma_read_varint_bounds(p@, 0);
    }
    match read_varint(p, 0) {
        Some((id, q)) => {
            let body_slice = slice_subrange(p, q, p.len());
            let mut body: Vec<u8> = Vec::new();
            write_bytes(body_slice, &mut body);
            assert(body@ =~= p@.subrange(q as int, p@.len() as int));
            Some(Frame { id, body })
        },
        None => None,
    }
}


/// Build the payload for a frame: the id, then the body.
fn build_payload(id: u32, body: &[u8]) -> (r: Vec<u8>)
    ensures
        r@ == payload_bytes(id, body@),
{
    let mut r: Vec<u8> = Vec::new();
    write_varint(id, &mut r);
    write_bytes(body, &mut r);
    assert(r@ =~= payload_bytes(id, body@));
    r
}

/// Wrap `inner` in a length prefix.
fn finish_frame(inner: Vec<u8>) -> (w: Vec<u8>)
    requires
        inner@.len() <= MAX_FRAME_LEN,
    ensures
        w@ == varint_bytes(inner@.len()) + inner@,
{
    let mut w: Vec<u8> = Vec::new();
    write_varint(inner.len() as u32, &mut w);
    write_bytes(inner.as_slice(), &mut w);
    assert(w@ =~= varint_bytes(inner@.len()) + inner@);
    w
}

/// Parsing a frame whose length prefix and contents are in place yields the
/// frame; shared tail of the encoder proofs.
proof fn lemma_finished_frame_parses(w: Seq<u8>, inner: Seq<u8>)
    requires
        inner.len() <= MAX_FRAME_LEN,
        w == varint_bytes(inner.len()) + inner,
    ensures
        spec_varint_parse(w, 0) == VarIntParse::Done(
            inner.len() as u32,
            varint_bytes(inner.len()).len() as usize,
        ),
        w.len() <= usize::MAX,
        w.subrange(varint_bytes(inner.len()).len() as int, w.len() as int) == inner,
{
    let vb = varint_bytes(inner.len());
    lemma_varint_bytes_len(inner.len());
    crate::varint::lemma_pow128_values();
    assert(w.subrange(0, vb.len() as int) =~= vb);
    lemma_varint_round_trip(w, 0, inner.len() as u32);
    assert(w.subrange(vb.len() as int, w.len() as int) =~= inner);
}

/// Parsing the payload built for `id` and `body` yields them back.
proof fn lemma_payload_parses(p: Seq<u8>, id: u32, body: Seq<u8>)
    requires
        p == payload_bytes(id, body),
        p.len() <= usize::MAX,
    ensures
        spec_payload_parse(p) == Some((id, body)),
{
    let vb = varint_bytes(id as nat);
    assert(p.subrange(0, vb.len() as int) =~= vb);
    crate::wire::lemma_varint_field_round_trip(p, 0, id);
    assert(p.subrange(vb.len() as int, p.len() as int) =~= body);
}

/// The wire bytes of a frame sent without compression armed: a length
/// prefix, then the payload in the clear.
pub open spec fn plain_frame(id: u32, body: Seq<u8>) -> Seq<u8> {
    let payload = payload_bytes(id, body);
    varint_bytes(payload.len()) + payload
}

/// The wire bytes of a frame sent with compression armed but its payload
/// below the threshold: a zero size marker, then the payload in the clear.
pub open spec fn plain_marked_frame(id: u32, body: Seq<u8>) -> Seq<u8> {
    let payload = payload_bytes(id, body);
    varint_bytes((payload.len() + 1) as nat) + seq![0u8] + payload
}

/// Whether `w` is exactly one frame in the compressed shape for this id
/// and body: a length prefix covering the rest, a size field naming the
/// payload's uncompressed length, and a zlib stream that decompresses back
/// to the payload.
pub open spec fn compressed_frame_shape(w: Seq<u8>, id: u32, body: Seq<u8>) -> bool {
    let payload = payload_bytes(id, body);
    match spec_varint_parse(w, 0) {
        VarIntParse::Done(len, p) => p + len == w.len() && {
            let inner = w.subrange(p as int, w.len() as int);
            match spec_read_varint(inner, 0) {
                Some((dl, k)) => dl == payload.len() && zlib_decompress(
                    inner.subrange(k, inner.len() as int),
                ) == Some(payload),
                None => false,
            }
        },
        _ => false,
    }
}

/// Encode one frame.  The result always parses back to the same id and
/// body, under the same compression setting, consuming the whole encoding,
/// and its shape follows the armed threshold: without compression the
/// payload travels in the clear; below the threshold it travels zero-marked;
/// at or above it travels as a zlib stream.  The zero-marked escape in the
/// last case covers only a payload whose compressed stream would overflow
/// the frame cap, which the compressor's contract cannot exclude.
pub fn encode_frame(id: u32, body: &[u8], threshold: Option<u32>) -> (w: Vec<u8>)
    requires
        body@.len() <= MAX_BODY_LEN,
    ensures
        spec_frame_parse(w@, threshold is Some) matches FrameParse::Done {
            id: pid,
            body: pbody,
            end,
        } && pid == id && pbody == body@ && end == w@.len(),
        threshold is None ==> w@ == plain_frame(id, body@),
        threshold matches Some(t) ==> (if payload_bytes(id, body@).len() < t {
            w@ == plain_marked_frame(id, body@)
        } else {
            compressed_frame_shape(w@, id, body@) || w@ == plain_marked_frame(id, body@)
        }),
{
    let payload = build_payload(id, body);
    proof {
        lemma_varint_bytes_len(id as nat);
        lemma_u32_lt_pow128_5(id);
    }
    match threshold {
        None => {
            let w = finish_frame(payload);
            proof {
                lemma_finished_frame_parses(w@, payload_bytes(id, body@));
                lemma_payload_parses(payload_bytes(id, body@), id, body@);
                assert(w@ =~= plain_frame(id, body@));
            }
            w
        },
        Some(t) => {
            if payload.len() >= t as usize {
                let compressed = zlib_compress(payload.as_slice());
                let data_len = payload.len();
                let mut inner: Vec<u8> = Vec::new();
                write_varint(data_len as u32, &mut inner);
                write_bytes(compressed.as_slice(), &mut inner);
                if inner.len() <= MAX_FRAME_LEN {
                    let w = finish_frame(inner);
                    proof {
                        let ispec = varint_bytes(data_len as nat) + compressed@;
                        assert(inner@ == ispec);
                        lemma_finished_frame_parses(w@, inner@);
                        assert(inner@.subrange(0, varint_bytes(data_len as nat).len() as int)
                            =~= varint_bytes(data_len as nat));
                        crate::wire::lemma_varint_field_round_trip(inner@, 0, data_len as u32);
                        assert(inner@.subrange(
                            varint_bytes(data_len as nat).len() as int,
                            inner@.len() as int,
                        ) =~= compressed@);
                        lemma_payload_parses(payload_bytes(id, body@), id, body@);
                        assert(compressed_frame_shape(w@, id, body@));
                    }
                    w
                } else {
                    encode_frame_plain_marked(id, body)
                }
            } else {
                encode_frame_plain_marked(id, body)
            }
        },
    }
}

/// Encode a frame in the compressed format but with the payload in the
/// clear, marked by a zero size field.
fn encode_frame_plain_marked(id: u32, body: &[u8]) -> (w: Vec<u8>)
    requires
        body@.len() <= MAX_BODY_LEN,
    ensures
        spec_frame_parse(w@, true) matches FrameParse::Done { id: pid, body: pbody, end }
            && pid == id && pbody == body@ && end == w@.len(),
        w@ == plain_marked_frame(id, body@),
{
    let payload = build_payload(id, body);
    proof {
        lemma_varint_bytes_len(id as nat);
        lemma_u32_lt_pow128_5(id);
    }
    let mut inner: Vec<u8> = Vec::new();
    write_varint(0, &mut inner);
    write_bytes(payload.as_slice(), &mut inner);
    let w = finish_frame(inner);
    proof {
        let ispec = varint_bytes(0) + payload_bytes(id, body@);
        assert(inner@ == ispec);
        lemma_finished_frame_parses(w@, inner@);
        assert(inner@.subrange(0, 1) =~= varint_bytes(0));
        crate::wire::lemma_varint_field_round_trip(inner@, 0, 0);
        assert(inner@.subrange(1, inner@.len() as int) =~= payload_bytes(id, body@));
        lemma_payload_parses(payload_bytes(id, body@), id, body@);
        assert(w@ =~= plain_marked_frame(id, body@));
    }
    w
}

/// Bytes that arrive after a complete frame do not change how it parses:
/// only a buffer still waiting for more data is sensitive to its tail.
pub proof fn lemma_frame_parse_prefix(s: Seq<u8>, t: Seq<u8>, comp: bool)
    requires
        s.len() <= t.len() <= usize::MAX,
        t.subrange(0, s.len() as int) == s,
        !(spec_frame_parse(s, comp) is More),
    ensures
        spec_frame_parse(t, comp) == spec_frame_parse(s, comp),
{
    lemma_varint_parse_at_stable(s, t, 0, 0, 0);
    crate::varint::lemma_varint_parse_at_bounds(s, 0, 0, 0);
    match spec_varint_parse(s, 0) {
        VarIntParse::More => {},
        VarIntParse::Bad => {},
        VarIntParse::Done(len, p) => {
            if len <= MAX_FRAME_LEN && s.len() >= p + len {
                assert(t.subrange(p as int, p + len) =~= s.subrange(p as int, p + len)) by {
                    assert forall|k: int| 0 <= k < len implies #[trigger] (t[p + k]) == s[p
                        + k] by {
                        assert(t.subrange(0, s.len() as int)[p + k] == s[p + k]);
                    }
                }
            }
        },
    }
}


/// A frame is carved only when every one of its bytes has arrived: each
/// proper prefix of a minimal complete frame still asks for more data, so
/// it does not matter how the bytes were split across reads.
pub proof fn lemma_frame_needs_all_bytes(w: Seq<u8>, k: int, comp: bool)
    requires
        w.len() <= usize::MAX,
        spec_frame_parse(w, comp) matches FrameParse::Done { end, .. } && end == w.len(),
        0 <= k < w.len(),
    ensures
        spec_frame_parse(w.take(k), comp) is More,
{
    let s = w.take(k);
    if !(spec_varint_parse(s, 0) is More) {
        lemma_varint_parse_at_stable(s, w, 0, 0, 0);
        crate::varint::lemma_varint_parse_at_bounds(s, 0, 0, 0);
    }
}


/// A carved frame spans at least its length prefix: one byte or more.
pub proof fn lemma_frame_done_bounds(s: Seq<u8>, comp: bool)
    requires
        s.len() <= usize::MAX,
    ensures
        spec_frame_parse(s, comp) matches FrameParse::Done { end, .. } ==> 1 <= end <= s.len(),
{
    crate::varint::lemma_varint_parse_at_bounds(s, 0, 0, 0);
}

} // verus!



