//! The packet framer: owns a connection's frame buffers together with its
//! compression and encryption state.  Bytes that arrive from the socket are
//! fed in (and decrypted) on one side; complete frames are carved off as
//! they become available.  Frames to send are encoded (compressed at or
//! above the armed threshold, encrypted once a key is armed) into a pending
//! buffer that the socket writer drains.

use vstd::prelude::*;
use crate::cipher::{RecvCipher, SendCipher, cfb8_decrypt};
use crate::frame::{
    Frame, FrameParse, MAX_BODY_LEN, compressed_frame_shape, encode_frame, payload_bytes,
    plain_frame, plain_marked_frame, spec_frame_parse,
};
use crate::wire::write_bytes;

verus! {

/// What asking for the next frame produced.
pub enum RecvStep {
    /// A complete frame was carved off the buffer.
    Frame(Frame),
    /// The buffer does not yet hold a whole frame.
    More,
    /// The buffered bytes cannot begin with a valid frame; the connection
    /// is beyond recovery.
    Bad,
}

/// One connection's framing state.  The ghost stream fields run from the
/// moment encryption was last armed (or from creation, if it never was).
pub struct Framer {
    in_buf: Vec<u8>,
    in_done: Ghost<Seq<u8>>,
    in_wire: Ghost<Seq<u8>>,
    recv_cipher: Option<RecvCipher>,
    send_cipher: Option<SendCipher>,
    out_buf: Vec<u8>,
    out_taken: Ghost<Seq<u8>>,
    out_plain: Ghost<Seq<u8>>,
    out_frames: Ghost<Seq<(u32, Seq<u8>)>>,
    threshold: Option<u32>,
}

impl Framer {
    /// Every wire byte fed into the receive side.
    pub closed spec fn recv_wire(&self) -> Seq<u8> {
        self.in_wire@
    }

    /// Decrypted bytes waiting to be carved into frames.
    pub closed spec fn recv_buffered(&self) -> Seq<u8> {
        self.in_buf@
    }

    /// Decrypted bytes already carved into frames.
    pub closed spec fn recv_consumed(&self) -> Seq<u8> {
        self.in_done@
    }

    /// The whole decrypted input stream.
    pub open spec fn recv_plain(&self) -> Seq<u8> {
        self.recv_consumed() + self.recv_buffered()
    }

    /// The key the receive side decrypts with, once armed.
    pub closed spec fn recv_key(&self) -> Option<Seq<u8>> {
        match self.recv_cipher {
            Some(c) => Some(c.key_spec()),
            None => None,
        }
    }

    /// Every frame byte handed to the send side, before encryption.
    pub closed spec fn send_plain(&self) -> Seq<u8> {
        self.out_plain@
    }

    /// Wire bytes waiting for the socket writer.
    pub closed spec fn send_pending(&self) -> Seq<u8> {
        self.out_buf@
    }

    /// Wire bytes already taken for sending.
    pub closed spec fn send_taken(&self) -> Seq<u8> {
        self.out_taken@
    }

    /// The whole produced wire stream.
    pub open spec fn send_wire(&self) -> Seq<u8> {
        self.send_taken() + self.send_pending()
    }

    /// The frames handed to the send side so far: id and body of each, in
    /// order.
    pub closed spec fn sent_frames(&self) -> Seq<(u32, Seq<u8>)> {
        self.out_frames@
    }

    /// The key the send side encrypts with, once armed.
    pub closed spec fn send_key(&self) -> Option<Seq<u8>> {
        match self.send_cipher {
            Some(c) => Some(c.key_spec()),
            None => None,
        }
    }

    /// The armed compression threshold, if any.
    pub closed spec fn threshold_spec(&self) -> Option<u32> {
        self.threshold
    }

    /// Whether the compressed frame format is armed.
    pub open spec fn comp(&self) -> bool {
        self.threshold_spec() is Some
    }

    /// The framer's invariant: each armed cipher has processed exactly this
    /// framer's streams, and without a cipher the wire and plain streams
    /// coincide.
    pub closed spec fn wf(&self) -> bool {
        &&& match self.recv_cipher {
            Some(c) => c.wf() && c.wire_stream() == self.in_wire@ && c.plain_stream()
                == self.in_done@ + self.in_buf@,
            None => self.in_wire@ == self.in_done@ + self.in_buf@,
        }
        &&& match self.send_cipher {
            Some(c) => c.wf() && c.plain_stream() == self.out_plain@ && c.wire_stream()
                == self.out_taken@ + self.out_buf@,
            None => self.out_taken@ + self.out_buf@ == self.out_plain@,
        }
    }

    /// Without a cipher the streams coincide; with one, a non-empty wire
    /// stream decrypts to the plain stream.
    pub proof fn lemma_transparency(&self)
        requires
            self.wf(),
        ensures
            self.recv_key() is None ==> self.recv_plain() == self.recv_wire(),
            self.recv_key() matches Some(k) ==> (if self.recv_wire().len() == 0 {
                self.recv_plain().len() == 0
            } else {
                self.recv_plain() == cfb8_decrypt(k, self.recv_wire())
            }),
            self.send_key() is None ==> self.send_plain() == self.send_wire(),
            self.send_key() matches Some(k) ==> (if self.send_wire().len() == 0 {
                self.send_plain().len() == 0
            } else {
                self.send_plain() == cfb8_decrypt(k, self.send_wire())
            }),
    {
    }

    /// A fresh framer: no compression, no encryption, empty streams.
    pub fn new() -> (r: Framer)
        ensures
            r.wf(),
            r.recv_wire() == Seq::<u8>::empty(),
            r.recv_buffered() == Seq::<u8>::empty(),
            r.recv_consumed() == Seq::<u8>::empty(),
            r.send_plain() == Seq::<u8>::empty(),
            r.send_pending() == Seq::<u8>::empty(),
            r.send_taken() == Seq::<u8>::empty(),
            r.sent_frames() == Seq::<(u32, Seq<u8>)>::empty(),
            r.recv_key() is None,
            r.send_key() is None,
            r.threshold_spec() is None,
    {
        Framer {
            in_buf: Vec::new(),
            in_done: Ghost(Seq::empty()),
            in_wire: Ghost(Seq::empty()),
            recv_cipher: None,
            send_cipher: None,
            out_buf: Vec::new(),
            out_taken: Ghost(Seq::empty()),
            out_plain: Ghost(Seq::empty()),
            out_frames: Ghost(Seq::empty()),
            threshold: None,
        }
    }

    /// Feed wire bytes read from the socket into the receive side.
    pub fn feed(&mut self, bytes: &[u8])
        requires
            old(self).wf(),
        ensures
            final(self).wf(),
            final(self).recv_wire() == old(self).recv_wire() + bytes@,
            final(self).recv_consumed() == old(self).recv_consumed(),
            final(self).recv_key() == old(self).recv_key(),
            final(self).recv_key() is None ==> final(self).recv_buffered() == old(
                self,
            ).recv_buffered() + bytes@,
            final(self).recv_buffered().len() == old(self).recv_buffered().len() + bytes@.len(),
            old(self).recv_buffered() == final(self).recv_buffered().take(
                old(self).recv_buffered().len() as int,
            ),
            final(self).send_plain() == old(self).send_plain(),
            final(self).send_pending() == old(self).send_pending(),
            final(self).send_taken() == old(self).send_taken(),
            final(self).send_key() == old(self).send_key(),
            final(self).sent_frames() == old(self).sent_frames(),
            final(self).threshold_spec() == old(self).threshold_spec(),
    {
        let ghost prev = self.in_buf@;
        match &mut self.recv_cipher {
            None => {
                write_bytes(bytes, &mut self.in_buf);
            },
            Some(c) => {
                let p = c.decrypt_buf(bytes);
                write_bytes(p.as_slice(), &mut self.in_buf);
            },
        }
        self.in_wire = Ghost(self.in_wire@ + bytes@);
        proof {
            assert(prev =~= self.in_buf@.take(prev.len() as int));
            assert(self.recv_cipher matches Some(c) ==> c.plain_stream() =~= self.in_done@
                + self.in_buf@);
            assert(self.recv_cipher is None ==> self.in_wire@ =~= self.in_done@ + self.in_buf@);
        }
    }

    /// How many decrypted bytes wait to be carved into frames.
    pub fn buffered_len(&self) -> (r: usize)
        ensures
            r == self.recv_buffered().len(),
    {
        self.in_buf.len()
    }

    /// The first buffered byte, if any: what the legacy probe looks at.
    pub fn peek_first(&self) -> (r: Option<u8>)
        ensures
            self.recv_buffered().len() == 0 ==> r is None,
            self.recv_buffered().len() > 0 ==> r == Some(self.recv_buffered()[0]),
    {
        if self.in_buf.len() > 0 {
            Some(self.in_buf[0])
        } else {
            None
        }
    }

    /// Try to carve the next frame off the buffered bytes.
    pub fn try_next(&mut self) -> (r: RecvStep)
        requires
            old(self).wf(),
        ensures
            final(self).wf(),
            final(self).recv_wire() == old(self).recv_wire(),
            final(self).recv_key() == old(self).recv_key(),
            final(self).send_plain() == old(self).send_plain(),
            final(self).send_pending() == old(self).send_pending(),
            final(self).send_taken() == old(self).send_taken(),
            final(self).send_key() == old(self).send_key(),
            final(self).sent_frames() == old(self).sent_frames(),
            final(self).threshold_spec() == old(self).threshold_spec(),
            match spec_frame_parse(old(self).recv_buffered(), old(self).comp()) {
                FrameParse::Done { id, body, end } => r matches RecvStep::Frame(f) && f.id
                    == id && f.body@ == body && final(self).recv_buffered() == old(
                    self,
                ).recv_buffered().skip(end) && final(self).recv_consumed() == old(
                    self,
                ).recv_consumed() + old(self).recv_buffered().take(end),
                FrameParse::More => r is More && final(self).recv_buffered() == old(
                    self,
                ).recv_buffered() && final(self).recv_consumed() == old(self).recv_consumed(),
                FrameParse::Bad => r is Bad && final(self).recv_buffered() == old(
                    self,
                ).recv_buffered() && final(self).recv_consumed() == old(self).recv_consumed(),
            },
    {
        let comp = self.threshold.is_some();
        let parsed = crate::frame::try_parse_frame(self.in_buf.as_slice(), comp);
        match parsed {
            None => RecvStep::More,
            Some(Err(())) => RecvStep::Bad,
            Some(Ok((f, end))) => {
                let ghost prev = self.in_buf@;
                self.in_done = Ghost(self.in_done@ + self.in_buf@.take(end as int));
                drain_front(&mut self.in_buf, end);
                proof {
                    assert(prev =~= prev.take(end as int) + prev.skip(end as int));
                    assert(self.recv_cipher matches Some(c) ==> c.plain_stream() =~= self.in_done@
                        + self.in_buf@);
                    assert(self.recv_cipher is None ==> self.in_wire@ =~= self.in_done@
                        + self.in_buf@);
                }
                RecvStep::Frame(f)
            },
        }
    }

    /// Encode one frame and queue its wire bytes for sending.
    pub fn send_frame(&mut self, id: u32, body: &[u8])
        requires
            old(self).wf(),
            body@.len() <= MAX_BODY_LEN,
        ensures
            final(self).wf(),
            final(self).recv_wire() == old(self).recv_wire(),
            final(self).recv_buffered() == old(self).recv_buffered(),
            final(self).recv_consumed() == old(self).recv_consumed(),
            final(self).recv_key() == old(self).recv_key(),
            final(self).send_key() == old(self).send_key(),
            final(self).send_taken() == old(self).send_taken(),
            final(self).threshold_spec() == old(self).threshold_spec(),
            final(self).sent_frames() == old(self).sent_frames() + seq![(id, body@)],
            final(self).send_plain().take(old(self).send_plain().len() as int) == old(
                self,
            ).send_plain(),
            spec_frame_parse(
                final(self).send_plain().skip(old(self).send_plain().len() as int),
                old(self).comp(),
            ) matches FrameParse::Done { id: pid, body: pbody, end } && pid == id && pbody
                == body@ && end == final(self).send_plain().len() - old(
                self,
            ).send_plain().len(),
            old(self).threshold_spec() is None ==> final(self).send_plain() == old(
                self,
            ).send_plain() + plain_frame(id, body@),
            old(self).threshold_spec() matches Some(t) ==> (if payload_bytes(
                id,
                body@,
            ).len() < t {
                final(self).send_plain() == old(self).send_plain() + plain_marked_frame(
                    id,
                    body@,
                )
            } else {
                compressed_frame_shape(
                    final(self).send_plain().skip(old(self).send_plain().len() as int),
                    id,
                    body@,
                ) || final(self).send_plain() == old(self).send_plain() + plain_marked_frame(
                    id,
                    body@,
                )
            }),
    {
        let w = encode_frame(id, body, self.threshold);
        let ghost prev_plain = self.out_plain@;
        self.out_plain = Ghost(self.out_plain@ + w@);
        self.out_frames = Ghost(self.out_frames@ + seq![(id, body@)]);
        match &mut self.send_cipher {
            None => {
                write_bytes(w.as_slice(), &mut self.out_buf);
            },
            Some(c) => {
                let e = c.encrypt_buf(w.as_slice());
                write_bytes(e.as_slice(), &mut self.out_buf);
            },
        }
        proof {
            assert(self.out_plain@.take(prev_plain.len() as int) =~= prev_plain);
            assert(self.out_plain@.skip(prev_plain.len() as int) =~= w@);
            assert(self.send_cipher matches Some(c) ==> c.wire_stream() =~= self.out_taken@
                + self.out_buf@);
            assert(self.send_cipher is None ==> self.out_taken@ + self.out_buf@
                =~= self.out_plain@);
        }
    }

    /// Queue pre-framed packet bytes for sending, unchanged except for
    /// encryption: the session's buffered-write path.
    pub fn send_raw(&mut self, bytes: &[u8])
        requires
            old(self).wf(),
        ensures
            final(self).wf(),
            final(self).recv_wire() == old(self).recv_wire(),
            final(self).recv_buffered() == old(self).recv_buffered(),
            final(self).recv_consumed() == old(self).recv_consumed(),
            final(self).recv_key() == old(self).recv_key(),
            final(self).send_key() == old(self).send_key(),
            final(self).send_taken() == old(self).send_taken(),
            final(self).sent_frames() == old(self).sent_frames(),
            final(self).threshold_spec() == old(self).threshold_spec(),
            final(self).send_plain() == old(self).send_plain() + bytes@,
            final(self).send_pending().len() == old(self).send_pending().len() + bytes@.len(),
            final(self).send_key() is None ==> final(self).send_pending() == old(
                self,
            ).send_pending() + bytes@,
    {
        self.out_plain = Ghost(self.out_plain@ + bytes@);
        match &mut self.send_cipher {
            None => {
                write_bytes(bytes, &mut self.out_buf);
            },
            Some(c) => {
                let e = c.encrypt_buf(bytes);
                write_bytes(e.as_slice(), &mut self.out_buf);
            },
        }
        proof {
            assert(self.send_cipher matches Some(c) ==> c.wire_stream() =~= self.out_taken@
                + self.out_buf@);
            assert(self.send_cipher is None ==> self.out_taken@ + self.out_buf@
                =~= self.out_plain@);
        }
    }

    /// Hand the pending wire bytes to the socket writer.
    pub fn take_outgoing(&mut self) -> (r: Vec<u8>)
        requires
            old(self).wf(),
        ensures
            final(self).wf(),
            r@ == old(self).send_pending(),
            final(self).send_pending() == Seq::<u8>::empty(),
            final(self).send_taken() == old(self).send_taken() + r@,
            final(self).send_plain() == old(self).send_plain(),
            final(self).send_key() == old(self).send_key(),
            final(self).sent_frames() == old(self).sent_frames(),
            final(self).recv_wire() == old(self).recv_wire(),
            final(self).recv_buffered() == old(self).recv_buffered(),
            final(self).recv_consumed() == old(self).recv_consumed(),
            final(self).recv_key() == old(self).recv_key(),
            final(self).threshold_spec() == old(self).threshold_spec(),
    {
        let mut r: Vec<u8> = Vec::new();
        core::mem::swap(&mut r, &mut self.out_buf);
        self.out_taken = Ghost(self.out_taken@ + r@);
        assert(self.out_taken@ + self.out_buf@ =~= old(self).out_taken@ + old(self).out_buf@);
        r
    }

    /// Arm the compressed frame format for every frame from here on.
    pub fn set_compression(&mut self, threshold: u32)
        requires
            old(self).wf(),
        ensures
            final(self).wf(),
            final(self).threshold_spec() == Some(threshold),
            final(self).recv_wire() == old(self).recv_wire(),
            final(self).recv_buffered() == old(self).recv_buffered(),
            final(self).recv_consumed() == old(self).recv_consumed(),
            final(self).recv_key() == old(self).recv_key(),
            final(self).send_plain() == old(self).send_plain(),
            final(self).send_pending() == old(self).send_pending(),
            final(self).send_taken() == old(self).send_taken(),
            final(self).send_key() == old(self).send_key(),
            final(self).sent_frames() == old(self).sent_frames(),
    {
        self.threshold = Some(threshold);
    }

    /// Arm stream encryption with a 16-byte key, in both directions, for
    /// every byte from here on.  The framer's buffers must be drained
    /// first; the ghost streams restart from this point.
    pub fn enable_encryption(&mut self, key: &[u8; 16])
        requires
            old(self).wf(),
            old(self).recv_key() is None,
            old(self).send_key() is None,
            old(self).recv_buffered().len() == 0,
            old(self).send_pending().len() == 0,
        ensures
            final(self).wf(),
            final(self).recv_key() == Some(key@),
            final(self).send_key() == Some(key@),
            final(self).recv_wire() == Seq::<u8>::empty(),
            final(self).recv_buffered() == Seq::<u8>::empty(),
            final(self).recv_consumed() == Seq::<u8>::empty(),
            final(self).send_plain() == Seq::<u8>::empty(),
            final(self).send_pending() == Seq::<u8>::empty(),
            final(self).send_taken() == Seq::<u8>::empty(),
            final(self).sent_frames() == old(self).sent_frames(),
            final(self).threshold_spec() == old(self).threshold_spec(),
    {
        self.recv_cipher = Some(RecvCipher::new(key));
        self.send_cipher = Some(SendCipher::new(key));
        self.in_done = Ghost(Seq::empty());
        self.in_wire = Ghost(Seq::empty());
        self.out_taken = Ghost(Seq::empty());
        self.out_plain = Ghost(Seq::empty());
    }
}

/// Feeding one framer's wire output to a peer armed with the same key (or,
/// like it, with none) reproduces the sender's frame stream exactly.
pub proof fn lemma_stream_round_trip(tx: &Framer, rx: &Framer)
    requires
        tx.wf(),
        rx.wf(),
        rx.recv_key() == tx.send_key(),
        rx.recv_wire() == tx.send_wire(),
    ensures
        rx.recv_plain() == tx.send_plain(),
{
    tx.lemma_transparency();
    rx.lemma_transparency();
    match rx.recv_key() {
        None => {},
        Some(k) => {
            if rx.recv_wire().len() == 0 {
                assert(rx.recv_plain() =~= tx.send_plain());
            }
        },
    }
}

/// Encode-then-decode is the identity, under any combination of
/// compression and encryption: when a receiver armed like the sender has
/// been fed exactly the sender's wire bytes, and the sender's frame stream
/// begins with one complete encoded frame, the first frame the receiver
/// carves is that frame.
pub proof fn lemma_framer_round_trip(
    tx: &Framer,
    rx: &Framer,
    id: u32,
    body: Seq<u8>,
    w: Seq<u8>,
    tail: Seq<u8>,
)
    requires
        tx.wf(),
        rx.wf(),
        rx.recv_key() == tx.send_key(),
        rx.recv_wire() == tx.send_wire(),
        rx.recv_consumed() == Seq::<u8>::empty(),
        rx.comp() == tx.comp(),
        tx.send_plain() == w + tail,
        w.len() + tail.len() <= usize::MAX,
        spec_frame_parse(w, tx.comp()) matches FrameParse::Done { id: pid, body: pbody, end }
            && pid == id && pbody == body && end == w.len(),
    ensures
        spec_frame_parse(rx.recv_buffered(), rx.comp()) matches FrameParse::Done {
            id: pid,
            body: pbody,
            end,
        } && pid == id && pbody == body && end == w.len(),
{
    lemma_stream_round_trip(tx, rx);
    assert(rx.recv_buffered() =~= w + tail);
    assert((w + tail).subrange(0, w.len() as int) =~= w);
    crate::frame::lemma_frame_parse_prefix(w, w + tail, tx.comp());
}

/// Remove the first `n` bytes of a buffer.
fn drain_front(v: &mut Vec<u8>, n: usize)
    requires
        n <= old(v)@.len(),
    ensures
        final(v)@ == old(v)@.skip(n as int),
{
    let mut nv: Vec<u8> = Vec::new();
    let mut i: usize = n;
    while i < v.len()
        invariant
            n <= i <= v@.len(),
            v@ == old(v)@,
            nv@ == v@.subrange(n as int, i as int),
        decreases v@.len() - i,
    {
        nv.push(v[i]);
        assert(nv@ =~= v@.subrange(n as int, i + 1));
        i = i + 1;
    }
    assert(nv@ =~= old(v)@.skip(n as int));
    *v = nv;
}

} // verus!
