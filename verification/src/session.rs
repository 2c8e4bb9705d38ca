//! The client session: after login the connection's framer is converted
//! into a `Client`, which buffers outbound packet bytes in memory and hands
//! them out in one batch per flush.  The marker components a session
//! carries live here too.

use vstd::prelude::*;
use crate::framer::Framer;
use crate::frame::MAX_BODY_LEN;
use crate::ip::IpValue;

verus! {

/// A live session's connection: the framer, now used for outbound
/// gameplay traffic.  Writes accumulate; a flush hands every pending wire
/// byte out for one socket write.
pub struct Client {
    framer: Framer,
}

impl Framer {
    /// Convert a negotiated connection into a client session connection.
    pub fn into_client(self) -> (r: Client)
        requires
            self.wf(),
        ensures
            r.wf(),
            r.pending() == self.send_pending(),
            r.sent_frames() == self.sent_frames(),
    {
        Client { framer: self }
    }
}

impl Client {
    /// The session connection's invariant.
    pub closed spec fn wf(&self) -> bool {
        self.framer.wf()
    }

    /// Wire bytes buffered and not yet flushed.
    pub closed spec fn pending(&self) -> Seq<u8> {
        self.framer.send_pending()
    }

    /// Every frame written to this connection, in order.
    pub closed spec fn sent_frames(&self) -> Seq<(u32, Seq<u8>)> {
        self.framer.sent_frames()
    }

    /// Frame a packet and buffer its wire bytes.
    pub fn write_packet(&mut self, id: u32, body: &[u8])
        requires
            old(self).wf(),
            body@.len() <= MAX_BODY_LEN,
        ensures
            final(self).wf(),
            final(self).sent_frames() == old(self).sent_frames() + seq![(id, body@)],
    {
        self.framer.send_frame(id, body);
    }

    /// Buffer pre-framed packet bytes unchanged.
    pub fn write_packet_bytes(&mut self, bytes: &[u8])
        requires
            old(self).wf(),
        ensures
            final(self).wf(),
            final(self).sent_frames() == old(self).sent_frames(),
            final(self).pending().len() >= old(self).pending().len(),
    {
        self.framer.send_raw(bytes);
    }

    /// Take every pending wire byte for one socket write; the buffer is
    /// empty afterwards.  Called at the end of a processing cycle and on
    /// teardown.
    pub fn flush_packets(&mut self) -> (r: Vec<u8>)
        requires
            old(self).wf(),
        ensures
            final(self).wf(),
            r@ == old(self).pending(),
            final(self).pending() == Seq::<u8>::empty(),
            final(self).sent_frames() == old(self).sent_frames(),
    {
        self.framer.take_outgoing()
    }
}

/// The session's username.
#[derive(Clone, PartialEq, Eq, Debug)]
pub struct Username(pub String);

/// The session's source address.
#[derive(Clone, Copy, PartialEq, Eq, Structural, Debug)]
pub struct IpAddress(pub IpValue);

/// Whether the world is hardcore.
#[derive(Clone, Copy, PartialEq, Eq, Structural, Default, Debug)]
pub struct IsHardcore(pub bool);

/// Hashed world seed used for biome noise.
#[derive(Clone, Copy, PartialEq, Eq, Structural, Default, Debug)]
pub struct HashedSeed(pub u64);

/// Whether the client is sent reduced debug info.
#[derive(Clone, Copy, PartialEq, Eq, Structural, Default, Debug)]
pub struct ReducedDebugInfo(pub bool);

/// Whether the respawn screen is shown.
#[derive(Clone, Copy, PartialEq, Eq, Structural, Debug)]
pub struct HasRespawnScreen(pub bool);

impl Default for HasRespawnScreen {
    /// The respawn screen is shown unless switched off.
    fn default() -> (r: Self)
        ensures
            r.0 == true,
    {
        HasRespawnScreen(true)
    }
}

/// If the client is spawning into a debug world.
#[derive(Clone, Copy, PartialEq, Eq, Structural, Default, Debug)]
pub struct IsDebug(pub bool);

/// Changes the perceived horizon line (used for superflat worlds).
#[derive(Clone, Copy, PartialEq, Eq, Structural, Default, Debug)]
pub struct IsFlat(pub bool);

/// Ticks left before the client may use a portal again.
#[derive(Clone, Copy, PartialEq, Eq, Structural, Default, Debug)]
pub struct PortalCooldown(pub i32);

/// Relies on `String::from_utf8`: it returns `Ok` exactly when the bytes
/// are valid UTF-8, and the string then holds those bytes.
#[verifier::external_body]
pub(crate) fn string_from_utf8(v: Vec<u8>) -> (r: Option<String>)
    ensures
        r is Some <==> vstd::utf8::valid_utf8(v@),
        r matches Some(s) ==> vstd::utf8::encode_utf8(s@) == v@,
{
    match String::from_utf8(v) {
        Ok(s) => Some(s),
        Err(_) => None,
    }
}

} // verus!
