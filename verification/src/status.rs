//! The status responder: builds the server-list document and runs the
//! one-shot request/response then ping/pong exchange.  The document's
//! exact bytes are specified: every dynamic field is escaped, and the pong
//! echoes the ping payload verbatim.

use vstd::prelude::*;
use vstd::string::StringSliceAdditionalSpecFns;
use crate::dispatch::Server;
use crate::frame::{Frame, MAX_BODY_LEN};
use crate::framer::Framer;
use crate::packets::{
    ID_STATUS_PING, ID_STATUS_QUERY, encode_pong, encode_status_response, status_response_body,
};
use crate::wire::write_bytes;

verus! {

// ---------------------------------------------------------------- decimal

/// The decimal digits of `n`, most significant first.
pub open spec fn dec_nat(n: nat) -> Seq<u8>
    decreases n,
{
    if n < 10 {
        seq![(0x30 + n) as u8]
    } else {
        dec_nat(n / 10) + seq![(0x30 + (n % 10)) as u8]
    }
}

/// The decimal digits of an integer, with a leading minus when negative.
pub open spec fn dec_int(n: int) -> Seq<u8> {
    if n >= 0 {
        dec_nat(n as nat)
    } else {
        seq![0x2du8] + dec_nat((-n) as nat)
    }
}

/// Append the decimal digits of `n`.
pub fn write_dec_u32(n: u32, out: &mut Vec<u8>)
    ensures
        final(out)@ == old(out)@ + dec_nat(n as nat),
    decreases n,
{
    if n < 10 {
        out.push(0x30 + n as u8);
        assert(final(out)@ =~= old(out)@ + dec_nat(n as nat));
    } else {
        write_dec_u32(n / 10, out);
        out.push(0x30 + (n % 10) as u8);
        assert(final(out)@ =~= old(out)@ + dec_nat(n as nat));
    }
}

/// Append the decimal digits of `n`, with a leading minus when negative.
pub fn write_dec_i32(n: i32, out: &mut Vec<u8>)
    ensures
        final(out)@ == old(out)@ + dec_int(n as int),
{
    if n >= 0 {
        write_dec_u32(n as u32, out);
    } else {
        out.push(0x2d);
        let m: u64 = (-(n as i64)) as u64;
        write_dec_u32(m as u32, out);
        assert(final(out)@ =~= old(out)@ + dec_int(n as int));
    }
}

/// A decimal rendering of a 32-bit value takes at most ten digits.
pub proof fn lemma_dec_nat_len(n: nat)
    ensures
        1 <= dec_nat(n).len(),
        n < 0x1_0000_0000 ==> dec_nat(n).len() <= 10,
    decreases n,
{
    if n >= 10 {
        lemma_dec_nat_len(n / 10);
        if n < 0x1_0000_0000 {
            assert(pow10(10) == 10_000_000_000) by {
                assert(pow10(1) == 10 * pow10(0));
                assert(pow10(2) == 10 * pow10(1));
                assert(pow10(3) == 10 * pow10(2));
                assert(pow10(4) == 10 * pow10(3));
                assert(pow10(5) == 10 * pow10(4));
                assert(pow10(6) == 10 * pow10(5));
                assert(pow10(7) == 10 * pow10(6));
                assert(pow10(8) == 10 * pow10(7));
                assert(pow10(9) == 10 * pow10(8));
                assert(pow10(10) == 10 * pow10(9));
            }
            lemma_dec_nat_len_bound(n, 10);
        }
    }
}

proof fn lemma_dec_nat_len_bound(n: nat, k: nat)
    requires
        n < pow10(k),
        1 <= k,
    ensures
        dec_nat(n).len() <= k,
    decreases n,
{
    if n < 10 {
    } else {
        if k == 1 {
            assert(pow10(1) == 10 * pow10(0));
            assert(pow10(0) == 1);
        }
        assert(k >= 2);
        assert(n / 10 < pow10((k - 1) as nat)) by {
            assert(pow10(k) == 10 * pow10((k - 1) as nat));
        }
        lemma_dec_nat_len_bound(n / 10, (k - 1) as nat);
    }
}

/// 10 to the power `k`.
pub open spec fn pow10(k: nat) -> nat
    decreases k,
{
    if k == 0 {
        1
    } else {
        10 * pow10((k - 1) as nat)
    }
}

// ---------------------------------------------------------------- escaping

pub open spec fn hex_digit_byte(v: u8) -> u8 {
    if v < 10 {
        (0x30 + v) as u8
    } else {
        (0x61 + (v - 10)) as u8
    }
}

/// How one byte appears inside a JSON string literal.
pub open spec fn escape_byte(b: u8) -> Seq<u8> {
    if b == 0x22 {
        seq![0x5cu8, 0x22u8]
    } else if b == 0x5c {
        seq![0x5cu8, 0x5cu8]
    } else if b < 0x20 {
        seq![0x5cu8, 0x75u8, 0x30u8, 0x30u8, hex_digit_byte(b / 16), hex_digit_byte(b % 16)]
    } else {
        seq![b]
    }
}

/// A byte run escaped for a JSON string literal.
pub open spec fn json_escape(s: Seq<u8>) -> Seq<u8>
    decreases s.len(),
{
    if s.len() == 0 {
        Seq::empty()
    } else {
        escape_byte(s[0]) + json_escape(s.skip(1))
    }
}

/// Escaping distributes over appending one byte at the end.
proof fn lemma_json_escape_snoc(s: Seq<u8>, b: u8)
    ensures
        json_escape(s + seq![b]) == json_escape(s) + escape_byte(b),
    decreases s.len(),
{
    let a = s + seq![b];
    if s.len() == 0 {
        assert(a =~= seq![b]);
        assert(a.len() == 1);
        assert(a[0] == b);
        assert(a.skip(1) =~= Seq::<u8>::empty());
        assert(json_escape(a) == escape_byte(b) + json_escape(a.skip(1)));
        assert(json_escape(a.skip(1)) == Seq::<u8>::empty());
        assert(json_escape(s) == Seq::<u8>::empty());
        assert(json_escape(a) =~= json_escape(s) + escape_byte(b));
    } else {
        assert(a.len() == s.len() + 1);
        assert(a[0] == s[0]);
        assert(a.skip(1) =~= s.skip(1) + seq![b]);
        lemma_json_escape_snoc(s.skip(1), b);
        assert(json_escape(a) == escape_byte(a[0]) + json_escape(a.skip(1)));
        assert(json_escape(a) =~= json_escape(s) + escape_byte(b));
    }
}

/// An escaped run is at most six times as long as its source.
pub proof fn lemma_json_escape_len(s: Seq<u8>)
    ensures
        json_escape(s).len() <= 6 * s.len(),
    decreases s.len(),
{
    if s.len() > 0 {
        lemma_json_escape_len(s.skip(1));
    }
}

/// Append `s` escaped for a JSON string literal.
pub fn write_json_escaped(s: &[u8], out: &mut Vec<u8>)
    ensures
        final(out)@ == old(out)@ + json_escape(s@),
{
    let mut i: usize = 0;
    while i < s.len()
        invariant
            i <= s@.len(),
            out@ == old(out)@ + json_escape(s@.take(i as int)),
        decreases s@.len() - i,
    {
        let b = s[i];
        if b == 0x22 {
            out.push(0x5c);
            out.push(0x22);
        } else if b == 0x5c {
            out.push(0x5c);
            out.push(0x5c);
        } else if b < 0x20 {
            out.push(0x5c);
            out.push(0x75);
            out.push(0x30);
            out.push(0x30);
            let hi = b / 16;
            let lo = b % 16;
            out.push(if hi < 10 {
                0x30 + hi
            } else {
                0x61 + (hi - 10)
            });
            out.push(if lo < 10 {
                0x30 + lo
            } else {
                0x61 + (lo - 10)
            });
        } else {
            out.push(b);
        }
        proof {
            assert(s@.take(i + 1) =~= s@.take(i as int) + seq![s@[i as int]]);
            lemma_json_escape_snoc(s@.take(i as int), s@[i as int]);
            assert(out@ =~= old(out)@ + json_escape(s@.take(i + 1)));
        }
        i = i + 1;
    }
    assert(s@.take(s@.len() as int) =~= s@);
}

// ---------------------------------------------------------------- the document

/// The status document: version name and protocol, player counts, an
/// empty sample, the message of the day, the favicon, and the two fixed
/// flags, in this order.
pub open spec fn status_json(
    version_name: Seq<u8>,
    protocol: int,
    max_players: u32,
    online: u32,
    motd: Seq<u8>,
    favicon: Seq<u8>,
) -> Seq<u8> {
    "{\"version\":{\"name\":\"".spec_bytes() + json_escape(version_name)
        + "\",\"protocol\":".spec_bytes() + dec_int(protocol) + "},\"players\":{\"max\":".spec_bytes()
        + dec_nat(max_players as nat) + ",\"online\":".spec_bytes() + dec_nat(online as nat)
        + ",\"sample\":[]},\"description\":{\"text\":\"".spec_bytes() + json_escape(motd)
        + "\"},\"favicon\":\"".spec_bytes() + json_escape(favicon)
        + "\",\"enforcesSecureChat\":true,\"previewsChat\":true}".spec_bytes()
}

/// Append a literal.
fn write_lit(s: &str, out: &mut Vec<u8>)
    ensures
        final(out)@ == old(out)@ + s.spec_bytes(),
{
    write_bytes(s.as_bytes(), out);
}

/// Build the status document for this configuration and player count.
pub fn build_status_json(server: &Server, online: u32) -> (r: Vec<u8>)
    ensures
        r@ == status_json(
            server.version_name@,
            server.protocol_version as int,
            server.max_players,
            online,
            server.motd@,
            server.favicon@,
        ),
{
    let mut out: Vec<u8> = Vec::new();
    write_lit("{\"version\":{\"name\":\"", &mut out);
    write_json_escaped(server.version_name.as_slice(), &mut out);
    write_lit("\",\"protocol\":", &mut out);
    write_dec_i32(server.protocol_version, &mut out);
    write_lit("},\"players\":{\"max\":", &mut out);
    write_dec_u32(server.max_players, &mut out);
    write_lit(",\"online\":", &mut out);
    write_dec_u32(online, &mut out);
    write_lit(",\"sample\":[]},\"description\":{\"text\":\"", &mut out);
    write_json_escaped(server.motd.as_slice(), &mut out);
    write_lit("\"},\"favicon\":\"", &mut out);
    write_json_escaped(server.favicon.as_slice(), &mut out);
    write_lit("\",\"enforcesSecureChat\":true,\"previewsChat\":true}", &mut out);
    assert(out@ =~= status_json(
        server.version_name@,
        server.protocol_version as int,
        server.max_players,
        online,
        server.motd@,
        server.favicon@,
    ));
    out
}

/// A UTF-8 encoding takes at most four bytes per character.
pub proof fn lemma_encode_utf8_len(chars: Seq<char>)
    ensures
        vstd::utf8::encode_utf8(chars).len() <= 4 * chars.len(),
    decreases chars.len(),
{
    if chars.len() > 0 {
        lemma_encode_utf8_len(chars.drop_first());
    }
}

/// The document of a well-formed configuration fits in one frame with room
/// for the string length prefix.
pub proof fn lemma_status_json_len(server: &Server, online: u32)
    requires
        server.wf(),
    ensures
        status_json(
            server.version_name@,
            server.protocol_version as int,
            server.max_players,
            online,
            server.motd@,
            server.favicon@,
        ).len() + 5 <= MAX_BODY_LEN,
{
    lemma_json_escape_len(server.version_name@);
    lemma_json_escape_len(server.motd@);
    lemma_json_escape_len(server.favicon@);
    lemma_dec_nat_len(server.max_players as nat);
    lemma_dec_nat_len(online as nat);
    if server.protocol_version >= 0 {
        lemma_dec_nat_len(server.protocol_version as nat);
    } else {
        lemma_dec_nat_len((-(server.protocol_version as int)) as nat);
    }
    reveal_strlit("{\"version\":{\"name\":\"");
    reveal_strlit("\",\"protocol\":");
    reveal_strlit("},\"players\":{\"max\":");
    reveal_strlit(",\"online\":");
    reveal_strlit(",\"sample\":[]},\"description\":{\"text\":\"");
    reveal_strlit("\"},\"favicon\":\"");
    reveal_strlit("\",\"enforcesSecureChat\":true,\"previewsChat\":true}");
    lemma_encode_utf8_len("{\"version\":{\"name\":\""@);
    lemma_encode_utf8_len("\",\"protocol\":"@);
    lemma_encode_utf8_len("},\"players\":{\"max\":"@);
    lemma_encode_utf8_len(",\"online\":"@);
    lemma_encode_utf8_len(",\"sample\":[]},\"description\":{\"text\":\""@);
    lemma_encode_utf8_len("\"},\"favicon\":\""@);
    lemma_encode_utf8_len("\",\"enforcesSecureChat\":true,\"previewsChat\":true}"@);
}

// ---------------------------------------------------------------- the exchange

/// Where the one-shot status exchange stands.
#[derive(Clone, Copy, PartialEq, Eq, Structural, Debug)]
pub enum StatusState {
    /// Waiting for the status request.
    AwaitRequest,
    /// Waiting for the ping.
    AwaitPing,
    /// The exchange finished; the connection ends.
    Done,
    /// A malformed or unexpected frame arrived; the connection is dropped.
    Failed,
}

/// The status responder's state machine.
pub struct StatusFlow {
    /// Where the exchange stands.
    pub state: StatusState,
}

impl StatusFlow {
    /// A fresh exchange.
    pub fn new() -> (r: StatusFlow)
        ensures
            r.state == StatusState::AwaitRequest,
    {
        StatusFlow { state: StatusState::AwaitRequest }
    }

    /// Drive the exchange with one received frame: answer the request with
    /// the status document, answer the ping by echoing its payload, and
    /// fail on anything else.
    pub fn on_frame(&mut self, server: &Server, online: u32, framer: &mut Framer, frame: &Frame)
        requires
            old(self).state == StatusState::AwaitRequest || old(self).state
                == StatusState::AwaitPing,
            old(framer).wf(),
            server.wf(),
        ensures
            final(framer).wf(),
            final(framer).recv_wire() == old(framer).recv_wire(),
            final(framer).recv_buffered() == old(framer).recv_buffered(),
            final(framer).recv_consumed() == old(framer).recv_consumed(),
            final(framer).recv_key() == old(framer).recv_key(),
            final(framer).send_key() == old(framer).send_key(),
            final(framer).threshold_spec() == old(framer).threshold_spec(),
            old(self).state == StatusState::AwaitRequest ==> (
            if frame.id == ID_STATUS_QUERY && frame.body@.len() == 0 {
                final(self).state == StatusState::AwaitPing && final(framer).sent_frames()
                    == old(framer).sent_frames() + seq![
                    (
                        ID_STATUS_QUERY,
                        status_response_body(
                            status_json(
                                server.version_name@,
                                server.protocol_version as int,
                                server.max_players,
                                online,
                                server.motd@,
                                server.favicon@,
                            ),
                        ),
                    ),
                ]
            } else {
                final(self).state == StatusState::Failed && final(framer).sent_frames() == old(
                    framer,
                ).sent_frames()
            }),
            old(self).state == StatusState::AwaitPing ==> (
            if frame.id == ID_STATUS_PING && frame.body@.len() == 8 {
                final(self).state == StatusState::Done && final(framer).sent_frames() == old(
                    framer,
                ).sent_frames() + seq![(ID_STATUS_PING, frame.body@)]
            } else {
                final(self).state == StatusState::Failed && final(framer).sent_frames() == old(
                    framer,
                ).sent_frames()
            }),
    {
        match self.state {
            StatusState::AwaitRequest => {
                if frame.id == ID_STATUS_QUERY && frame.body.len() == 0 {
                    let json = build_status_json(server, online);
                    proof {
                        lemma_status_json_len(server, online);
                        crate::varint::lemma_varint_bytes_len(json@.len());
                        crate::varint::lemma_pow128_values();
                    }
                    let body = encode_status_response(json.as_slice());
                    framer.send_frame(ID_STATUS_QUERY, body.as_slice());
                    self.state = StatusState::AwaitPing;
                } else {
                    self.state = StatusState::Failed;
                }
            },
            StatusState::AwaitPing => {
                if frame.id == ID_STATUS_PING && frame.body.len() == 8 {
                    let body = encode_pong(frame.body.as_slice());
                    framer.send_frame(ID_STATUS_PING, body.as_slice());
                    self.state = StatusState::Done;
                } else {
                    self.state = StatusState::Failed;
                }
            },
            StatusState::Done => {
            },
            StatusState::Failed => {
            },
        }
    }
}

} // verus!
