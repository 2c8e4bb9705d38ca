//! The packets the connection pipeline itself speaks: handshake, the
//! status exchange, and the login negotiation.  Each has a spec-level body
//! grammar and an executable parser or encoder proved against it.  String
//! fields are carried as UTF-8 bytes.

use vstd::prelude::*;
use crate::varint::varint_bytes;
use crate::wire::{
    MAX_STRING_LEN, prefixed_bytes, read_bool, read_bytes, read_string, read_u16_be,
    read_varint, spec_read_bool, spec_read_bytes, spec_read_string, spec_read_u16_be,
    spec_read_varint, u16_be_bytes, write_bytes, write_prefixed_bytes, write_u16_be,
    write_varint,
};

verus! {

/// Packet id of the client's handshake.
pub const ID_HANDSHAKE: u32 = 0x00;

/// Packet id of the client's status request, and of the server's response.
pub const ID_STATUS_QUERY: u32 = 0x00;

/// Packet id of the client's ping, and of the server's pong.
pub const ID_STATUS_PING: u32 = 0x01;

/// Packet id of the client's login hello, and of the server's disconnect.
pub const ID_LOGIN_HELLO: u32 = 0x00;

/// Packet id of the server's login success, and of the client's reply to a
/// login plugin query.
pub const ID_LOGIN_SUCCESS: u32 = 0x02;

/// Packet id of the server's compression announcement.
pub const ID_LOGIN_COMPRESSION: u32 = 0x03;

/// Packet id of the server's login plugin query.
pub const ID_LOGIN_QUERY: u32 = 0x04;

// ---------------------------------------------------------------- handshake

/// The fields a client declares in its first packet.
pub struct HandshakeData {
    /// The protocol version the client speaks.
    pub protocol_version: i32,
    /// The server address the client dialled, as UTF-8 bytes.
    pub server_address: Vec<u8>,
    /// The server port the client dialled.
    pub server_port: u16,
}

/// The stage the client asks to enter after the handshake.
#[derive(Clone, Copy, PartialEq, Eq, Structural, Debug)]
pub enum NextState {
    /// The one-shot server-list exchange.
    Status,
    /// The login negotiation.
    Login,
}

/// The handshake body: protocol version, dialled address and port, and the
/// requested next stage (1 for status, 2 for login); nothing may follow.
pub open spec fn spec_parse_handshake(b: Seq<u8>) -> Option<(u32, Seq<u8>, u16, u32)> {
    match spec_read_varint(b, 0) {
        None => None,
        Some((pv, p1)) => match spec_read_string(b, p1, MAX_STRING_LEN as int) {
            None => None,
            Some((addr, p2)) => match spec_read_u16_be(b, p2) {
                None => None,
                Some((port, p3)) => match spec_read_varint(b, p3) {
                    None => None,
                    Some((next, p4)) => if p4 == b.len() && (next == 1 || next == 2) {
                        Some((pv, addr, port, next))
                    } else {
                        None
                    },
                },
            },
        },
    }
}

/// The encoding of a handshake body.
pub open spec fn handshake_body(pv: u32, addr: Seq<u8>, port: u16, next: u32) -> Seq<u8> {
    varint_bytes(pv as nat) + prefixed_bytes(addr) + u16_be_bytes(port) + varint_bytes(
        next as nat,
    )
}

/// Decode a handshake body.
pub fn parse_handshake(b: &[u8]) -> (r: Option<(HandshakeData, NextState)>)
    ensures
        match spec_parse_handshake(b@) {
            Some((pv, addr, port, next)) => r matches Some((h, n)) && h.protocol_version == pv
                as i32 && h.server_address@ == addr && h.server_port == port && (n
                == NextState::Status <==> next == 1) && (n == NextState::Login <==> next == 2),
            None => r is None,
        },
{
    match read_varint(b, 0) {
        None => None,
        Some((pv, p1)) => match read_string(b, p1, MAX_STRING_LEN) {
            None => None,
            Some((addr, p2)) => match read_u16_be(b, p2) {
                None => None,
                Some((port, p3)) => match read_varint(b, p3) {
                    None => None,
                    Some((next, p4)) => {
                        if p4 == b.len() && (next == 1 || next == 2) {
                            let n = if next == 1 {
                                NextState::Status
                            } else {
                                NextState::Login
                            };
                            Some(
                                (
                                    HandshakeData {
                                        protocol_version: pv as i32,
                                        server_address: addr,
                                        server_port: port,
                                    },
                                    n,
                                ),
                            )
                        } else {
                            None
                        }
                    },
                },
            },
        },
    }
}

/// Encode a handshake body.
pub fn encode_handshake(pv: u32, addr: &[u8], port: u16, next: u32) -> (r: Vec<u8>)
    requires
        addr@.len() <= u32::MAX,
    ensures
        r@ == handshake_body(pv, addr@, port, next),
{
    let mut r: Vec<u8> = Vec::new();
    write_varint(pv, &mut r);
    write_prefixed_bytes(addr, &mut r);
    write_u16_be(port, &mut r);
    write_varint(next, &mut r);
    assert(r@ =~= handshake_body(pv, addr@, port, next));
    r
}

// ---------------------------------------------------------------- status

/// The status request body: empty.
pub open spec fn spec_parse_status_request(b: Seq<u8>) -> Option<()> {
    if b.len() == 0 {
        Some(())
    } else {
        None
    }
}

/// Decode a status request body.
pub fn parse_status_request(b: &[u8]) -> (r: Option<()>)
    ensures
        r == spec_parse_status_request(b@),
{
    if b.len() == 0 {
        Some(())
    } else {
        None
    }
}

/// The status response body: the JSON document as a string field.
pub open spec fn status_response_body(json: Seq<u8>) -> Seq<u8> {
    prefixed_bytes(json)
}

/// Encode a status response body.
pub fn encode_status_response(json: &[u8]) -> (r: Vec<u8>)
    requires
        json@.len() <= u32::MAX,
    ensures
        r@ == status_response_body(json@),
{
    let mut r: Vec<u8> = Vec::new();
    write_prefixed_bytes(json, &mut r);
    r
}

/// The ping body: eight opaque payload bytes, echoed verbatim in the pong.
pub open spec fn spec_parse_ping(b: Seq<u8>) -> Option<Seq<u8>> {
    if b.len() == 8 {
        Some(b)
    } else {
        None
    }
}

/// Decode a ping body.
pub fn parse_ping(b: &[u8]) -> (r: Option<Vec<u8>>)
    ensures
        match spec_parse_ping(b@) {
            Some(p) => r matches Some(v) && v@ == p,
            None => r is None,
        },
{
    if b.len() == 8 {
        match read_bytes(b, 0, 8) {
            Some((v, _)) => {
                assert(v@ =~= b@);
                Some(v)
            },
            None => None,
        }
    } else {
        None
    }
}

/// Encode a pong body: the ping payload unchanged.
pub fn encode_pong(payload: &[u8]) -> (r: Vec<u8>)
    requires
        payload@.len() == 8,
    ensures
        r@ == payload@,
{
    let mut r: Vec<u8> = Vec::new();
    write_bytes(payload, &mut r);
    assert(r@ =~= payload@);
    r
}

// ---------------------------------------------------------------- login

/// The login hello body: the declared username, then optionally the
/// client's claimed profile id as 16 raw bytes; nothing may follow.
pub open spec fn spec_parse_login_hello(b: Seq<u8>) -> Option<(Seq<u8>, Option<Seq<u8>>)> {
    match spec_read_string(b, 0, MAX_STRING_LEN as int) {
        None => None,
        Some((name, p1)) => match spec_read_bool(b, p1) {
            None => None,
            Some((has_id, p2)) => if has_id {
                match spec_read_bytes(b, p2, 16) {
                    None => None,
                    Some((id, p3)) => if p3 == b.len() {
                        Some((name, Some(id)))
                    } else {
                        None
                    },
                }
            } else {
                if p2 == b.len() {
                    Some((name, None))
                } else {
                    None
                }
            },
        },
    }
}

/// The encoding of a login hello body.
pub open spec fn login_hello_body(name: Seq<u8>, profile_id: Option<Seq<u8>>) -> Seq<u8> {
    prefixed_bytes(name) + match profile_id {
        Some(id) => seq![1u8] + id,
        None => seq![0u8],
    }
}

/// Decode a login hello body.
pub fn parse_login_hello(b: &[u8]) -> (r: Option<(Vec<u8>, Option<Vec<u8>>)>)
    ensures
        match spec_parse_login_hello(b@) {
            Some((name, id)) => r matches Some((rn, rid)) && rn@ == name && (match id {
                Some(i) => rid matches Some(ri) && ri@ == i,
                None => rid is None,
            }),
            None => r is None,
        },
{
    let blen = b.len();
    match read_string(b, 0, MAX_STRING_LEN) {
        None => None,
        Some((name, p1)) => match read_bool(b, p1) {
            None => None,
            Some((has_id, p2)) => {
                if has_id {
                    match read_bytes(b, p2, 16) {
                        None => None,
                        Some((id, p3)) => {
                            if p3 == blen {
                                Some((name, Some(id)))
                            } else {
                                None
                            }
                        },
                    }
                } else {
                    if p2 == blen {
                        Some((name, None))
                    } else {
                        None
                    }
                }
            },
        },
    }
}

/// Encode a login hello body.
pub fn encode_login_hello(name: &[u8], profile_id: Option<&[u8]>) -> (r: Vec<u8>)
    requires
        name@.len() <= u32::MAX,
        profile_id matches Some(id) ==> id@.len() == 16,
    ensures
        r@ == login_hello_body(
            name@,
            match profile_id {
                Some(id) => Some(id@),
                None => None,
            },
        ),
{
    let mut r: Vec<u8> = Vec::new();
    write_prefixed_bytes(name, &mut r);
    match profile_id {
        Some(id) => {
            r.push(1);
            write_bytes(id, &mut r);
        },
        None => {
            r.push(0);
        },
    }
    assert(r@ =~= login_hello_body(
        name@,
        match profile_id {
            Some(id) => Some(id@),
            None => None,
        },
    ));
    r
}

/// The login disconnect body: a JSON text document as a string field.
pub open spec fn login_disconnect_body(reason_json: Seq<u8>) -> Seq<u8> {
    prefixed_bytes(reason_json)
}

/// Encode a login disconnect body.
pub fn encode_login_disconnect(reason_json: &[u8]) -> (r: Vec<u8>)
    requires
        reason_json@.len() <= u32::MAX,
    ensures
        r@ == login_disconnect_body(reason_json@),
{
    let mut r: Vec<u8> = Vec::new();
    write_prefixed_bytes(reason_json, &mut r);
    r
}

/// The compression announcement body: the threshold.
pub open spec fn login_compression_body(threshold: u32) -> Seq<u8> {
    varint_bytes(threshold as nat)
}

/// Encode a compression announcement body.
pub fn encode_login_compression(threshold: u32) -> (r: Vec<u8>)
    ensures
        r@ == login_compression_body(threshold),
{
    let mut r: Vec<u8> = Vec::new();
    write_varint(threshold, &mut r);
    r
}

/// The login success body: the resolved id as 16 raw bytes, the username,
/// and an empty property list.
pub open spec fn login_success_body(uuid: Seq<u8>, name: Seq<u8>) -> Seq<u8> {
    uuid + prefixed_bytes(name) + varint_bytes(0)
}

/// Encode a login success body.
pub fn encode_login_success(uuid: &[u8], name: &[u8]) -> (r: Vec<u8>)
    requires
        uuid@.len() == 16,
        name@.len() <= u32::MAX,
    ensures
        r@ == login_success_body(uuid@, name@),
{
    let mut r: Vec<u8> = Vec::new();
    write_bytes(uuid, &mut r);
    write_prefixed_bytes(name, &mut r);
    write_varint(0, &mut r);
    assert(r@ =~= login_success_body(uuid@, name@));
    r
}

/// The login plugin query body: a message id, a channel identifier, and the
/// raw query data running to the end.
pub open spec fn login_query_body(message_id: u32, channel: Seq<u8>, data: Seq<u8>) -> Seq<
    u8,
> {
    varint_bytes(message_id as nat) + prefixed_bytes(channel) + data
}

/// Encode a login plugin query body.
pub fn encode_login_query(message_id: u32, channel: &[u8], data: &[u8]) -> (r: Vec<u8>)
    requires
        channel@.len() <= u32::MAX,
    ensures
        r@ == login_query_body(message_id, channel@, data@),
{
    let mut r: Vec<u8> = Vec::new();
    write_varint(message_id, &mut r);
    write_prefixed_bytes(channel, &mut r);
    write_bytes(data, &mut r);
    assert(r@ =~= login_query_body(message_id, channel@, data@));
    r
}

/// The login plugin response body: the echoed message id, then a presence
/// flag and, if present, the raw response data running to the end.
pub open spec fn spec_parse_login_query_response(b: Seq<u8>) -> Option<(u32, Option<Seq<u8>>)> {
    match spec_read_varint(b, 0) {
        None => None,
        Some((mid, p1)) => match spec_read_bool(b, p1) {
            None => None,
            Some((present, p2)) => if present {
                Some((mid, Some(b.subrange(p2, b.len() as int))))
            } else {
                if p2 == b.len() {
                    Some((mid, None))
                } else {
                    None
                }
            },
        },
    }
}

/// Decode a login plugin response body.
pub fn parse_login_query_response(b: &[u8]) -> (r: Option<(u32, Option<Vec<u8>>)>)
    ensures
        match spec_parse_login_query_response(b@) {
            Some((mid, data)) => r matches Some((rm, rd)) && rm == mid && (match data {
                Some(d) => rd matches Some(v) && v@ == d,
                None => rd is None,
            }),
            None => r is None,
        },
{
    let blen = b.len();
    proof {
        crate::wire::lemma_read_varint_bounds(b@, 0);
    }
    match read_varint(b, 0) {
        None => None,
        Some((mid, p1)) => match read_bool(b, p1) {
            None => None,
            Some((present, p2)) => {
                if present {
                    match read_bytes(b, p2, blen - p2) {
                        Some((d, _)) => Some((mid, Some(d))),
                        None => None,
                    }
                } else {
                    if p2 == blen {
                        Some((mid, None))
                    } else {
                        None
                    }
                }
            },
        },
    }
}

/// Encode a login plugin response body, as a client would.
pub fn encode_login_query_response(message_id: u32, data: Option<&[u8]>) -> (r: Vec<u8>)
    ensures
        r@ == varint_bytes(message_id as nat) + match data {
            Some(d) => seq![1u8] + d@,
            None => seq![0u8],
        },
{
    let mut r: Vec<u8> = Vec::new();
    write_varint(message_id, &mut r);
    match data {
        Some(d) => {
            r.push(1);
            write_bytes(d, &mut r);
        },
        None => {
            r.push(0);
        },
    }
    assert(r@ =~= varint_bytes(message_id as nat) + (match data {
        Some(d) => seq![1u8] + d@,
        None => seq![0u8],
    }));
    r
}

} // verus!
