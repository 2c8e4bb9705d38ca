//! The front of a connection: a probe for the legacy one-shot ping (a
//! first byte of 0xfe), the handshake router that decodes the first frame
//! and picks the next stage, and the driver that feeds bytes through the
//! framer into whichever stage holds the connection.

use vstd::prelude::*;
use crate::dispatch::{ConnectionMode, Server};
use crate::frame::{Frame, FrameParse, spec_frame_parse};
use crate::framer::{Framer, RecvStep};
use crate::ip::IpValue;
use crate::login::{
    LoginFlow, LoginState, LoginStep, armed_threshold, forwarding_channel, hmac_of_matches,
    mismatch_reason_json, offline_uuid_of, success_frames,
};
use crate::packets::{
    HandshakeData, ID_HANDSHAKE, ID_LOGIN_HELLO, ID_LOGIN_QUERY, ID_LOGIN_SUCCESS,
    ID_STATUS_PING, ID_STATUS_QUERY, NextState, login_disconnect_body, login_query_body,
    parse_handshake, spec_parse_handshake, spec_parse_login_hello,
    spec_parse_login_query_response, status_response_body,
};
use crate::status::{StatusFlow, StatusState, dec_nat, status_json, write_dec_u32};
use crate::velocity::{ClientInfo, PropertyView, props_view, spec_parse_forwarded};

verus! {

// ---------------------------------------------------------------- legacy probe

/// ASCII-ish bytes widened to UTF-16 big-endian code units; bytes beyond
/// ASCII are replaced.
pub open spec fn utf16be(s: Seq<u8>) -> Seq<u8>
    decreases s.len(),
{
    if s.len() == 0 {
        Seq::empty()
    } else {
        seq![0u8, if s[0] < 0x80 { s[0] } else { 0x3fu8 }] + utf16be(s.skip(1))
    }
}

proof fn lemma_utf16be_snoc(s: Seq<u8>, b: u8)
    ensures
        utf16be(s + seq![b]) == utf16be(s) + seq![0u8, if b < 0x80 { b } else { 0x3fu8 }],
    decreases s.len(),
{
    let a = s + seq![b];
    let w = seq![0u8, if b < 0x80 { b } else { 0x3fu8 }];
    if s.len() == 0 {
        assert(a =~= seq![b]);
        assert(a.len() == 1);
        assert(a[0] == b);
        assert(a.skip(1) =~= Seq::<u8>::empty());
        assert(utf16be(a) == seq![0u8, if a[0] < 0x80 { a[0] } else { 0x3fu8 }] + utf16be(
            a.skip(1),
        ));
        assert(utf16be(a.skip(1)) == Seq::<u8>::empty());
        assert(utf16be(s) == Seq::<u8>::empty());
        assert(utf16be(a) =~= utf16be(s) + w);
    } else {
        assert(a.len() == s.len() + 1);
        assert(a[0] == s[0]);
        assert(a.skip(1) =~= s.skip(1) + seq![b]);
        lemma_utf16be_snoc(s.skip(1), b);
        assert(utf16be(a) == seq![0u8, if a[0] < 0x80 { a[0] } else { 0x3fu8 }] + utf16be(
            a.skip(1),
        ));
        assert(utf16be(a) =~= utf16be(s) + w);
    }
}

/// A widened run is exactly twice as long as its source.
pub proof fn lemma_utf16be_len(s: Seq<u8>)
    ensures
        utf16be(s).len() == 2 * s.len(),
    decreases s.len(),
{
    if s.len() > 0 {
        lemma_utf16be_len(s.skip(1));
    }
}

fn write_utf16be(s: &[u8], out: &mut Vec<u8>)
    ensures
        final(out)@ == old(out)@ + utf16be(s@),
{
    let mut i: usize = 0;
    while i < s.len()
        invariant
            i <= s@.len(),
            out@ == old(out)@ + utf16be(s@.take(i as int)),
        decreases s@.len() - i,
    {
        let b = s[i];
        out.push(0);
        out.push(if b < 0x80 {
            b
        } else {
            0x3f
        });
        proof {
            assert(s@.take(i + 1) =~= s@.take(i as int) + seq![s@[i as int]]);
            lemma_utf16be_snoc(s@.take(i as int), s@[i as int]);
            assert(out@ =~= old(out)@ + utf16be(s@.take(i + 1)));
        }
        i = i + 1;
    }
    assert(s@.take(s@.len() as int) =~= s@);
}

/// The payload of the legacy reply: the legacy magic, then protocol
/// version, version name, message of the day and the two player counts,
/// each as widened text, separated by zero characters.
pub open spec fn legacy_payload(server: &Server, online: u32) -> Seq<u8> {
    seq![0x00u8, 0xa7u8, 0x00u8, 0x31u8, 0x00u8, 0x00u8] + utf16be(
        dec_nat(server.protocol_version as nat),
    ) + seq![0x00u8, 0x00u8] + utf16be(server.version_name@) + seq![0x00u8, 0x00u8] + utf16be(
        server.motd@,
    ) + seq![0x00u8, 0x00u8] + utf16be(dec_nat(online as nat)) + seq![0x00u8, 0x00u8]
        + utf16be(dec_nat(server.max_players as nat))
}

/// The legacy reply: its marker byte, the number of two-byte units, and
/// the payload.
pub open spec fn legacy_response(server: &Server, online: u32) -> Seq<u8> {
    seq![0xffu8] + crate::wire::u16_be_bytes((legacy_payload(server, online).len() / 2) as u16)
        + legacy_payload(server, online)
}

/// What the legacy probe decided.
pub enum Probe {
    /// The peer speaks the legacy ping; this reply finishes it.
    Legacy(Vec<u8>),
    /// The peer speaks the modern protocol; the buffered bytes stand.
    NotLegacy,
    /// No byte has arrived yet.
    NeedMore,
}

/// Probe the first buffered byte for the legacy ping marker and build the
/// self-contained legacy reply if it matches.
pub fn probe_legacy(framer: &Framer, server: &Server, online: u32) -> (r: Probe)
    requires
        framer.wf(),
        server.wf(),
        server.protocol_version >= 0,
    ensures
        framer.recv_buffered().len() == 0 ==> r is NeedMore,
        framer.recv_buffered().len() > 0 && framer.recv_buffered()[0] == 0xfe ==> (r matches
            Probe::Legacy(resp) && resp@ == legacy_response(server, online)),
        framer.recv_buffered().len() > 0 && framer.recv_buffered()[0] != 0xfe ==> r
            is NotLegacy,
{
    match framer.peek_first() {
        None => Probe::NeedMore,
        Some(b) => {
            if b == 0xfe {
                let mut payload: Vec<u8> = Vec::new();
                payload.push(0x00);
                payload.push(0xa7);
                payload.push(0x00);
                payload.push(0x31);
                payload.push(0x00);
                payload.push(0x00);
                write_dec_u32_utf16(server.protocol_version as u32, &mut payload);
                payload.push(0x00);
                payload.push(0x00);
                write_utf16be(server.version_name.as_slice(), &mut payload);
                payload.push(0x00);
                payload.push(0x00);
                write_utf16be(server.motd.as_slice(), &mut payload);
                payload.push(0x00);
                payload.push(0x00);
                write_dec_u32_utf16(online, &mut payload);
                payload.push(0x00);
                payload.push(0x00);
                write_dec_u32_utf16(server.max_players, &mut payload);
                proof {
                    assert(payload@ =~= legacy_payload(server, online));
                    lemma_legacy_payload_len(server, online);
                }
                let units = payload.len() / 2;
                let mut resp: Vec<u8> = Vec::new();
                resp.push(0xff);
                crate::wire::write_u16_be(units as u16, &mut resp);
                crate::wire::write_bytes(payload.as_slice(), &mut resp);
                assert(resp@ =~= legacy_response(server, online));
                Probe::Legacy(resp)
            } else {
                Probe::NotLegacy
            }
        },
    }
}

/// The widened decimal digits of `n`.
fn write_dec_u32_utf16(n: u32, out: &mut Vec<u8>)
    ensures
        final(out)@ == old(out)@ + utf16be(dec_nat(n as nat)),
{
    let mut digits: Vec<u8> = Vec::new();
    write_dec_u32(n, &mut digits);
    write_utf16be(digits.as_slice(), out);
}

/// The legacy payload of a well-formed configuration fits the length
/// field.
proof fn lemma_legacy_payload_len(server: &Server, online: u32)
    requires
        server.wf(),
        server.protocol_version >= 0,
    ensures
        legacy_payload(server, online).len() <= 30000,
        legacy_payload(server, online).len() % 2 == 0,
{
    crate::status::lemma_dec_nat_len(server.protocol_version as nat);
    crate::status::lemma_dec_nat_len(online as nat);
    crate::status::lemma_dec_nat_len(server.max_players as nat);
    lemma_utf16be_len(dec_nat(server.protocol_version as nat));
    lemma_utf16be_len(server.version_name@);
    lemma_utf16be_len(server.motd@);
    lemma_utf16be_len(dec_nat(online as nat));
    lemma_utf16be_len(dec_nat(server.max_players as nat));
}

// ---------------------------------------------------------------- the router

/// Where the first frame sends the connection.
pub enum Routed {
    /// To the one-shot status exchange.
    Status(HandshakeData),
    /// To the login negotiation.
    Login(HandshakeData),
    /// Nowhere: the frame was not a valid handshake, and the connection is
    /// dropped silently.
    Drop,
}

/// Decode the first frame as a handshake and pick the next stage.
pub fn route_handshake(frame: &Frame) -> (r: Routed)
    ensures
        (frame.id == ID_HANDSHAKE && spec_parse_handshake(frame.body@) is Some) <==> !(r
            is Drop),
        (frame.id == ID_HANDSHAKE && spec_parse_handshake(frame.body@) is Some) ==> {
            let parsed = spec_parse_handshake(frame.body@)->0;
            let h = (if parsed.3 == 1 {
                r->Status_0
            } else {
                r->Login_0
            });
            &&& (parsed.3 == 1 <==> r is Status)
            &&& (parsed.3 == 2 <==> r is Login)
            &&& h.protocol_version == parsed.0 as i32
            &&& h.server_address@ == parsed.1
            &&& h.server_port == parsed.2
        },
{
    if frame.id != ID_HANDSHAKE {
        return Routed::Drop;
    }
    match parse_handshake(frame.body.as_slice()) {
        None => Routed::Drop,
        Some((h, next)) => match next {
            NextState::Status => Routed::Status(h),
            NextState::Login => Routed::Login(h),
        },
    }
}

// ---------------------------------------------------------------- the driver

/// The stage that currently holds the connection.
pub enum Stage {
    /// Probing for the legacy ping.
    Probing,
    /// Waiting for the handshake frame.
    AwaitHandshake,
    /// The status exchange.
    Status(StatusFlow),
    /// The login negotiation.
    Login(LoginFlow),
    /// The connection is done here: closed, or handed to a session.
    Ended,
}

/// What the driver asks of the socket loop after a batch of bytes.
pub enum ConnOut {
    /// Keep reading; flush anything pending.
    Continue,
    /// The legacy exchange finished: flush, then close.
    LegacyDone,
    /// Drop the connection silently: flush, then close.
    Close,
    /// Hand the username to the online verification strategy.
    NeedOnline {
        /// The declared username.
        username: Vec<u8>,
    },
    /// Login finished with this identity: take the framer out and spawn a
    /// session.
    LoginComplete(ClientInfo),
}

/// Spec image of the login negotiator's state.
pub ghost enum LoginStateV {
    /// Waiting for the client's hello.
    AwaitHello,
    /// A version mismatch was answered; one more frame ends the connection.
    Draining,
    /// Waiting for the proxy-forwarding response.
    AwaitQuery {
        /// The username the client declared.
        username: Seq<u8>,
    },
    /// Waiting for the pluggable online strategy.
    AwaitOnline,
    /// Success was announced.
    Done,
    /// The negotiation failed.
    Failed,
}

/// Spec image of the stage that holds the connection.
pub ghost enum StageV {
    /// Probing for the legacy ping.
    Probing,
    /// Waiting for the handshake frame.
    AwaitHandshake,
    /// The status exchange.
    Status(StatusState),
    /// The login negotiation.
    Login(LoginStateV),
    /// The connection is done here.
    Ended,
}

/// Spec image of what the driver hands back.
pub ghost enum OutV {
    /// Keep reading.
    Continue,
    /// The legacy exchange finished.
    LegacyDone,
    /// Drop the connection silently.
    Close,
    /// Hand the username to the online strategy.
    NeedOnline {
        /// The declared username.
        username: Seq<u8>,
    },
    /// Login finished with this identity.
    LoginComplete {
        /// The resolved username.
        username: Seq<u8>,
        /// The resolved 16-byte id.
        uuid: Seq<u8>,
        /// The resolved address.
        ip: IpValue,
        /// The resolved profile properties.
        properties: Seq<PropertyView>,
    },
}

/// The spec image of a login state.
pub open spec fn login_state_view(s: LoginState) -> LoginStateV {
    match s {
        LoginState::AwaitHello => LoginStateV::AwaitHello,
        LoginState::Draining => LoginStateV::Draining,
        LoginState::AwaitQuery { username } => LoginStateV::AwaitQuery { username: username@ },
        LoginState::AwaitOnline => LoginStateV::AwaitOnline,
        LoginState::Done => LoginStateV::Done,
        LoginState::Failed => LoginStateV::Failed,
    }
}

/// The spec image of a driver outcome.
pub open spec fn out_view(r: ConnOut) -> OutV {
    match r {
        ConnOut::Continue => OutV::Continue,
        ConnOut::LegacyDone => OutV::LegacyDone,
        ConnOut::Close => OutV::Close,
        ConnOut::NeedOnline { username } => OutV::NeedOnline { username: username@ },
        ConnOut::LoginComplete(ci) => OutV::LoginComplete {
            username: ci.username@,
            uuid: ci.uuid@,
            ip: ci.ip,
            properties: props_view(ci.properties.0@),
        },
    }
}

/// What one frame does to a stage: the stage after, the frames sent, the
/// threshold after, and the outcome handed back if the driver stops.
pub ghost struct StepV {
    /// The stage after the frame.
    pub stage: StageV,
    /// The frames sent while handling it, in order.
    pub sent: Seq<(u32, Seq<u8>)>,
    /// The compression threshold after.
    pub threshold: Option<u32>,
    /// The driver's outcome, if it stops here.
    pub out: Option<OutV>,
}

/// One frame applied to a stage, exactly as the stage machines treat it:
/// the handshake routes, the status exchange answers, the login
/// negotiation resolves, and anything out of place drops the connection.
#[verifier::opaque]
pub open spec fn spec_step(
    server: &Server,
    online: u32,
    remote_ip: IpValue,
    threshold: Option<u32>,
    stage: StageV,
    id: u32,
    body: Seq<u8>,
) -> StepV {
    let close = StepV {
        stage: StageV::Ended,
        sent: Seq::empty(),
        threshold,
        out: Some(OutV::Close),
    };
    match stage {
        StageV::Probing => close,
        StageV::Ended => close,
        StageV::AwaitHandshake => {
            if id == ID_HANDSHAKE && spec_parse_handshake(body) is Some {
                let parsed = spec_parse_handshake(body)->0;
                if parsed.3 == 1 {
                    StepV {
                        stage: StageV::Status(StatusState::AwaitRequest),
                        sent: Seq::empty(),
                        threshold,
                        out: None,
                    }
                } else {
                    if parsed.0 as i32 == server.protocol_version {
                        StepV {
                            stage: StageV::Login(LoginStateV::AwaitHello),
                            sent: Seq::empty(),
                            threshold,
                            out: None,
                        }
                    } else {
                        StepV {
                            stage: StageV::Login(LoginStateV::Draining),
                            sent: seq![
                                (
                                    ID_LOGIN_HELLO,
                                    login_disconnect_body(
                                        mismatch_reason_json(
                                            server.protocol_version as int,
                                            parsed.0 as i32 as int,
                                        ),
                                    ),
                                ),
                            ],
                            threshold,
                            out: None,
                        }
                    }
                }
            } else {
                close
            }
        },
        StageV::Status(st) => {
            if st == StatusState::AwaitRequest {
                if id == ID_STATUS_QUERY && body.len() == 0 {
                    StepV {
                        stage: StageV::Status(StatusState::AwaitPing),
                        sent: seq![
                            (
                                ID_STATUS_QUERY,
                                status_response_body(
                                    status_json(
                                        server.version_name@,
                                        server.protocol_version as int,
                                        server.max_players,
                                        online,
                                        server.motd@,
                                        server.favicon@,
                                    ),
                                ),
                            ),
                        ],
                        threshold,
                        out: None,
                    }
                } else {
                    close
                }
            } else if st == StatusState::AwaitPing {
                if id == ID_STATUS_PING && body.len() == 8 {
                    StepV {
                        stage: StageV::Ended,
                        sent: seq![(ID_STATUS_PING, body)],
                        threshold,
                        out: Some(OutV::Close),
                    }
                } else {
                    close
                }
            } else {
                close
            }
        },
        StageV::Login(ls) => match ls {
            LoginStateV::AwaitOnline => close,
            LoginStateV::Draining => close,
            LoginStateV::Done => close,
            LoginStateV::Failed => close,
            LoginStateV::AwaitHello => {
                if id == ID_LOGIN_HELLO && spec_parse_login_hello(body) is Some {
                    let name = (spec_parse_login_hello(body)->0).0;
                    match server.connection_mode {
                        ConnectionMode::Offline => StepV {
                            stage: StageV::Ended,
                            sent: success_frames(server, offline_uuid_of(name), name),
                            threshold: armed_threshold(server, threshold),
                            out: Some(
                                OutV::LoginComplete {
                                    username: name,
                                    uuid: offline_uuid_of(name),
                                    ip: remote_ip,
                                    properties: Seq::empty(),
                                },
                            ),
                        },
                        ConnectionMode::Velocity { .. } => StepV {
                            stage: StageV::Login(LoginStateV::AwaitQuery { username: name }),
                            sent: seq![
                                (
                                    ID_LOGIN_QUERY,
                                    login_query_body(0, forwarding_channel(), seq![1u8]),
                                ),
                            ],
                            threshold,
                            out: None,
                        },
                        ConnectionMode::Online => StepV {
                            stage: StageV::Login(LoginStateV::AwaitOnline),
                            sent: Seq::empty(),
                            threshold,
                            out: Some(OutV::NeedOnline { username: name }),
                        },
                    }
                } else {
                    close
                }
            },
            LoginStateV::AwaitQuery { username: declared } => {
                if id == ID_LOGIN_SUCCESS && (spec_parse_login_query_response(body)
                    matches Some((mid, data)) && mid == 0 && data is Some) && (
                server.connection_mode matches ConnectionMode::Velocity { .. }) {
                    let payload = ((spec_parse_login_query_response(body)->0).1)->0;
                    let secret = server.connection_mode->Velocity_secret;
                    if payload.len() >= 32 && hmac_of_matches(secret@, payload)
                        && spec_parse_forwarded(payload.skip(32)) is Some && (
                    spec_parse_forwarded(payload.skip(32))->0).3 == declared {
                        let parsed = spec_parse_forwarded(payload.skip(32))->0;
                        StepV {
                            stage: StageV::Ended,
                            sent: success_frames(server, parsed.2, parsed.3),
                            threshold: armed_threshold(server, threshold),
                            out: Some(
                                OutV::LoginComplete {
                                    username: parsed.3,
                                    uuid: parsed.2,
                                    ip: parsed.1,
                                    properties: parsed.4,
                                },
                            ),
                        }
                    } else {
                        close
                    }
                } else {
                    close
                }
            },
        },
    }
}

/// The driver's fold state: stage, bytes still buffered, frames sent so
/// far, the threshold, and the outcome once the driver stops.
pub ghost struct DriveV {
    /// The stage that holds the connection.
    pub stage: StageV,
    /// Bytes waiting to be carved into frames.
    pub buffered: Seq<u8>,
    /// Every frame sent so far.
    pub sent: Seq<(u32, Seq<u8>)>,
    /// The compression threshold.
    pub threshold: Option<u32>,
    /// The outcome, once decided.
    pub out: Option<OutV>,
}

/// Drive the current stage over every complete buffered frame: carve one
/// frame at a time and apply `spec_step` until a stage stops the driver or
/// the buffer runs short of a whole frame.  `fuel` only bounds the
/// recursion; one more than the buffered byte count always suffices, since
/// every carved frame spans at least one byte.
#[verifier::opaque]
pub open spec fn spec_drive(
    server: &Server,
    online: u32,
    remote_ip: IpValue,
    st: DriveV,
    fuel: nat,
) -> DriveV
    decreases fuel,
{
    if st.out is Some || fuel == 0 {
        st
    } else {
        match spec_frame_parse(st.buffered, st.threshold is Some) {
            FrameParse::More => DriveV {
                stage: st.stage,
                buffered: st.buffered,
                sent: st.sent,
                threshold: st.threshold,
                out: Some(OutV::Continue),
            },
            FrameParse::Bad => DriveV {
                stage: StageV::Ended,
                buffered: st.buffered,
                sent: st.sent,
                threshold: st.threshold,
                out: Some(OutV::Close),
            },
            FrameParse::Done { id, body, end } => {
                let sr = spec_step(server, online, remote_ip, st.threshold, st.stage, id, body);
                spec_drive(
                    server,
                    online,
                    remote_ip,
                    DriveV {
                        stage: sr.stage,
                        buffered: st.buffered.skip(end),
                        sent: st.sent + sr.sent,
                        threshold: sr.threshold,
                        out: sr.out,
                    },
                    (fuel - 1) as nat,
                )
            },
        }
    }
}

/// Any fuel past one-per-buffered-byte gives the same drive result: each
/// carved frame spans at least one byte.
proof fn lemma_spec_drive_fuel(
    server: &Server,
    online: u32,
    remote_ip: IpValue,
    st: DriveV,
    f1: nat,
    f2: nat,
)
    requires
        st.buffered.len() <= usize::MAX,
        f1 >= st.buffered.len() + 1,
        f2 >= st.buffered.len() + 1,
    ensures
        spec_drive(server, online, remote_ip, st, f1) == spec_drive(
            server,
            online,
            remote_ip,
            st,
            f2,
        ),
    decreases f1 + f2,
{
    reveal(spec_drive);
    if !(st.out is Some) {
        match spec_frame_parse(st.buffered, st.threshold is Some) {
            FrameParse::More => {},
            FrameParse::Bad => {},
            FrameParse::Done { id, body, end } => {
                crate::frame::lemma_frame_done_bounds(st.buffered, st.threshold is Some);
                let sr = spec_step(
                    server,
                    online,
                    remote_ip,
                    st.threshold,
                    st.stage,
                    id,
                    body,
                );
                let st2 = DriveV {
                    stage: sr.stage,
                    buffered: st.buffered.skip(end),
                    sent: st.sent + sr.sent,
                    threshold: sr.threshold,
                    out: sr.out,
                };
                lemma_spec_drive_fuel(
                    server,
                    online,
                    remote_ip,
                    st2,
                    (f1 - 1) as nat,
                    (f2 - 1) as nat,
                );
            },
        }
    }
}

/// One connection moving through its stages.
pub struct Connection {
    /// The connection's framer.
    framer: Framer,
    /// The stage that holds the connection.
    stage: Stage,
    /// The peer address.
    remote_ip: IpValue,
}

impl Connection {
    /// Every wire byte fed in so far.
    pub closed spec fn wire_in(&self) -> Seq<u8> {
        self.framer.recv_wire()
    }

    /// Bytes waiting to be carved into frames.
    pub closed spec fn buffered(&self) -> Seq<u8> {
        self.framer.recv_buffered()
    }

    /// The frames sent so far: id and body of each, in order.
    pub closed spec fn sent_frames(&self) -> Seq<(u32, Seq<u8>)> {
        self.framer.sent_frames()
    }

    /// The whole outbound stream before encryption.
    pub closed spec fn sent_plain(&self) -> Seq<u8> {
        self.framer.send_plain()
    }

    /// Whether the connection still probes for the legacy ping.
    pub closed spec fn probing(&self) -> bool {
        self.stage is Probing
    }

    /// Whether the receive side decrypts, once armed.
    pub closed spec fn recv_key(&self) -> Option<Seq<u8>> {
        self.framer.recv_key()
    }

    /// Whether the login stage waits on the online verification strategy.
    pub closed spec fn awaiting_online(&self) -> bool {
        self.stage matches Stage::Login(f) && f.state is AwaitOnline
    }

    /// Wire bytes waiting for the socket writer.
    pub closed spec fn pending(&self) -> Seq<u8> {
        self.framer.send_pending()
    }

    /// Wire bytes already taken for sending.
    pub closed spec fn taken(&self) -> Seq<u8> {
        self.framer.send_taken()
    }

    /// The armed compression threshold, if any.
    pub closed spec fn threshold_spec(&self) -> Option<u32> {
        self.framer.threshold_spec()
    }

    /// The peer address the connection was accepted from.
    pub closed spec fn remote_ip_spec(&self) -> IpValue {
        self.remote_ip
    }

    /// The connection's framer, with all its state.
    pub closed spec fn framer_spec(&self) -> Framer {
        self.framer
    }

    /// The spec image of the stage that holds the connection.
    pub closed spec fn stage_view(&self) -> StageV {
        match self.stage {
            Stage::Probing => StageV::Probing,
            Stage::AwaitHandshake => StageV::AwaitHandshake,
            Stage::Status(f) => StageV::Status(f.state),
            Stage::Login(f) => StageV::Login(login_state_view(f.state)),
            Stage::Ended => StageV::Ended,
        }
    }

    /// The connection's invariant.  The pipeline never arms stream
    /// encryption before a session exists, so both keys stay unset here.
    pub closed spec fn wf(&self) -> bool {
        &&& self.framer.wf()
        &&& self.framer.recv_key() is None
        &&& self.framer.send_key() is None
        &&& match self.stage {
            Stage::Status(f) => f.state == StatusState::AwaitRequest || f.state
                == StatusState::AwaitPing,
            Stage::Login(f) => (f.state is AwaitHello || f.state is Draining
                || f.state matches LoginState::AwaitQuery { .. } || f.state is AwaitOnline)
                && f.remote_ip == self.remote_ip,
            _ => true,
        }
    }

    /// A fresh connection from an accepted socket.
    pub fn new(remote_ip: IpValue) -> (r: Connection)
        ensures
            r.wf(),
            r.probing(),
            r.wire_in() == Seq::<u8>::empty(),
            r.buffered() == Seq::<u8>::empty(),
            r.sent_frames() == Seq::<(u32, Seq<u8>)>::empty(),
            r.sent_plain() == Seq::<u8>::empty(),
            r.recv_key() is None,
    {
        Connection { framer: Framer::new(), stage: Stage::Probing, remote_ip }
    }

    /// Take the pending wire bytes for the socket writer: exactly what has
    /// accumulated, leaving the buffer empty and everything else untouched.
    pub fn take_outgoing(&mut self) -> (r: Vec<u8>)
        requires
            old(self).wf(),
        ensures
            final(self).wf(),
            r@ == old(self).pending(),
            final(self).pending() == Seq::<u8>::empty(),
            final(self).taken() == old(self).taken() + r@,
            final(self).sent_frames() == old(self).sent_frames(),
            final(self).sent_plain() == old(self).sent_plain(),
            final(self).wire_in() == old(self).wire_in(),
            final(self).buffered() == old(self).buffered(),
            final(self).threshold_spec() == old(self).threshold_spec(),
            final(self).remote_ip_spec() == old(self).remote_ip_spec(),
            final(self).probing() == old(self).probing(),
            final(self).awaiting_online() == old(self).awaiting_online(),
    {
        self.framer.take_outgoing()
    }

    /// After a completed login, take the framer out to build the session:
    /// the connection's own framer, with all its state.
    pub fn into_framer(self) -> (r: Framer)
        requires
            self.wf(),
        ensures
            r.wf(),
            r == self.framer_spec(),
    {
        self.framer
    }

    /// Feed bytes read from the socket and drive the current stage over
    /// every complete frame.  The outcome, the stage, the frames sent and
    /// the bytes left buffered are exactly what `spec_drive` folds out of
    /// the buffered bytes, so the driver can neither skip a frame nor
    /// invent a reply.  The connection's logic never decides on anything
    /// but whole frames, so how the bytes were split across reads cannot
    /// matter.
    #[verifier::rlimit(100)]
    #[verifier::spinoff_prover]
    pub fn on_data(&mut self, server: &Server, online: u32, bytes: &[u8]) -> (r: ConnOut)
        requires
            old(self).wf(),
            server.wf(),
            server.protocol_version >= 0,
        ensures
            final(self).wf(),
            final(self).wire_in() == old(self).wire_in() + bytes@,
            final(self).remote_ip_spec() == old(self).remote_ip_spec(),
            (old(self).probing() && (old(self).buffered() + bytes@).len() == 0) ==> {
                &&& r is Continue
                &&& final(self).probing()
                &&& final(self).buffered() == old(self).buffered() + bytes@
                &&& final(self).sent_frames() == old(self).sent_frames()
                &&& final(self).sent_plain() == old(self).sent_plain()
                &&& final(self).threshold_spec() == old(self).threshold_spec()
            },
            (old(self).probing() && (old(self).buffered() + bytes@).len() > 0 && (old(
                self,
            ).buffered() + bytes@)[0] == 0xfe) ==> {
                &&& r is LegacyDone
                &&& final(self).stage_view() is Ended
                &&& final(self).buffered() == old(self).buffered() + bytes@
                &&& final(self).sent_frames() == old(self).sent_frames()
                &&& final(self).threshold_spec() == old(self).threshold_spec()
                &&& final(self).sent_plain() == old(self).sent_plain() + legacy_response(
                    server,
                    online,
                )
            },
            (!old(self).probing() || ((old(self).buffered() + bytes@).len() > 0 && (old(
                self,
            ).buffered() + bytes@)[0] != 0xfe)) ==> {
                let b0 = old(self).buffered() + bytes@;
                let start = if old(self).probing() {
                    StageV::AwaitHandshake
                } else {
                    old(self).stage_view()
                };
                let d = spec_drive(
                    server,
                    online,
                    old(self).remote_ip_spec(),
                    DriveV {
                        stage: start,
                        buffered: b0,
                        sent: old(self).sent_frames(),
                        threshold: old(self).threshold_spec(),
                        out: None,
                    },
                    b0.len() + 1,
                );
                &&& d.out == Some(out_view(r))
                &&& final(self).stage_view() == d.stage
                &&& final(self).buffered() == d.buffered
                &&& final(self).sent_frames() == d.sent
                &&& final(self).threshold_spec() == d.threshold
            },
    {
        self.framer.feed(bytes);
        let ghost rip = old(self).remote_ip_spec();
        let ghost b0 = old(self).buffered() + bytes@;
        let ghost start: StageV = if old(self).probing() {
            StageV::AwaitHandshake
        } else {
            old(self).stage_view()
        };
        let ghost init = DriveV {
            stage: start,
            buffered: b0,
            sent: old(self).sent_frames(),
            threshold: old(self).threshold_spec(),
            out: None,
        };
        let ghost fuel0 = b0.len() + 1;
        if matches!(self.stage, Stage::Probing) {
            match probe_legacy(&self.framer, server, online) {
                Probe::NeedMore => {
                    return ConnOut::Continue;
                },
                Probe::Legacy(resp) => {
                    self.framer.send_raw(resp.as_slice());
                    self.stage = Stage::Ended;
                    return ConnOut::LegacyDone;
                },
                Probe::NotLegacy => {
                    self.stage = Stage::AwaitHandshake;
                },
            }
        }
        loop
            invariant
                self.wf(),
                server.wf(),
                self.framer.recv_wire() == old(self).framer.recv_wire() + bytes@,
                self.remote_ip == rip,
                rip == old(self).remote_ip_spec(),
                b0 == old(self).buffered() + bytes@,
                init == (DriveV {
                    stage: start,
                    buffered: b0,
                    sent: old(self).sent_frames(),
                    threshold: old(self).threshold_spec(),
                    out: None,
                }),
                fuel0 == b0.len() + 1,
                !old(self).probing() || (b0.len() > 0 && b0[0] != 0xfe),
                start == (if old(self).probing() {
                    StageV::AwaitHandshake
                } else {
                    old(self).stage_view()
                }),
                spec_drive(
                    server,
                    online,
                    rip,
                    DriveV {
                        stage: self.stage_view(),
                        buffered: self.framer.recv_buffered(),
                        sent: self.framer.sent_frames(),
                        threshold: self.framer.threshold_spec(),
                        out: None,
                    },
                    self.framer.recv_buffered().len() + 1,
                ) == spec_drive(server, online, rip, init, fuel0),
            decreases self.framer.recv_buffered().len(),
        {
            match self.drive_once(server, online) {
                Some(out) => {
                    return out;
                },
                None => {},
            }
        }
    }

    /// Carve and handle at most one frame: the one unfolding of
    /// `spec_drive` that the byte-driver's loop repeats.
    #[verifier::rlimit(100)]
    fn drive_once(&mut self, server: &Server, online: u32) -> (r: Option<ConnOut>)
        requires
            old(self).wf(),
            server.wf(),
        ensures
            final(self).wf(),
            final(self).framer.recv_wire() == old(self).framer.recv_wire(),
            final(self).remote_ip_spec() == old(self).remote_ip_spec(),
            !(r matches Some(out) && out is LegacyDone),
            ({
                let rip = old(self).remote_ip_spec();
                let pre = DriveV {
                    stage: old(self).stage_view(),
                    buffered: old(self).buffered(),
                    sent: old(self).sent_frames(),
                    threshold: old(self).threshold_spec(),
                    out: None,
                };
                match r {
                    Option::Some(out) => spec_drive(
                        server,
                        online,
                        rip,
                        pre,
                        pre.buffered.len() + 1,
                    ) == (DriveV {
                        stage: final(self).stage_view(),
                        buffered: final(self).buffered(),
                        sent: final(self).sent_frames(),
                        threshold: final(self).threshold_spec(),
                        out: Some(out_view(out)),
                    }),
                    Option::None => {
                        &&& final(self).buffered().len() < old(self).buffered().len()
                        &&& spec_drive(server, online, rip, pre, pre.buffered.len() + 1)
                            == spec_drive(
                            server,
                            online,
                            rip,
                            DriveV {
                                stage: final(self).stage_view(),
                                buffered: final(self).buffered(),
                                sent: final(self).sent_frames(),
                                threshold: final(self).threshold_spec(),
                                out: None,
                            },
                            final(self).buffered().len() + 1,
                        )
                    },
                }
            }),
    {
        let ghost rip = old(self).remote_ip_spec();
        let _buffered = self.framer.buffered_len();
        proof {
            crate::frame::lemma_frame_done_bounds(
                self.framer.recv_buffered(),
                self.framer.comp(),
            );
        }
        let ghost pre = DriveV {
            stage: self.stage_view(),
            buffered: self.framer.recv_buffered(),
            sent: self.framer.sent_frames(),
            threshold: self.framer.threshold_spec(),
            out: None,
        };
        let step = self.framer.try_next();
        let frame = match step {
            RecvStep::More => {
                proof {
                    reveal(spec_drive);
                    assert(spec_drive(server, online, rip, pre, pre.buffered.len() + 1)
                        == (DriveV {
                        stage: pre.stage,
                        buffered: pre.buffered,
                        sent: pre.sent,
                        threshold: pre.threshold,
                        out: Some(OutV::Continue),
                    }));
                }
                return Some(ConnOut::Continue);
            },
            RecvStep::Bad => {
                self.stage = Stage::Ended;
                proof {
                    reveal(spec_drive);
                    assert(spec_drive(server, online, rip, pre, pre.buffered.len() + 1)
                        == (DriveV {
                        stage: StageV::Ended,
                        buffered: pre.buffered,
                        sent: pre.sent,
                        threshold: pre.threshold,
                        out: Some(OutV::Close),
                    }));
                }
                return Some(ConnOut::Close);
            },
            RecvStep::Frame(f) => f,
        };
        let ghost end = spec_frame_parse(pre.buffered, pre.threshold is Some)->Done_end;
        let ghost sr = spec_step(
            server,
            online,
            rip,
            pre.threshold,
            pre.stage,
            frame.id,
            frame.body@,
        );
        let ghost st2 = DriveV {
            stage: sr.stage,
            buffered: pre.buffered.skip(end),
            sent: pre.sent + sr.sent,
            threshold: sr.threshold,
            out: sr.out,
        };
        proof {
            reveal(spec_drive);
            assert(spec_drive(server, online, rip, pre, pre.buffered.len() + 1) == spec_drive(
                server,
                online,
                rip,
                st2,
                (pre.buffered.len() + 1 - 1) as nat,
            ));
        }
        match self.step_frame(server, online, frame) {
            Some(out) => {
                proof {
                    reveal(spec_drive);
                    assert(st2.out == Some(out_view(out)));
                    assert(spec_drive(server, online, rip, st2, pre.buffered.len() as nat)
                        == st2);
                }
                Some(out)
            },
            None => {
                proof {
                    assert(st2.out is None);
                    assert(st2 == (DriveV {
                        stage: self.stage_view(),
                        buffered: self.framer.recv_buffered(),
                        sent: self.framer.sent_frames(),
                        threshold: self.framer.threshold_spec(),
                        out: None,
                    }));
                    lemma_spec_drive_fuel(
                        server,
                        online,
                        rip,
                        st2,
                        pre.buffered.len() as nat,
                        st2.buffered.len() + 1,
                    );
                }
                None
            },
        }
    }

    /// Hand one frame to the stage that holds the connection, exactly as
    /// `spec_step` describes it.
    #[verifier::rlimit(100)]
    fn step_frame(&mut self, server: &Server, online: u32, frame: Frame) -> (r: Option<
        ConnOut,
    >)
        requires
            old(self).wf(),
            server.wf(),
        ensures
            final(self).wf(),
            final(self).framer.recv_buffered() == old(self).framer.recv_buffered(),
            final(self).framer.recv_wire() == old(self).framer.recv_wire(),
            final(self).remote_ip_spec() == old(self).remote_ip_spec(),
            !(r matches Some(out) && out is LegacyDone),
            ({
                let sr = spec_step(
                    server,
                    online,
                    old(self).remote_ip_spec(),
                    old(self).threshold_spec(),
                    old(self).stage_view(),
                    frame.id,
                    frame.body@,
                );
                &&& final(self).stage_view() == sr.stage
                &&& final(self).sent_frames() == old(self).sent_frames() + sr.sent
                &&& final(self).threshold_spec() == sr.threshold
                &&& (match r {
                    Option::Some(out) => sr.out == Some(out_view(out)),
                    Option::None => sr.out is None,
                })
            }),
    {
        proof {
            assert(old(self).sent_frames() + Seq::<(u32, Seq<u8>)>::empty() =~= old(
                self,
            ).sent_frames());
            reveal(spec_step);
        }
        let mut stage = Stage::Ended;
        core::mem::swap(&mut stage, &mut self.stage);
        match stage {
            Stage::Probing => Some(ConnOut::Close),
            Stage::Ended => Some(ConnOut::Close),
            Stage::AwaitHandshake => self.step_handshake(server, online, &frame),
            Stage::Status(flow) => self.step_status(server, online, flow, &frame),
            Stage::Login(flow) => self.step_login(server, online, flow, &frame),
        }
    }

    /// The handshake router's step: decode the first frame and pick the
    /// next stage.
    fn step_handshake(&mut self, server: &Server, online: u32, frame: &Frame) -> (r: Option<
        ConnOut,
    >)
        requires
            old(self).wf(),
            old(self).stage_view() is Ended,
            server.wf(),
        ensures
            final(self).wf(),
            final(self).framer.recv_buffered() == old(self).framer.recv_buffered(),
            final(self).framer.recv_wire() == old(self).framer.recv_wire(),
            final(self).remote_ip_spec() == old(self).remote_ip_spec(),
            ({
                let sr = spec_step(
                    server,
                    online,
                    old(self).remote_ip_spec(),
                    old(self).threshold_spec(),
                    StageV::AwaitHandshake,
                    frame.id,
                    frame.body@,
                );
                &&& final(self).stage_view() == sr.stage
                &&& final(self).sent_frames() == old(self).sent_frames() + sr.sent
                &&& final(self).threshold_spec() == sr.threshold
                &&& (match r {
                    Option::Some(out) => sr.out == Some(out_view(out)) && !(out
                        is LegacyDone),
                    Option::None => sr.out is None,
                })
            }),
    {
        proof {
            assert(old(self).sent_frames() + Seq::<(u32, Seq<u8>)>::empty() =~= old(
                self,
            ).sent_frames());
            reveal(spec_step);
        }
        match route_handshake(frame) {
            Routed::Drop => Some(ConnOut::Close),
            Routed::Status(_h) => {
                self.stage = Stage::Status(StatusFlow::new());
                None
            },
            Routed::Login(h) => {
                let flow = LoginFlow::start(
                    server,
                    &mut self.framer,
                    h.protocol_version,
                    self.remote_ip,
                );
                self.stage = Stage::Login(flow);
                None
            },
        }
    }

    /// The status exchange's step.
    fn step_status(
        &mut self,
        server: &Server,
        online: u32,
        flow: StatusFlow,
        frame: &Frame,
    ) -> (r: Option<ConnOut>)
        requires
            old(self).wf(),
            old(self).stage_view() is Ended,
            server.wf(),
            flow.state == StatusState::AwaitRequest || flow.state == StatusState::AwaitPing,
        ensures
            final(self).wf(),
            final(self).framer.recv_buffered() == old(self).framer.recv_buffered(),
            final(self).framer.recv_wire() == old(self).framer.recv_wire(),
            final(self).remote_ip_spec() == old(self).remote_ip_spec(),
            ({
                let sr = spec_step(
                    server,
                    online,
                    old(self).remote_ip_spec(),
                    old(self).threshold_spec(),
                    StageV::Status(flow.state),
                    frame.id,
                    frame.body@,
                );
                &&& final(self).stage_view() == sr.stage
                &&& final(self).sent_frames() == old(self).sent_frames() + sr.sent
                &&& final(self).threshold_spec() == sr.threshold
                &&& (match r {
                    Option::Some(out) => sr.out == Some(out_view(out)) && !(out
                        is LegacyDone),
                    Option::None => sr.out is None,
                })
            }),
    {
        proof {
            assert(old(self).sent_frames() + Seq::<(u32, Seq<u8>)>::empty() =~= old(
                self,
            ).sent_frames());
            reveal(spec_step);
        }
        let mut flow = flow;
        flow.on_frame(server, online, &mut self.framer, frame);
        match flow.state {
            StatusState::Done => Some(ConnOut::Close),
            StatusState::Failed => Some(ConnOut::Close),
            _ => {
                self.stage = Stage::Status(flow);
                None
            },
        }
    }

    /// The login negotiation's step.
    fn step_login(
        &mut self,
        server: &Server,
        online: u32,
        flow: LoginFlow,
        frame: &Frame,
    ) -> (r: Option<ConnOut>)
        requires
            old(self).wf(),
            old(self).stage_view() is Ended,
            server.wf(),
            flow.state is AwaitHello || flow.state is Draining || flow.state matches
                LoginState::AwaitQuery { .. } || flow.state is AwaitOnline,
            flow.remote_ip == old(self).remote_ip_spec(),
        ensures
            final(self).wf(),
            final(self).framer.recv_buffered() == old(self).framer.recv_buffered(),
            final(self).framer.recv_wire() == old(self).framer.recv_wire(),
            final(self).remote_ip_spec() == old(self).remote_ip_spec(),
            ({
                let sr = spec_step(
                    server,
                    online,
                    old(self).remote_ip_spec(),
                    old(self).threshold_spec(),
                    StageV::Login(login_state_view(flow.state)),
                    frame.id,
                    frame.body@,
                );
                &&& final(self).stage_view() == sr.stage
                &&& final(self).sent_frames() == old(self).sent_frames() + sr.sent
                &&& final(self).threshold_spec() == sr.threshold
                &&& (match r {
                    Option::Some(out) => sr.out == Some(out_view(out)) && !(out
                        is LegacyDone),
                    Option::None => sr.out is None,
                })
            }),
    {
        proof {
            assert(old(self).sent_frames() + Seq::<(u32, Seq<u8>)>::empty() =~= old(
                self,
            ).sent_frames());
            reveal(spec_step);
        }
        let mut flow = flow;
        if matches!(flow.state, LoginState::AwaitOnline) {
            return Some(ConnOut::Close);
        }
        let step = flow.on_frame(server, &mut self.framer, frame);
        match step {
            LoginStep::Close => Some(ConnOut::Close),
            LoginStep::Continue => {
                self.stage = Stage::Login(flow);
                None
            },
            LoginStep::NeedOnline { username } => {
                self.stage = Stage::Login(flow);
                Some(ConnOut::NeedOnline { username })
            },
            LoginStep::Complete(info) => {
                proof {
                    if info.properties.0@.len() == 0 {
                        assert(props_view(info.properties.0@)
                            =~= Seq::<PropertyView>::empty());
                    }
                }
                Some(ConnOut::LoginComplete(info))
            },
        }
    }

    /// Complete an online-mode negotiation with the identity the pluggable
    /// strategy produced.
    pub fn complete_online(&mut self, server: &Server, info: ClientInfo) -> (r: Option<
        ClientInfo,
    >)
        requires
            old(self).wf(),
            info.uuid@.len() == 16,
            info.username@.len() <= crate::wire::MAX_STRING_LEN,
        ensures
            final(self).wf(),
            r is Some <==> old(self).awaiting_online(),
            r matches Some(ci) ==> ci.username@ == info.username@ && ci.uuid@ == info.uuid@
                && ci.ip == info.ip && final(self).sent_frames() == old(self).sent_frames()
                + crate::login::success_frames(server, info.uuid@, info.username@),
    {
        let mut stage = Stage::Ended;
        core::mem::swap(&mut stage, &mut self.stage);
        match stage {
            Stage::Login(mut flow) => {
                if matches!(flow.state, LoginState::AwaitOnline) {
                    let step = flow.complete(server, &mut self.framer, info);
                    match step {
                        LoginStep::Complete(ci) => Some(ci),
                        _ => None,
                    }
                } else {
                    None
                }
            },
            _ => None,
        }
    }
}

} // verus!
