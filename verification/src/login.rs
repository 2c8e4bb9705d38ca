//! The login negotiator: a state machine that resolves the client's
//! identity (offline derivation, proxy-forwarded verification, or a
//! pluggable online strategy), optionally arms compression, and announces
//! success.  A protocol-version mismatch short-circuits everything with a
//! disconnect reason that names both versions and never a success frame.

use vstd::prelude::*;
use vstd::string::StringSliceAdditionalSpecFns;
use crate::digest::md5_digest;
use crate::digest::md5_of;
use crate::dispatch::{ConnectionMode, Server};
use crate::frame::{Frame, MAX_BODY_LEN};
use crate::framer::Framer;
use crate::ip::IpValue;
use crate::packets::{
    ID_LOGIN_COMPRESSION, ID_LOGIN_HELLO, ID_LOGIN_QUERY, ID_LOGIN_SUCCESS,
    encode_login_compression, encode_login_disconnect, encode_login_query,
    encode_login_success, login_compression_body, login_disconnect_body, login_query_body,
    login_success_body, parse_login_hello, parse_login_query_response,
    spec_parse_login_hello, spec_parse_login_query_response,
};
use crate::status::{dec_int, lemma_encode_utf8_len, write_dec_i32};
use crate::velocity::{
    ClientInfo, FORWARDING_MIN_VERSION, Properties, spec_parse_forwarded, verify_forwarded,
    props_view,
};
use crate::wire::{MAX_STRING_LEN, write_bytes};

verus! {

// ---------------------------------------------------------------- offline identity

/// The fixed prefix digested together with the username.
pub open spec fn offline_prefix() -> Seq<u8> {
    "OfflinePlayer:".spec_bytes()
}

/// The offline identity: the 16-byte digest of the prefixed username,
/// taken as the id verbatim.  Pure in the username, so the derivation is
/// deterministic.
pub open spec fn offline_uuid_of(username: Seq<u8>) -> Seq<u8> {
    md5_of(offline_prefix() + username)
}

/// Derive the offline id for a username.
pub fn offline_uuid(username: &[u8]) -> (r: Vec<u8>)
    ensures
        r@ == offline_uuid_of(username@),
        r@.len() == 16,
{
    let mut data: Vec<u8> = Vec::new();
    write_bytes("OfflinePlayer:".as_bytes(), &mut data);
    write_bytes(username, &mut data);
    assert(data@ =~= offline_prefix() + username@);
    md5_digest(data.as_slice())
}

/// The derivation is a function of the username alone: equal usernames
/// give the identical id.
pub proof fn lemma_offline_uuid_deterministic(u1: Seq<u8>, u2: Seq<u8>)
    requires
        u1 == u2,
    ensures
        offline_uuid_of(u1) == offline_uuid_of(u2),
{
}

// ---------------------------------------------------------------- the disconnect reason

/// The disconnect reason sent on a protocol-version mismatch: names the
/// server's protocol version and the client's.
pub open spec fn mismatch_reason_json(server_pv: int, client_pv: int) -> Seq<u8> {
    "{\"text\":\"Mismatched Minecraft version (server is on protocol ".spec_bytes() + dec_int(
        server_pv,
    ) + ", client is on protocol ".spec_bytes() + dec_int(client_pv)
        + ")\",\"color\":\"red\"}".spec_bytes()
}

/// Build the mismatch reason document.
fn build_mismatch_reason(server_pv: i32, client_pv: i32) -> (r: Vec<u8>)
    ensures
        r@ == mismatch_reason_json(server_pv as int, client_pv as int),
{
    let mut out: Vec<u8> = Vec::new();
    write_bytes(
        "{\"text\":\"Mismatched Minecraft version (server is on protocol ".as_bytes(),
        &mut out,
    );
    write_dec_i32(server_pv, &mut out);
    write_bytes(", client is on protocol ".as_bytes(), &mut out);
    write_dec_i32(client_pv, &mut out);
    write_bytes(")\",\"color\":\"red\"}".as_bytes(), &mut out);
    assert(out@ =~= mismatch_reason_json(server_pv as int, client_pv as int));
    out
}

proof fn lemma_mismatch_reason_len(server_pv: int, client_pv: int)
    requires
        -0x8000_0000 <= server_pv < 0x8000_0000,
        -0x8000_0000 <= client_pv < 0x8000_0000,
    ensures
        mismatch_reason_json(server_pv, client_pv).len() + 5 <= MAX_BODY_LEN,
{
    reveal_strlit("{\"text\":\"Mismatched Minecraft version (server is on protocol ");
    reveal_strlit(", client is on protocol ");
    reveal_strlit(")\",\"color\":\"red\"}");
    lemma_encode_utf8_len("{\"text\":\"Mismatched Minecraft version (server is on protocol "@);
    lemma_encode_utf8_len(", client is on protocol "@);
    lemma_encode_utf8_len(")\",\"color\":\"red\"}"@);
    lemma_dec_int_len(server_pv);
    lemma_dec_int_len(client_pv);
}

proof fn lemma_dec_int_len(n: int)
    requires
        -0x8000_0000 <= n < 0x8000_0000,
    ensures
        dec_int(n).len() <= 11,
{
    if n >= 0 {
        crate::status::lemma_dec_nat_len(n as nat);
    } else {
        crate::status::lemma_dec_nat_len((-n) as nat);
    }
}

// ---------------------------------------------------------------- the state machine

/// The channel the proxy-forwarding query travels on.
pub open spec fn forwarding_channel() -> Seq<u8> {
    "velocity:player_info".spec_bytes()
}

/// The frames that announce a successful login: the compression
/// announcement when a positive threshold is configured, then the success
/// frame with the resolved id and username.
pub open spec fn success_frames(server: &Server, uuid: Seq<u8>, username: Seq<u8>) -> Seq<
    (u32, Seq<u8>),
> {
    if server.threshold > 0 {
        seq![
            (ID_LOGIN_COMPRESSION, login_compression_body(server.threshold as u32)),
            (ID_LOGIN_SUCCESS, login_success_body(uuid, username)),
        ]
    } else {
        seq![(ID_LOGIN_SUCCESS, login_success_body(uuid, username))]
    }
}

/// The framer's compression threshold after success is announced: armed
/// at the configured value when it is positive, untouched otherwise.
pub open spec fn armed_threshold(server: &Server, before: Option<u32>) -> Option<u32> {
    if server.threshold > 0 {
        Some(server.threshold as u32)
    } else {
        before
    }
}

/// Where the login negotiation stands.
pub enum LoginState {
    /// Waiting for the client's hello.
    AwaitHello,
    /// A version mismatch was answered; waiting for one frame as a
    /// best-effort acknowledgment, then the connection ends.
    Draining,
    /// Waiting for the proxy-forwarding response.
    AwaitQuery {
        /// The username the client declared.
        username: Vec<u8>,
    },
    /// Waiting for the pluggable online strategy to produce an identity.
    AwaitOnline,
    /// Success was announced; the connection moves to a session.
    Done,
    /// The negotiation failed; the connection is dropped.
    Failed,
}

/// What the driver must do after a step.
pub enum LoginStep {
    /// Keep feeding frames.
    Continue,
    /// End the connection without a session.
    Close,
    /// Hand the declared username to the online verification strategy;
    /// its identity completes the negotiation through `complete`.
    NeedOnline {
        /// The declared username.
        username: Vec<u8>,
    },
    /// The negotiation succeeded with this identity.
    Complete(ClientInfo),
}

/// The login negotiator's state machine.
pub struct LoginFlow {
    /// Where the negotiation stands.
    pub state: LoginState,
    /// The peer address, used by the offline identity.
    pub remote_ip: IpValue,
}

impl LoginFlow {
    /// Begin a negotiation for a client that declared `client_pv` in its
    /// handshake.  On a version mismatch the disconnect reason goes out at
    /// once, naming both versions, and no success frame can follow.
    pub fn start(server: &Server, framer: &mut Framer, client_pv: i32, remote_ip: IpValue) -> (r:
        LoginFlow)
        requires
            old(framer).wf(),
        ensures
            final(framer).wf(),
            final(framer).recv_wire() == old(framer).recv_wire(),
            final(framer).recv_buffered() == old(framer).recv_buffered(),
            final(framer).recv_consumed() == old(framer).recv_consumed(),
            final(framer).recv_key() == old(framer).recv_key(),
            final(framer).send_key() == old(framer).send_key(),
            final(framer).threshold_spec() == old(framer).threshold_spec(),
            r.remote_ip == remote_ip,
            client_pv == server.protocol_version ==> r.state == LoginState::AwaitHello && final(framer).sent_frames() == old(framer).sent_frames(),
            client_pv != server.protocol_version ==> r.state == LoginState::Draining && final(framer).sent_frames() == old(framer).sent_frames() + seq![
                (
                    ID_LOGIN_HELLO,
                    login_disconnect_body(
                        mismatch_reason_json(server.protocol_version as int, client_pv as int),
                    ),
                ),
            ],
    {
        if client_pv != server.protocol_version {
            let reason = build_mismatch_reason(server.protocol_version, client_pv);
            proof {
                lemma_mismatch_reason_len(server.protocol_version as int, client_pv as int);
                crate::varint::lemma_varint_bytes_len(reason@.len());
                crate::varint::lemma_pow128_values();
            }
            let body = encode_login_disconnect(reason.as_slice());
            framer.send_frame(ID_LOGIN_HELLO, body.as_slice());
            LoginFlow { state: LoginState::Draining, remote_ip }
        } else {
            LoginFlow { state: LoginState::AwaitHello, remote_ip }
        }
    }

    /// Announce success for a resolved identity: arm compression when a
    /// positive threshold is configured, then send the success frame.
    fn announce(server: &Server, framer: &mut Framer, uuid: &[u8], username: &[u8])
        requires
            old(framer).wf(),
            uuid@.len() == 16,
            username@.len() <= MAX_STRING_LEN,
        ensures
            final(framer).wf(),
            final(framer).recv_wire() == old(framer).recv_wire(),
            final(framer).recv_buffered() == old(framer).recv_buffered(),
            final(framer).recv_consumed() == old(framer).recv_consumed(),
            final(framer).recv_key() == old(framer).recv_key(),
            final(framer).send_key() == old(framer).send_key(),
            final(framer).sent_frames() == old(framer).sent_frames() + success_frames(
                server,
                uuid@,
                username@,
            ),
            final(framer).threshold_spec() == (if server.threshold > 0 {
                Some(server.threshold as u32)
            } else {
                old(framer).threshold_spec()
            }),
    {
        proof {
            crate::varint::lemma_varint_bytes_len(username@.len());
            crate::varint::lemma_pow128_values();
        }
        if server.threshold > 0 {
            let t = server.threshold as u32;
            proof {
                crate::varint::lemma_varint_bytes_len(t as nat);
            }
            let body = encode_login_compression(t);
            framer.send_frame(ID_LOGIN_COMPRESSION, body.as_slice());
            framer.set_compression(t);
        }
        let body = encode_login_success(uuid, username);
        framer.send_frame(ID_LOGIN_SUCCESS, body.as_slice());
        proof {
            assert(final(framer).sent_frames() =~= old(framer).sent_frames()
                + success_frames(server, uuid@, username@));
        }
    }

    /// Complete the negotiation with an identity produced by the online
    /// verification strategy.
    pub fn complete(&mut self, server: &Server, framer: &mut Framer, info: ClientInfo) -> (r:
        LoginStep)
        requires
            old(self).state is AwaitOnline,
            old(framer).wf(),
            info.uuid@.len() == 16,
            info.username@.len() <= MAX_STRING_LEN,
        ensures
            final(self).remote_ip == old(self).remote_ip,
            final(self).state is Done,
            final(framer).wf(),
            final(framer).recv_buffered() == old(framer).recv_buffered(),
            final(framer).recv_key() == old(framer).recv_key(),
            final(framer).send_key() == old(framer).send_key(),
            final(framer).sent_frames() == old(framer).sent_frames() + success_frames(
                server,
                info.uuid@,
                info.username@,
            ),
            final(framer).threshold_spec() == armed_threshold(
                server,
                old(framer).threshold_spec(),
            ),
            r matches LoginStep::Complete(ci) && ci.username@ == info.username@ && ci.uuid@
                == info.uuid@ && ci.ip == info.ip,
    {
        Self::announce(server, framer, info.uuid.as_slice(), info.username.as_slice());
        self.state = LoginState::Done;
        LoginStep::Complete(info)
    }

    /// Drive the negotiation with one received frame.
    pub fn on_frame(&mut self, server: &Server, framer: &mut Framer, frame: &Frame) -> (r:
        LoginStep)
        requires
            old(self).state is AwaitHello || old(self).state is Draining || old(self).state matches LoginState::AwaitQuery { .. },
            old(framer).wf(),
        ensures
            final(self).remote_ip == old(self).remote_ip,
            final(framer).wf(),
            final(framer).recv_wire() == old(framer).recv_wire(),
            final(framer).recv_buffered() == old(framer).recv_buffered(),
            final(framer).recv_consumed() == old(framer).recv_consumed(),
            final(framer).recv_key() == old(framer).recv_key(),
            final(framer).send_key() == old(framer).send_key(),
            old(self).state is Draining ==> final(self).state is Failed && r is Close && final(framer).sent_frames() == old(framer).sent_frames() && final(framer).threshold_spec() == old(framer).threshold_spec(),
            old(self).state is AwaitHello ==> (
            if frame.id == ID_LOGIN_HELLO && spec_parse_login_hello(frame.body@) is Some {
                let name = (spec_parse_login_hello(frame.body@)->0).0;
                match server.connection_mode {
                    ConnectionMode::Offline => {
                        &&& final(self).state is Done
                        &&& r matches LoginStep::Complete(ci)
                        &&& ci.username@ == name
                        &&& ci.uuid@ == offline_uuid_of(name)
                        &&& ci.ip == old(self).remote_ip
                        &&& ci.properties.0@.len() == 0
                        &&& final(framer).sent_frames() == old(framer).sent_frames()
                            + success_frames(server, offline_uuid_of(name), name)
                        &&& final(framer).threshold_spec() == armed_threshold(
                            server,
                            old(framer).threshold_spec(),
                        )
                    },
                    ConnectionMode::Velocity { .. } => {
                        &&& final(self).state matches LoginState::AwaitQuery { username }
                            && username@ == name
                        &&& r is Continue
                        &&& final(framer).sent_frames() == old(framer).sent_frames() + seq![
                            (
                                ID_LOGIN_QUERY,
                                login_query_body(0, forwarding_channel(), seq![1u8]),
                            ),
                        ]
                        &&& final(framer).threshold_spec() == old(framer).threshold_spec()
                    },
                    ConnectionMode::Online => {
                        &&& final(self).state is AwaitOnline
                        &&& r matches LoginStep::NeedOnline { username } && username@ == name
                        &&& final(framer).sent_frames() == old(framer).sent_frames()
                        &&& final(framer).threshold_spec() == old(framer).threshold_spec()
                    },
                }
            } else {
                final(self).state is Failed && r is Close && final(framer).sent_frames() == old(framer).sent_frames() && final(framer).threshold_spec() == old(framer).threshold_spec()
            }),
            old(self).state matches LoginState::AwaitQuery { username: declared } ==> (
            if frame.id == ID_LOGIN_SUCCESS && (spec_parse_login_query_response(frame.body@)
                matches Some((mid, data)) && mid == 0 && data is Some) && (
            server.connection_mode matches ConnectionMode::Velocity { .. }) {
                let payload = ((spec_parse_login_query_response(frame.body@)->0).1)->0;
                let secret = server.connection_mode->Velocity_secret;
                if payload.len() >= 32 && hmac_of_matches(secret@, payload)
                    && spec_parse_forwarded(payload.skip(32)) is Some && (spec_parse_forwarded(payload.skip(32))->0).3 == declared@ {
                    let parsed = spec_parse_forwarded(payload.skip(32))->0;
                    &&& final(self).state is Done
                    &&& r matches LoginStep::Complete(ci)
                    &&& ci.ip == parsed.1
                    &&& ci.uuid@ == parsed.2
                    &&& ci.username@ == parsed.3
                    &&& props_view(ci.properties.0@) == parsed.4
                    &&& final(framer).sent_frames() == old(framer).sent_frames()
                        + success_frames(server, parsed.2, parsed.3)
                    &&& final(framer).threshold_spec() == armed_threshold(
                        server,
                        old(framer).threshold_spec(),
                    )
                } else {
                    final(self).state is Failed && r is Close && final(framer).sent_frames()
                        == old(framer).sent_frames() && final(framer).threshold_spec() == old(framer).threshold_spec()
                }
            } else {
                final(self).state is Failed && r is Close && final(framer).sent_frames() == old(framer).sent_frames() && final(framer).threshold_spec() == old(framer).threshold_spec()
            }),
    {
        let mut state = LoginState::Failed;
        core::mem::swap(&mut state, &mut self.state);
        match state {
            LoginState::Draining => {
                self.state = LoginState::Failed;
                LoginStep::Close
            },
            LoginState::AwaitHello => {
                if frame.id != ID_LOGIN_HELLO {
                    self.state = LoginState::Failed;
                    return LoginStep::Close;
                }
                match parse_login_hello(frame.body.as_slice()) {
                    None => {
                        self.state = LoginState::Failed;
                        LoginStep::Close
                    },
                    Some((name, _profile_id)) => {
                        match &server.connection_mode {
                            ConnectionMode::Offline => {
                                let uuid = offline_uuid(name.as_slice());
                                let info = ClientInfo {
                                    username: name,
                                    uuid,
                                    ip: self.remote_ip,
                                    properties: Properties(Vec::new()),
                                };
                                proof {
                                    lemma_hello_name_len(frame.body@);
                                }
                                Self::announce(
                                    server,
                                    framer,
                                    info.uuid.as_slice(),
                                    info.username.as_slice(),
                                );
                                self.state = LoginState::Done;
                                LoginStep::Complete(info)
                            },
                            ConnectionMode::Velocity { secret: _ } => {
                                let mut data: Vec<u8> = Vec::new();
                                data.push(FORWARDING_MIN_VERSION);
                                proof {
                                    reveal_strlit("velocity:player_info");
                                    lemma_encode_utf8_len("velocity:player_info"@);
                                    crate::varint::lemma_varint_bytes_len(
                                        forwarding_channel().len(),
                                    );
                                    crate::varint::lemma_pow128_values();
                                    assert(data@ =~= seq![1u8]);
                                }
                                let body = encode_login_query(
                                    0,
                                    "velocity:player_info".as_bytes(),
                                    data.as_slice(),
                                );
                                framer.send_frame(ID_LOGIN_QUERY, body.as_slice());
                                self.state = LoginState::AwaitQuery { username: name };
                                LoginStep::Continue
                            },
                            ConnectionMode::Online => {
                                self.state = LoginState::AwaitOnline;
                                LoginStep::NeedOnline { username: name }
                            },
                        }
                    },
                }
            },
            LoginState::AwaitQuery { username: declared } => {
                if frame.id != ID_LOGIN_SUCCESS {
                    self.state = LoginState::Failed;
                    return LoginStep::Close;
                }
                match parse_login_query_response(frame.body.as_slice()) {
                    None => {
                        self.state = LoginState::Failed;
                        LoginStep::Close
                    },
                    Some((mid, data)) => {
                        if mid != 0 {
                            self.state = LoginState::Failed;
                            return LoginStep::Close;
                        }
                        let payload = match data {
                            Some(d) => d,
                            None => {
                                self.state = LoginState::Failed;
                                return LoginStep::Close;
                            },
                        };
                        let secret = match &server.connection_mode {
                            ConnectionMode::Velocity { secret } => secret,
                            _ => {
                                self.state = LoginState::Failed;
                                return LoginStep::Close;
                            },
                        };
                        match verify_forwarded(
                            secret.as_slice(),
                            declared.as_slice(),
                            payload.as_slice(),
                        ) {
                            Err(_) => {
                                self.state = LoginState::Failed;
                                LoginStep::Close
                            },
                            Ok(info) => {
                                proof {
                                    lemma_forwarded_name_len(payload@.skip(32));
                                }
                                Self::announce(
                                    server,
                                    framer,
                                    info.uuid.as_slice(),
                                    info.username.as_slice(),
                                );
                                self.state = LoginState::Done;
                                LoginStep::Complete(info)
                            },
                        }
                    },
                }
            },
            LoginState::AwaitOnline => {
                self.state = LoginState::Failed;
                LoginStep::Close
            },
            LoginState::Done => {
                self.state = LoginState::Failed;
                LoginStep::Close
            },
            LoginState::Failed => {
                self.state = LoginState::Failed;
                LoginStep::Close
            },
        }
    }
}

/// Whether the first 32 payload bytes are the tag of the rest.
pub open spec fn hmac_of_matches(secret: Seq<u8>, payload: Seq<u8>) -> bool {
    crate::digest::hmac_sha256_of(secret, payload.skip(32)) == payload.subrange(0, 32)
}

/// A username field of a hello body fits the string cap and the success
/// body it ends up in.
proof fn lemma_hello_name_len(b: Seq<u8>)
    ensures
        spec_parse_login_hello(b) matches Some((name, _)) ==> name.len() <= MAX_STRING_LEN
            && name.len() + 22 <= MAX_BODY_LEN,
{
}

/// A username field of a forwarded payload fits the string cap and the
/// success body it ends up in.
proof fn lemma_forwarded_name_len(rest: Seq<u8>)
    ensures
        spec_parse_forwarded(rest) matches Some((v, ip, uuid, name, props)) ==> name.len()
            <= MAX_STRING_LEN && name.len() + 22 <= MAX_BODY_LEN && uuid.len() == 16,
{
}

} // verus!
