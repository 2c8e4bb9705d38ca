//! The status and login exchanges driven end to end through the
//! connection driver, with a framer playing the client.

use hmac::Mac;
use netgate::dispatch::{ClientLoginEvent, ConnectionMode, Core, Server};
use netgate::framer::{Framer, RecvStep};
use netgate::handshake::{ConnOut, Connection};
use netgate::ip::IpValue;

fn server(mode: ConnectionMode, threshold: i32) -> Server {
    Server {
        version_name: b"1.20.1".to_vec(),
        protocol_version: 763,
        max_players: 20,
        motd: b"A Verified \"Server\"".to_vec(),
        favicon: Vec::new(),
        connection_mode: mode,
        threshold,
    }
}

fn client_frame(id: u32, body: &[u8]) -> Vec<u8> {
    let mut c = Framer::new();
    c.send_frame(id, body);
    c.take_outgoing()
}

fn handshake_bytes(protocol: u32, next: u32) -> Vec<u8> {
    let body = netgate::packets::encode_handshake(protocol, b"localhost", 25565, next);
    client_frame(netgate::packets::ID_HANDSHAKE, body.as_slice())
}

fn expect_frame(step: RecvStep) -> (u32, Vec<u8>) {
    match step {
        RecvStep::Frame(f) => (f.id, f.body),
        _ => panic!("expected a frame"),
    }
}

#[test]
fn status_exchange_returns_valid_json_and_echoes_the_ping() {
    let server = server(ConnectionMode::Offline, 0);
    let mut conn = Connection::new(IpValue::V4(127, 0, 0, 1));
    let out = conn.on_data(&server, 3, handshake_bytes(763, 1).as_slice());
    assert!(matches!(out, ConnOut::Continue));

    let request = client_frame(netgate::packets::ID_STATUS_QUERY, b"");
    let out = conn.on_data(&server, 3, request.as_slice());
    assert!(matches!(out, ConnOut::Continue));

    let mut client = Framer::new();
    client.feed(conn.take_outgoing().as_slice());
    let (id, body) = expect_frame(client.try_next());
    assert_eq!(id, netgate::packets::ID_STATUS_QUERY);
    let (json_bytes, end) =
        netgate::wire::read_prefixed_bytes(body.as_slice(), 0, 1 << 21).unwrap();
    assert_eq!(end, body.len());
    let doc: serde_json::Value = serde_json::from_slice(json_bytes.as_slice()).unwrap();
    assert_eq!(doc["version"]["name"], "1.20.1");
    assert_eq!(doc["version"]["protocol"], 763);
    assert_eq!(doc["players"]["max"], 20);
    assert_eq!(doc["players"]["online"], 3);
    assert!(doc["players"]["sample"].as_array().unwrap().is_empty());
    assert_eq!(doc["description"]["text"], "A Verified \"Server\"");
    assert_eq!(doc["favicon"], "");
    assert_eq!(doc["enforcesSecureChat"], true);
    assert_eq!(doc["previewsChat"], true);

    let ping = client_frame(netgate::packets::ID_STATUS_PING, &[1, 2, 3, 4, 5, 6, 7, 8]);
    let out = conn.on_data(&server, 3, ping.as_slice());
    assert!(matches!(out, ConnOut::Close));
    client.feed(conn.take_outgoing().as_slice());
    let (id, body) = expect_frame(client.try_next());
    assert_eq!(id, netgate::packets::ID_STATUS_PING);
    assert_eq!(body.as_slice(), &[1, 2, 3, 4, 5, 6, 7, 8]);
}

#[test]
fn offline_login_completes_and_spawns_a_session() {
    let server = server(ConnectionMode::Offline, 0);
    let mut core = Core::new(server);
    let mut conn = Connection::new(IpValue::V4(10, 0, 0, 9));
    let out = conn.on_data(&core.server, 0, handshake_bytes(763, 2).as_slice());
    assert!(matches!(out, ConnOut::Continue));

    let hello_body = netgate::packets::encode_login_hello(b"Notch", None);
    let hello = client_frame(netgate::packets::ID_LOGIN_HELLO, hello_body.as_slice());
    let out = conn.on_data(&core.server, 0, hello.as_slice());
    let info = match out {
        ConnOut::LoginComplete(info) => info,
        _ => panic!("expected a completed login"),
    };
    assert_eq!(info.username.as_slice(), b"Notch");
    let expect_uuid = md5::compute(b"OfflinePlayer:Notch").0.to_vec();
    assert_eq!(info.uuid, expect_uuid);
    assert_eq!(info.ip, IpValue::V4(10, 0, 0, 9));
    assert!(info.properties.0.is_empty());

    // the client sees exactly one frame: login success with id and name
    let mut client = Framer::new();
    client.feed(conn.take_outgoing().as_slice());
    let (id, body) = expect_frame(client.try_next());
    assert_eq!(id, netgate::packets::ID_LOGIN_SUCCESS);
    assert_eq!(&body[..16], expect_uuid.as_slice());
    let (name, _) = netgate::wire::read_prefixed_bytes(body.as_slice(), 16, 64).unwrap();
    assert_eq!(name.as_slice(), b"Notch");
    assert!(matches!(client.try_next(), RecvStep::More));

    let session = core.handle_client_login(ClientLoginEvent {
        packet_io: conn.into_framer(),
        info,
    });
    assert!(session.is_some());
    assert_eq!(core.session_count(), 1);
    assert_eq!(core.online(), 1);
}

#[test]
fn offline_uuid_is_deterministic_and_sensitive_to_the_name() {
    let a = netgate::login::offline_uuid(b"Notch");
    let b = netgate::login::offline_uuid(b"Notch");
    assert_eq!(a, b);
    assert_eq!(a, md5::compute(b"OfflinePlayer:Notch").0.to_vec());
    let c = netgate::login::offline_uuid(b"notch");
    assert_ne!(a, c);
}

#[test]
fn positive_threshold_announces_and_arms_compression() {
    let server = server(ConnectionMode::Offline, 256);
    let mut conn = Connection::new(IpValue::V4(10, 0, 0, 9));
    conn.on_data(&server, 0, handshake_bytes(763, 2).as_slice());
    let hello_body = netgate::packets::encode_login_hello(b"Notch", None);
    let hello = client_frame(netgate::packets::ID_LOGIN_HELLO, hello_body.as_slice());
    let out = conn.on_data(&server, 0, hello.as_slice());
    assert!(matches!(out, ConnOut::LoginComplete(_)));

    let mut client = Framer::new();
    client.feed(conn.take_outgoing().as_slice());
    let (id, body) = expect_frame(client.try_next());
    assert_eq!(id, netgate::packets::ID_LOGIN_COMPRESSION);
    assert_eq!(
        netgate::wire::read_varint(body.as_slice(), 0),
        Some((256, body.len()))
    );
    // frames after the announcement use the compressed format
    client.set_compression(256);
    let (id, body) = expect_frame(client.try_next());
    assert_eq!(id, netgate::packets::ID_LOGIN_SUCCESS);
    assert_eq!(&body[..16], md5::compute(b"OfflinePlayer:Notch").0.as_slice());
}

#[test]
fn version_mismatch_disconnects_with_both_versions_and_no_success() {
    let server = server(ConnectionMode::Offline, 0);
    let mut conn = Connection::new(IpValue::V4(127, 0, 0, 1));
    let out = conn.on_data(&server, 0, handshake_bytes(760, 2).as_slice());
    assert!(matches!(out, ConnOut::Continue));

    let mut client = Framer::new();
    client.feed(conn.take_outgoing().as_slice());
    let (id, body) = expect_frame(client.try_next());
    assert_eq!(id, netgate::packets::ID_LOGIN_HELLO);
    let (reason, end) = netgate::wire::read_prefixed_bytes(body.as_slice(), 0, 1 << 16).unwrap();
    assert_eq!(end, body.len());
    let text = String::from_utf8(reason).unwrap();
    assert!(text.contains("763"));
    assert!(text.contains("760"));
    // nothing else was sent
    assert!(matches!(client.try_next(), RecvStep::More));

    // a best-effort acknowledgment frame ends the connection, still with
    // no success frame
    let hello_body = netgate::packets::encode_login_hello(b"Notch", None);
    let hello = client_frame(netgate::packets::ID_LOGIN_HELLO, hello_body.as_slice());
    let out = conn.on_data(&server, 0, hello.as_slice());
    assert!(matches!(out, ConnOut::Close));
    assert!(conn.take_outgoing().is_empty());
}

#[test]
fn silent_connection_does_not_block_another() {
    let server = server(ConnectionMode::Offline, 0);
    let mut core = Core::new(server);

    // connection A: handshake for login, then silence
    let mut stalled = Connection::new(IpValue::V4(10, 0, 0, 1));
    let out = stalled.on_data(&core.server, 0, handshake_bytes(763, 2).as_slice());
    assert!(matches!(out, ConnOut::Continue));

    // connection B proceeds to a full login meanwhile
    let mut live = Connection::new(IpValue::V4(10, 0, 0, 2));
    live.on_data(&core.server, 0, handshake_bytes(763, 2).as_slice());
    let hello_body = netgate::packets::encode_login_hello(b"Second", None);
    let hello = client_frame(netgate::packets::ID_LOGIN_HELLO, hello_body.as_slice());
    let out = live.on_data(&core.server, 0, hello.as_slice());
    let info = match out {
        ConnOut::LoginComplete(info) => info,
        _ => panic!("expected a completed login"),
    };
    let id = core
        .handle_client_login(ClientLoginEvent {
            packet_io: live.into_framer(),
            info,
        })
        .unwrap();
    assert!(core.has_session(id));
    assert_eq!(core.session_count(), 1);

    // the stalled connection still holds no reply and no session
    assert!(stalled.take_outgoing().is_empty());
}

#[test]
fn velocity_login_round_trip() {
    let secret = b"SECRET-REDACTED".to_vec();
    let server = server(
        ConnectionMode::Velocity {
            secret: secret.clone(),
        },
        0,
    );
    let mut conn = Connection::new(IpValue::V4(127, 0, 0, 1));
    conn.on_data(&server, 0, handshake_bytes(763, 2).as_slice());
    let hello_body = netgate::packets::encode_login_hello(b"Notch", None);
    let hello = client_frame(netgate::packets::ID_LOGIN_HELLO, hello_body.as_slice());
    let out = conn.on_data(&server, 0, hello.as_slice());
    assert!(matches!(out, ConnOut::Continue));

    // the proxy side receives the query
    let mut client = Framer::new();
    client.feed(conn.take_outgoing().as_slice());
    let (id, body) = match client.try_next() {
        RecvStep::Frame(f) => (f.id, f.body),
        _ => panic!("expected the query frame"),
    };
    assert_eq!(id, netgate::packets::ID_LOGIN_QUERY);
    let (mid, p1) = netgate::wire::read_varint(body.as_slice(), 0).unwrap();
    assert_eq!(mid, 0);
    let (channel, p2) = netgate::wire::read_prefixed_bytes(body.as_slice(), p1, 256).unwrap();
    assert_eq!(channel.as_slice(), b"velocity:player_info");
    assert_eq!(&body[p2..], &[1]);

    // it answers with a signed identity
    let mut rest: Vec<u8> = Vec::new();
    netgate::wire::write_varint(1, &mut rest);
    netgate::wire::write_prefixed_bytes(b"198.51.100.4", &mut rest);
    let uuid = [0xabu8; 16];
    netgate::wire::write_bytes(&uuid, &mut rest);
    netgate::wire::write_prefixed_bytes(b"Notch", &mut rest);
    netgate::wire::write_varint(0, &mut rest);
    let mut mac = hmac::Hmac::<sha2::Sha256>::new_from_slice(secret.as_slice()).unwrap();
    mac.update(rest.as_slice());
    let mut payload = mac.finalize().into_bytes().to_vec();
    payload.extend_from_slice(rest.as_slice());

    let response_body =
        netgate::packets::encode_login_query_response(0, Some(payload.as_slice()));
    let response = client_frame(netgate::packets::ID_LOGIN_SUCCESS, response_body.as_slice());
    let out = conn.on_data(&server, 0, response.as_slice());
    let info = match out {
        ConnOut::LoginComplete(info) => info,
        _ => panic!("expected a completed login"),
    };
    assert_eq!(info.username.as_slice(), b"Notch");
    assert_eq!(info.uuid.as_slice(), &uuid);
    assert_eq!(info.ip, IpValue::V4(198, 51, 100, 4));
}

#[test]
fn legacy_probe_answers_and_ends_the_connection() {
    let server = server(ConnectionMode::Offline, 0);
    let mut conn = Connection::new(IpValue::V4(127, 0, 0, 1));
    let out = conn.on_data(&server, 2, &[0xfe, 0x01]);
    assert!(matches!(out, ConnOut::LegacyDone));
    let reply = conn.take_outgoing();
    assert_eq!(reply[0], 0xff);
    // the length field counts two-byte units
    let units = ((reply[1] as usize) << 8) | reply[2] as usize;
    assert_eq!(reply.len(), 3 + 2 * units);
    // the payload opens with the legacy magic
    assert_eq!(&reply[3..9], &[0x00, 0xa7, 0x00, 0x31, 0x00, 0x00]);
}

#[test]
fn malformed_handshake_drops_the_connection() {
    let server = server(ConnectionMode::Offline, 0);
    let mut conn = Connection::new(IpValue::V4(127, 0, 0, 1));
    let bad = client_frame(netgate::packets::ID_HANDSHAKE, b"\x01");
    let out = conn.on_data(&server, 0, bad.as_slice());
    assert!(matches!(out, ConnOut::Close));
    assert!(conn.take_outgoing().is_empty());
}

#[test]
fn invalid_utf8_username_drops_the_connection() {
    let server = server(ConnectionMode::Offline, 0);
    let mut conn = Connection::new(IpValue::V4(127, 0, 0, 1));
    conn.on_data(&server, 0, handshake_bytes(763, 2).as_slice());
    let mut body: Vec<u8> = Vec::new();
    netgate::wire::write_prefixed_bytes(&[0xff, 0xfe], &mut body);
    body.push(0);
    let hello = client_frame(netgate::packets::ID_LOGIN_HELLO, body.as_slice());
    let out = conn.on_data(&server, 0, hello.as_slice());
    assert!(matches!(out, ConnOut::Close));
}

#[test]
fn status_document_bytes_are_exact() {
    let server = server(ConnectionMode::Offline, 0);
    let json = netgate::status::build_status_json(&server, 3);
    let mut expect = String::new();
    expect.push_str("{\"version\":{\"name\":\"1.20.1\",\"protocol\":763},");
    expect.push_str("\"players\":{\"max\":20,\"online\":3,\"sample\":[]},");
    expect.push_str("\"description\":{\"text\":\"A Verified \\\"Server\\\"\"},");
    expect.push_str("\"favicon\":\"\",");
    expect.push_str("\"enforcesSecureChat\":true,\"previewsChat\":true}");
    assert_eq!(String::from_utf8(json).unwrap(), expect);
}

#[test]
fn online_mode_hands_off_to_the_pluggable_strategy() {
    let server = server(ConnectionMode::Online, 0);
    let mut conn = Connection::new(IpValue::V4(127, 0, 0, 1));
    conn.on_data(&server, 0, handshake_bytes(763, 2).as_slice());
    let hello_body = netgate::packets::encode_login_hello(b"Notch", None);
    let hello = client_frame(netgate::packets::ID_LOGIN_HELLO, hello_body.as_slice());
    let out = conn.on_data(&server, 0, hello.as_slice());
    let username = match out {
        ConnOut::NeedOnline { username } => username,
        _ => panic!("expected a hand-off to the online strategy"),
    };
    assert_eq!(username.as_slice(), b"Notch");
    // nothing was sent while the strategy runs
    assert!(conn.take_outgoing().is_empty());

    // the strategy supplies a verified identity; login then finishes with
    // the same success frames as the other modes
    let info = netgate::velocity::ClientInfo {
        username,
        uuid: vec![5u8; 16],
        ip: IpValue::V4(127, 0, 0, 1),
        properties: netgate::velocity::Properties(Vec::new()),
    };
    let done = conn.complete_online(&server, info);
    let done = done.expect("completed");
    assert_eq!(done.username.as_slice(), b"Notch");
    let mut client = Framer::new();
    client.feed(conn.take_outgoing().as_slice());
    let (id, body) = expect_frame(client.try_next());
    assert_eq!(id, netgate::packets::ID_LOGIN_SUCCESS);
    assert_eq!(&body[..16], &[5u8; 16]);
}

#[test]
fn whole_status_exchange_in_one_read() {
    let server = server(ConnectionMode::Offline, 0);
    let mut conn = Connection::new(IpValue::V4(127, 0, 0, 1));
    let mut stream = handshake_bytes(763, 1);
    stream.extend_from_slice(client_frame(netgate::packets::ID_STATUS_QUERY, b"").as_slice());
    stream.extend_from_slice(
        client_frame(netgate::packets::ID_STATUS_PING, &[9, 9, 9, 9, 9, 9, 9, 9]).as_slice(),
    );
    let out = conn.on_data(&server, 0, stream.as_slice());
    assert!(matches!(out, ConnOut::Close));

    // both replies were produced, in order
    let mut client = Framer::new();
    client.feed(conn.take_outgoing().as_slice());
    let (id, _) = expect_frame(client.try_next());
    assert_eq!(id, netgate::packets::ID_STATUS_QUERY);
    let (id, body) = expect_frame(client.try_next());
    assert_eq!(id, netgate::packets::ID_STATUS_PING);
    assert_eq!(body.as_slice(), &[9, 9, 9, 9, 9, 9, 9, 9]);
    assert!(matches!(client.try_next(), RecvStep::More));
}
