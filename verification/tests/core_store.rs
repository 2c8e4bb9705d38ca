//! The dispatch core's session store and counter, and the session's
//! buffered-write contract.

use netgate::dispatch::{
    ClientDisconnectEvent, ClientLoginEvent, ConnectionMode, Core, Server,
};
use netgate::framer::Framer;
use netgate::ip::IpValue;
use netgate::velocity::{ClientInfo, Properties};

fn server() -> Server {
    Server {
        version_name: b"1.20.1".to_vec(),
        protocol_version: 763,
        max_players: 20,
        motd: b"motd".to_vec(),
        favicon: Vec::new(),
        connection_mode: ConnectionMode::Offline,
        threshold: 0,
    }
}

fn info(name: &[u8]) -> ClientInfo {
    ClientInfo {
        username: name.to_vec(),
        uuid: vec![9u8; 16],
        ip: IpValue::V4(127, 0, 0, 1),
        properties: Properties(Vec::new()),
    }
}

#[test]
fn spawn_and_despawn_keep_ids_unique_and_count_players() {
    let mut core = Core::new(server());
    let a = core
        .handle_client_login(ClientLoginEvent {
            packet_io: Framer::new(),
            info: info(b"First"),
        })
        .unwrap();
    let b = core
        .handle_client_login(ClientLoginEvent {
            packet_io: Framer::new(),
            info: info(b"Second"),
        })
        .unwrap();
    assert_ne!(a, b);
    assert_eq!(core.session_count(), 2);
    assert_eq!(core.online(), 2);
    assert!(core.has_session(a));
    assert!(core.has_session(b));

    core.handle_client_disconnect(ClientDisconnectEvent { entity: a });
    assert_eq!(core.session_count(), 1);
    assert_eq!(core.online(), 1);
    assert!(!core.has_session(a));
    assert!(core.has_session(b));

    // an unknown id changes nothing
    core.handle_client_disconnect(ClientDisconnectEvent { entity: a });
    assert_eq!(core.session_count(), 1);
    assert_eq!(core.online(), 1);
}

#[test]
fn invalid_utf8_identity_spawns_no_session() {
    let mut core = Core::new(server());
    let r = core.handle_client_login(ClientLoginEvent {
        packet_io: Framer::new(),
        info: info(&[0xff, 0xfe]),
    });
    assert!(r.is_none());
    assert_eq!(core.session_count(), 0);
    assert_eq!(core.online(), 0);
}

#[test]
fn session_writes_buffer_until_one_flush() {
    let mut client = Framer::new().into_client();
    client.write_packet(7, b"abc");
    client.write_packet(8, b"defg");
    let flushed = client.flush_packets();
    assert!(!flushed.is_empty());
    // everything went out in that one batch
    assert!(client.flush_packets().is_empty());

    // the flushed bytes are the two frames, in order
    let mut rx = Framer::new();
    rx.feed(flushed.as_slice());
    match rx.try_next() {
        netgate::framer::RecvStep::Frame(f) => {
            assert_eq!(f.id, 7);
            assert_eq!(f.body.as_slice(), b"abc");
        },
        _ => panic!("expected the first frame"),
    }
    match rx.try_next() {
        netgate::framer::RecvStep::Frame(f) => {
            assert_eq!(f.id, 8);
            assert_eq!(f.body.as_slice(), b"defg");
        },
        _ => panic!("expected the second frame"),
    }
}

#[test]
fn write_packet_bytes_passes_preframed_bytes_through() {
    let mut framer = Framer::new();
    framer.send_frame(3, b"xyz");
    let preframed = framer.take_outgoing();

    let mut client = Framer::new().into_client();
    client.write_packet_bytes(preframed.as_slice());
    let flushed = client.flush_packets();
    assert_eq!(flushed, preframed);
}

#[test]
fn respawn_screen_defaults_on() {
    let d: netgate::session::HasRespawnScreen = Default::default();
    assert!(d.0);
    let h: netgate::session::IsHardcore = Default::default();
    assert!(!h.0);
}
