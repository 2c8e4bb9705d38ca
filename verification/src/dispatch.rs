//! The event dispatch core: the process-wide server configuration, the
//! stage-transition events that carry a connection from handler to
//! handler, and the entity store for live client sessions.  Events own
//! their connection handle, so a handler takes it by move: the payload is
//! consumed exactly once and never duplicated.  The core alone mutates the
//! session store and the online-player counter.

use vstd::prelude::*;
use crate::framer::Framer;
use crate::ip::IpValue;
use crate::packets::HandshakeData;
use crate::session::{Client, IpAddress, Username, string_from_utf8};
use crate::velocity::{ClientInfo, Properties};

verus! {

/// How the login negotiator resolves identities.
pub enum ConnectionMode {
    /// Identities come from a pluggable online verification strategy.
    Online,
    /// Identities are derived offline from the declared username.
    Offline,
    /// Identities are asserted by a proxy and verified against a shared
    /// secret.
    Velocity {
        /// The shared forwarding secret.
        secret: Vec<u8>,
    },
}

/// The process-wide server configuration: initialized once, read-only
/// thereafter.
pub struct Server {
    /// The version name shown in the server list.
    pub version_name: Vec<u8>,
    /// The protocol version this server speaks.
    pub protocol_version: i32,
    /// The advertised player capacity.
    pub max_players: u32,
    /// The message of the day.
    pub motd: Vec<u8>,
    /// The server-list icon, already encoded for the status document.
    pub favicon: Vec<u8>,
    /// How identities are resolved.
    pub connection_mode: ConnectionMode,
    /// Frames at or above this size are compressed once login completes;
    /// zero or less leaves compression off.
    pub threshold: i32,
}

impl Server {
    /// Configuration bounds that keep every status and login reply within
    /// one frame.
    pub open spec fn wf(&self) -> bool {
        self.version_name@.len() <= 256 && self.motd@.len() <= 4096 && self.favicon@.len()
            <= 0x2_0000
    }
}

/// A status exchange begins: carries the connection handle.
pub struct StatusEvent {
    /// The moved connection handle.
    pub packet_io: Framer,
}

/// A login negotiation begins: carries the connection handle, the decoded
/// handshake and the peer address.
pub struct LoginEvent {
    /// The decoded handshake fields.
    pub handshake: HandshakeData,
    /// The moved connection handle.
    pub packet_io: Framer,
    /// The peer's address.
    pub remote_ip: IpValue,
}

/// A login completed: carries the connection handle and the resolved
/// identity.
pub struct ClientLoginEvent {
    /// The moved connection handle.
    pub packet_io: Framer,
    /// The resolved identity.
    pub info: ClientInfo,
}

/// A session ended: names the entity to despawn.
pub struct ClientDisconnectEvent {
    /// The session entity.
    pub entity: u64,
}

/// One live client session: the transferred connection and the identity
/// components attached to it.
pub struct Session {
    /// The entity id.
    pub id: u64,
    /// The transferred connection.
    pub client: Client,
    /// The session's username.
    pub username: Username,
    /// The session's 16-byte id.
    pub uuid: Vec<u8>,
    /// The session's source address.
    pub ip: IpAddress,
    /// The session's profile properties.
    pub properties: Properties,
}

/// The dispatch core: configuration singleton, online-player counter and
/// the session entities.
pub struct Core {
    /// The configuration singleton.
    pub server: Server,
    online: u32,
    next_id: u64,
    sessions: Vec<Session>,
}

impl Core {
    /// The configuration singleton.
    pub closed spec fn config(&self) -> Server {
        self.server
    }

    /// The ids of the live sessions, in spawn order.
    pub closed spec fn ids(&self) -> Seq<u64> {
        self.sessions@.map_values(|s: Session| s.id)
    }

    /// The online-player counter.
    pub closed spec fn online_count(&self) -> u32 {
        self.online
    }

    /// The username bytes of the most recently spawned session.
    pub closed spec fn last_username(&self) -> Seq<u8> {
        vstd::utf8::encode_utf8(self.sessions@.last().username.0@)
    }

    /// The 16-byte id of the most recently spawned session.
    pub closed spec fn last_uuid(&self) -> Seq<u8> {
        self.sessions@.last().uuid@
    }

    /// The address of the most recently spawned session.
    pub closed spec fn last_ip(&self) -> IpValue {
        self.sessions@.last().ip.0
    }

    /// Session ids are unique and below the id counter.
    pub closed spec fn wf(&self) -> bool {
        &&& forall|i: int, j: int|
            #![trigger self.ids()[i], self.ids()[j]]
            0 <= i < j < self.ids().len() ==> self.ids()[i] != self.ids()[j]
        &&& forall|i: int| 0 <= i < self.ids().len() ==> #[trigger] self.ids()[i] < self.next_id
    }

    /// A fresh core around the configuration singleton.
    pub fn new(server: Server) -> (r: Core)
        ensures
            r.wf(),
            r.ids() == Seq::<u64>::empty(),
            r.online_count() == 0,
            r.next_id_spec() == 0,
    {
        let r = Core { server, online: 0, next_id: 0, sessions: Vec::new() };
        proof {
            assert(r.ids() =~= Seq::<u64>::empty());
        }
        r
    }

    /// How many sessions are live.
    pub fn session_count(&self) -> (r: usize)
        ensures
            r == self.ids().len(),
    {
        self.sessions.len()
    }

    /// The online-player counter, as the status document reports it.
    pub fn online(&self) -> (r: u32)
        ensures
            r == self.online_count(),
    {
        self.online
    }

    /// Whether a session with this id is live.
    pub fn has_session(&self, id: u64) -> (r: bool)
        ensures
            r == self.ids().contains(id),
    {
        let mut i: usize = 0;
        while i < self.sessions.len()
            invariant
                i <= self.sessions@.len(),
                forall|k: int| 0 <= k < i ==> self.ids()[k] != id,
            decreases self.sessions@.len() - i,
        {
            if self.sessions[i].id == id {
                assert(self.ids()[i as int] == id);
                return true;
            }
            i = i + 1;
        }
        assert(!self.ids().contains(id)) by {
            assert(forall|k: int| 0 <= k < self.ids().len() ==> self.ids()[k] != id);
        }
        false
    }

    /// Handle a completed login: take the connection and identity out of
    /// the event, spawn a session entity, attach the components, and count
    /// the player in.  An identity whose username is not valid UTF-8 has no
    /// session spawned; the connection is released.
    pub fn handle_client_login(&mut self, ev: ClientLoginEvent) -> (r: Option<u64>)
        requires
            old(self).wf(),
            ev.packet_io.wf(),
        ensures
            final(self).wf(),
            final(self).config() == old(self).config(),
            r is Some ==> vstd::utf8::valid_utf8(ev.info.username@),
            vstd::utf8::valid_utf8(ev.info.username@) && old(self).next_id_spec() < u64::MAX
                ==> r == Some(old(self).next_id_spec()),
            !vstd::utf8::valid_utf8(ev.info.username@) ==> r is None,
            r is None ==> final(self).ids() == old(self).ids() && final(self).online_count()
                == old(self).online_count(),
            r matches Some(id) ==> {
                &&& final(self).ids() == old(self).ids().push(id)
                &&& !old(self).ids().contains(id)
                &&& final(self).last_username() == ev.info.username@
                &&& final(self).last_uuid() == ev.info.uuid@
                &&& final(self).last_ip() == ev.info.ip
                &&& final(self).online_count() == (if old(self).online_count() < u32::MAX {
                    old(self).online_count() + 1
                } else {
                    old(self).online_count() as int
                })
            },
    {
        let ClientLoginEvent { packet_io, info } = ev;
        let ClientInfo { username, uuid, ip, properties } = info;
        let name = match string_from_utf8(username) {
            Some(s) => s,
            None => {
                return None;
            },
        };
        let id = self.next_id;
        if self.next_id < u64::MAX {
            self.next_id = self.next_id + 1;
        } else {
            // the id space is effectively inexhaustible; stop spawning
            // rather than reuse an id
            return None;
        }
        let session = Session {
            id,
            client: packet_io.into_client(),
            username: Username(name),
            uuid,
            ip: IpAddress(ip),
            properties,
        };
        self.sessions.push(session);
        if self.online < u32::MAX {
            self.online = self.online + 1;
        }
        proof {
            assert(self.ids() =~= old(self).ids().push(id));
        }
        Some(id)
    }

    /// The id the next spawned session will get.
    pub closed spec fn next_id_spec(&self) -> u64 {
        self.next_id
    }

    /// Handle a disconnect: despawn the named session entity, release its
    /// connection, and count the player out.  An unknown id changes
    /// nothing.
    pub fn handle_client_disconnect(&mut self, ev: ClientDisconnectEvent)
        requires
            old(self).wf(),
        ensures
            final(self).wf(),
            final(self).config() == old(self).config(),
            !old(self).ids().contains(ev.entity) ==> final(self).ids() == old(self).ids()
                && final(self).online_count() == old(self).online_count(),
            old(self).ids().contains(ev.entity) ==> {
                &&& final(self).ids().len() == old(self).ids().len() - 1
                &&& !final(self).ids().contains(ev.entity)
                &&& final(self).online_count() == (if old(self).online_count() > 0 {
                    (old(self).online_count() - 1) as u32
                } else {
                    0u32
                })
            },
            forall|x: u64|
                x != ev.entity ==> (#[trigger] final(self).ids().contains(x)
                    == old(self).ids().contains(x)),
    {
        let mut i: usize = 0;
        let n = self.sessions.len();
        while i < n
            invariant
                old(self).wf(),
                i <= n,
                n == self.sessions@.len(),
                *self == *old(self),
                forall|k: int| 0 <= k < i ==> self.ids()[k] != ev.entity,
            decreases n - i,
        {
            if self.sessions[i].id == ev.entity {
                proof {
                    assert(self.ids()[i as int] == ev.entity);
                    assert(self.ids().contains(ev.entity));
                }
                let _gone = self.sessions.remove(i);
                if self.online > 0 {
                    self.online = self.online - 1;
                }
                proof {
                    let pre = old(self).ids();
                    let post = self.ids();
                    assert(post =~= pre.remove(i as int));
                    pre.remove_ensures(i as int);
                    assert forall|x: u64| x != ev.entity implies #[trigger] post.contains(x)
                        == pre.contains(x) by {
                        if pre.contains(x) {
                            let j = choose|j: int| 0 <= j < pre.len() && pre[j] == x;
                            if j < i {
                                assert(post[j] == x);
                            } else {
                                assert(j != i);
                                assert(post[j - 1] == x);
                            }
                        }
                        if post.contains(x) {
                            let j = choose|j: int| 0 <= j < post.len() && post[j] == x;
                            if j < i {
                                assert(pre[j] == x);
                            } else {
                                assert(pre[j + 1] == x);
                            }
                        }
                    }
                    assert(!post.contains(ev.entity)) by {
                        if post.contains(ev.entity) {
                            let j = choose|j: int|
                                0 <= j < post.len() && post[j] == ev.entity;
                            if j < i {
                                assert(old(self).ids()[j] == ev.entity);
                                assert(old(self).ids()[j] != old(self).ids()[i as int]);
                            } else {
                                assert(old(self).ids()[j + 1] == ev.entity);
                                assert(old(self).ids()[i as int] != old(self).ids()[j + 1]);
                            }
                        }
                    }
                    assert forall|a: int, b: int| 0 <= a < b < post.len() implies post[a]
                        != post[b] by {
                        let pa = if a < i { a } else { a + 1 };
                        let pb = if b < i { b } else { b + 1 };
                        assert(post[a] == old(self).ids()[pa]);
                        assert(post[b] == old(self).ids()[pb]);
                        assert(old(self).ids()[pa] != old(self).ids()[pb]);
                    }
                    assert forall|a: int| 0 <= a < post.len() implies post[a]
                        < self.next_id by {
                        let pa = if a < i { a } else { a + 1 };
                        assert(post[a] == old(self).ids()[pa]);
                        assert(old(self).ids()[pa] < old(self).next_id_spec());
                    }
                }
                return ;
            }
            i = i + 1;
        }
        proof {
            assert(!old(self).ids().contains(ev.entity)) by {
                assert(forall|k: int|
                    0 <= k < old(self).ids().len() ==> old(self).ids()[k] != ev.entity);
            }
        }
    }
}

} // verus!
