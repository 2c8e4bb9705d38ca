//! Proxy-forwarding verification: the proxy asserts a client's identity in
//! a signed payload.  The first 32 bytes are an HMAC-SHA256 tag over the
//! rest under the shared secret; the verified remainder carries, in order,
//! the forwarding version, the client's address, its id, its username and
//! its profile properties.  Verification fails closed: any mismatch or
//! malformed field rejects the payload.

use vstd::prelude::*;
use vstd::slice::slice_subrange;
use crate::digest::{hmac_sha256, hmac_sha256_of};
use crate::ip::{IpValue, parse_ip, spec_parse_ip};
use crate::wire::{
    MAX_STRING_LEN, bytes_eq, read_bool, read_bytes, read_string, read_varint, spec_read_bool,
    spec_read_bytes, spec_read_string, spec_read_varint,
};

verus! {

/// The lowest forwarding version this server speaks, sent in the query.
pub const FORWARDING_MIN_VERSION: u8 = 1;

/// One profile property: a name, a value, and an optional signature.
pub struct Property {
    /// The property name, as UTF-8 bytes.
    pub name: Vec<u8>,
    /// The property value, as UTF-8 bytes.
    pub value: Vec<u8>,
    /// The property signature, if the proxy forwarded one.
    pub signature: Option<Vec<u8>>,
}

/// The spec-level image of one property.
pub ghost struct PropertyView {
    /// The property name.
    pub name: Seq<u8>,
    /// The property value.
    pub value: Seq<u8>,
    /// The property signature, if any.
    pub signature: Option<Seq<u8>>,
}

impl View for Property {
    type V = PropertyView;

    open spec fn view(&self) -> PropertyView {
        PropertyView {
            name: self.name@,
            value: self.value@,
            signature: match self.signature {
                Some(s) => Some(s@),
                None => None,
            },
        }
    }
}

/// An ordered list of profile properties.
pub struct Properties(pub Vec<Property>);

/// The spec-level image of a property list.
pub open spec fn props_view(ps: Seq<Property>) -> Seq<PropertyView> {
    ps.map_values(|p: Property| p@)
}

/// A verified identity: what the login negotiation resolves and attaches
/// to the client session.
pub struct ClientInfo {
    /// The username, as UTF-8 bytes.
    pub username: Vec<u8>,
    /// The 16-byte id.
    pub uuid: Vec<u8>,
    /// The client's address.
    pub ip: IpValue,
    /// The profile properties, order preserved.
    pub properties: Properties,
}

/// Why a forwarded payload was rejected.
#[derive(Clone, Copy, PartialEq, Eq, Structural, Debug)]
pub enum ForwardError {
    /// The payload is shorter than one signature.
    TooShort,
    /// The signature does not match the signed region.
    BadSignature,
    /// A field of the signed region is malformed.
    BadPayload,
    /// The forwarded username differs from the declared one.
    UsernameMismatch,
}

/// One property in the signed region: name, value, and an optional
/// signature behind a presence flag.
pub open spec fn spec_parse_property(s: Seq<u8>, pos: int) -> Option<(PropertyView, int)> {
    match spec_read_string(s, pos, MAX_STRING_LEN as int) {
        None => None,
        Some((name, p1)) => match spec_read_string(s, p1, MAX_STRING_LEN as int) {
            None => None,
            Some((value, p2)) => match spec_read_bool(s, p2) {
                None => None,
                Some((has_sig, p3)) => if has_sig {
                    match spec_read_string(s, p3, MAX_STRING_LEN as int) {
                        None => None,
                        Some((sig, p4)) => Some(
                            (PropertyView { name, value, signature: Some(sig) }, p4),
                        ),
                    }
                } else {
                    Some((PropertyView { name, value, signature: None }, p3))
                },
            },
        },
    }
}

/// `n` properties in a row.
pub open spec fn spec_parse_props(s: Seq<u8>, pos: int, n: nat) -> Option<
    (Seq<PropertyView>, int),
>
    decreases n,
{
    if n == 0 {
        Some((Seq::empty(), pos))
    } else {
        match spec_parse_property(s, pos) {
            None => None,
            Some((p, q)) => match spec_parse_props(s, q, (n - 1) as nat) {
                None => None,
                Some((rest, r)) => Some((seq![p] + rest, r)),
            },
        }
    }
}

/// The signed region: forwarding version, address, id, username and
/// properties, in that order.  Bytes past the property list are ignored,
/// as the reference decoder ignores them.
pub open spec fn spec_parse_forwarded(s: Seq<u8>) -> Option<
    (u32, IpValue, Seq<u8>, Seq<u8>, Seq<PropertyView>),
> {
    match spec_read_varint(s, 0) {
        None => None,
        Some((ver, p1)) => match spec_read_string(s, p1, MAX_STRING_LEN as int) {
            None => None,
            Some((addr, p2)) => match spec_parse_ip(addr) {
                None => None,
                Some(ip) => match spec_read_bytes(s, p2, 16) {
                    None => None,
                    Some((uuid, p3)) => match spec_read_string(s, p3, MAX_STRING_LEN as int) {
                        None => None,
                        Some((uname, p4)) => match spec_read_varint(s, p4) {
                            None => None,
                            Some((count, p5)) => match spec_parse_props(s, p5, count as nat) {
                                None => None,
                                Some((props, _)) => Some((ver, ip, uuid, uname, props)),
                            },
                        },
                    },
                },
            },
        },
    }
}

fn parse_property(s: &[u8], pos: usize) -> (r: Option<(Property, usize)>)
    ensures
        match spec_parse_property(s@, pos as int) {
            Some((p, q)) => r matches Some((rp, rq)) && rp@ == p && rq == q as usize,
            None => r is None,
        },
{
    let slen = s.len();
    match read_string(s, pos, MAX_STRING_LEN) {
        None => None,
        Some((name, p1)) => match read_string(s, p1, MAX_STRING_LEN) {
            None => None,
            Some((value, p2)) => match read_bool(s, p2) {
                None => None,
                Some((has_sig, p3)) => {
                    if has_sig {
                        match read_string(s, p3, MAX_STRING_LEN) {
                            None => None,
                            Some((sig, p4)) => Some(
                                (Property { name, value, signature: Some(sig) }, p4),
                            ),
                        }
                    } else {
                        Some((Property { name, value, signature: None }, p3))
                    }
                },
            },
        },
    }
}

/// A successful property parse moves forward and stays in the buffer.
proof fn lemma_parse_property_bounds(s: Seq<u8>, pos: int)
    requires
        0 <= pos,
        s.len() <= usize::MAX,
    ensures
        spec_parse_property(s, pos) matches Some((p, q)) ==> pos <= q <= s.len(),
{
    crate::wire::lemma_read_varint_bounds(s, pos);
    match spec_read_string(s, pos, MAX_STRING_LEN as int) {
        None => {},
        Some((n1, p1)) => {
            crate::wire::lemma_read_varint_bounds(s, p1);
            match spec_read_string(s, p1, MAX_STRING_LEN as int) {
                None => {},
                Some((v1, p2)) => {
                    match spec_read_bool(s, p2) {
                        None => {},
                        Some((h, p3)) => {
                            crate::wire::lemma_read_varint_bounds(s, p3);
                        },
                    }
                },
            }
        },
    }
}

fn parse_props(s: &[u8], pos: usize, count: u32) -> (r: Option<(Vec<Property>, usize)>)
    ensures
        match spec_parse_props(s@, pos as int, count as nat) {
            Some((ps, q)) => r matches Some((rv, rq)) && props_view(rv@) == ps && rq == q
                as usize,
            None => r is None,
        },
{
    let mut acc: Vec<Property> = Vec::new();
    let mut p: usize = pos;
    let mut k: u32 = 0;
    let slen = s.len();
    while k < count
        invariant
            k <= count,
            slen == s@.len(),
            match spec_parse_props(s@, pos as int, count as nat) {
                Some((ps, q)) => spec_parse_props(s@, p as int, (count - k) as nat) matches Some(
                    (rest, rq),
                ) && ps == props_view(acc@) + rest && q == rq,
                None => !(spec_parse_props(s@, p as int, (count - k) as nat) is Some),
            },
        decreases count - k,
    {
        proof {
            lemma_parse_property_bounds(s@, p as int);
        }
        match parse_property(s, p) {
            None => {
                return None;
            },
            Some((pr, q)) => {
                let ghost prev_acc = acc@;
                acc.push(pr);
                proof {
                    assert(props_view(acc@) =~= props_view(prev_acc) + seq![pr@]);
                    match spec_parse_props(s@, q as int, (count - k - 1) as nat) {
                        None => {},
                        Some((rest2, rq2)) => {
                            assert((props_view(prev_acc) + seq![pr@]) + rest2 =~= props_view(
                                prev_acc,
                            ) + (seq![pr@] + rest2));
                        },
                    }
                }
                p = q;
                k = k + 1;
            },
        }
    }
    proof {
        assert(props_view(acc@) + Seq::<PropertyView>::empty() =~= props_view(acc@));
    }
    Some((acc, p))
}

/// Decode the signed region of a forwarded payload.
pub fn parse_forwarded(s: &[u8]) -> (r: Option<(u32, ClientInfo)>)
    ensures
        match spec_parse_forwarded(s@) {
            Some((ver, ip, uuid, uname, props)) => r matches Some((rv, ci)) && rv == ver
                && ci.ip == ip && ci.uuid@ == uuid && ci.username@ == uname && props_view(
                ci.properties.0@,
            ) == props,
            None => r is None,
        },
{
    let slen = s.len();
    proof {
        crate::wire::lemma_read_varint_bounds(s@, 0);
    }
    match read_varint(s, 0) {
        None => None,
        Some((ver, p1)) => match read_string(s, p1, MAX_STRING_LEN) {
            None => None,
            Some((addr, p2)) => match parse_ip(addr.as_slice()) {
                None => None,
                Some(ip) => match read_bytes(s, p2, 16) {
                    None => None,
                    Some((uuid, p3)) => match read_string(s, p3, MAX_STRING_LEN) {
                        None => None,
                        Some((uname, p4)) => {
                            proof {
                                crate::wire::lemma_read_varint_bounds(s@, p4 as int);
                            }
                            match read_varint(s, p4) {
                                None => None,
                                Some((count, p5)) => match parse_props(s, p5, count) {
                                    None => None,
                                    Some((props, _)) => Some(
                                        (
                                            ver,
                                            ClientInfo {
                                                username: uname,
                                                uuid,
                                                ip,
                                                properties: Properties(props),
                                            },
                                        ),
                                    ),
                                },
                            }
                        },
                    },
                },
            },
        },
    }
}

/// Verify a forwarded payload against the shared secret and the username
/// the client declared, and decode the identity it asserts.
///
/// A payload shorter than one signature is rejected before any signature
/// computation; a wrong tag, a malformed signed region and a username
/// mismatch each fail closed with their own error.
pub fn verify_forwarded(secret: &[u8], declared_username: &[u8], payload: &[u8]) -> (r: Result<
    ClientInfo,
    ForwardError,
>)
    ensures
        payload@.len() < 32 ==> r == Err::<ClientInfo, ForwardError>(ForwardError::TooShort),
        payload@.len() >= 32 ==> {
            let sig = payload@.subrange(0, 32);
            let rest = payload@.subrange(32, payload@.len() as int);
            if hmac_sha256_of(secret@, rest) != sig {
                r == Err::<ClientInfo, ForwardError>(ForwardError::BadSignature)
            } else {
                match spec_parse_forwarded(rest) {
                    None => r == Err::<ClientInfo, ForwardError>(ForwardError::BadPayload),
                    Some((ver, ip, uuid, uname, props)) => if uname != declared_username@ {
                        r == Err::<ClientInfo, ForwardError>(ForwardError::UsernameMismatch)
                    } else {
                        r matches Ok(ci) && ci.username@ == uname && ci.uuid@ == uuid && ci.ip
                            == ip && props_view(ci.properties.0@) == props
                    },
                }
            }
        },
{
    if payload.len() < 32 {
        return Err(ForwardError::TooShort);
    }
    let sig = slice_subrange(payload, 0, 32);
    let rest = slice_subrange(payload, 32, payload.len());
    let tag = hmac_sha256(secret, rest);
    if !bytes_eq(tag.as_slice(), sig) {
        return Err(ForwardError::BadSignature);
    }
    match parse_forwarded(rest) {
        None => Err(ForwardError::BadPayload),
        Some((_ver, ci)) => {
            if !bytes_eq(ci.username.as_slice(), declared_username) {
                return Err(ForwardError::UsernameMismatch);
            }
            Ok(ci)
        },
    }
}

} // verus!
