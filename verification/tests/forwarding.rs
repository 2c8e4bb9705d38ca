//! Proxy-forwarding verification against real HMAC-SHA256 tags.

use hmac::Mac;
use netgate::velocity::{ForwardError, verify_forwarded};

fn signed_payload(secret: &[u8], rest: &[u8]) -> Vec<u8> {
    let mut mac = hmac::Hmac::<sha2::Sha256>::new_from_slice(secret).unwrap();
    mac.update(rest);
    let tag = mac.finalize().into_bytes();
    let mut payload = tag.to_vec();
    payload.extend_from_slice(rest);
    payload
}

fn forwarded_rest(version: u32, addr: &[u8], uuid: &[u8], username: &[u8]) -> Vec<u8> {
    let mut rest: Vec<u8> = Vec::new();
    netgate::wire::write_varint(version, &mut rest);
    netgate::wire::write_prefixed_bytes(addr, &mut rest);
    netgate::wire::write_bytes(uuid, &mut rest);
    netgate::wire::write_prefixed_bytes(username, &mut rest);
    // two properties: one signed, one not
    netgate::wire::write_varint(2, &mut rest);
    netgate::wire::write_prefixed_bytes(b"textures", &mut rest);
    netgate::wire::write_prefixed_bytes(b"payload-value", &mut rest);
    rest.push(1);
    netgate::wire::write_prefixed_bytes(b"sig-bytes", &mut rest);
    netgate::wire::write_prefixed_bytes(b"other", &mut rest);
    netgate::wire::write_prefixed_bytes(b"value2", &mut rest);
    rest.push(0);
    rest
}

const SECRET: &[u8] = b"SECRET-REDACTED";
const UUID: [u8; 16] = [
    0x10, 0x11, 0x12, 0x13, 0x14, 0x15, 0x16, 0x17, 0x18, 0x19, 0x1a, 0x1b, 0x1c, 0x1d, 0x1e,
    0x1f,
];

#[test]
fn correctly_signed_payload_decodes_every_field() {
    let rest = forwarded_rest(1, b"203.0.113.7", &UUID, b"Notch");
    let payload = signed_payload(SECRET, rest.as_slice());
    let info = verify_forwarded(SECRET, b"Notch", payload.as_slice()).expect("verified");
    assert_eq!(info.username.as_slice(), b"Notch");
    assert_eq!(info.uuid.as_slice(), &UUID);
    assert_eq!(info.ip, netgate::ip::IpValue::V4(203, 0, 113, 7));
    assert_eq!(info.properties.0.len(), 2);
    assert_eq!(info.properties.0[0].name.as_slice(), b"textures");
    assert_eq!(info.properties.0[0].value.as_slice(), b"payload-value");
    assert_eq!(
        info.properties.0[0].signature.as_ref().unwrap().as_slice(),
        b"sig-bytes"
    );
    assert_eq!(info.properties.0[1].name.as_slice(), b"other");
    assert_eq!(info.properties.0[1].value.as_slice(), b"value2");
    assert!(info.properties.0[1].signature.is_none());
}

#[test]
fn ipv6_forwarded_address_is_accepted() {
    let rest = forwarded_rest(1, b"2001:db8::7", &UUID, b"Notch");
    let payload = signed_payload(SECRET, rest.as_slice());
    let info = verify_forwarded(SECRET, b"Notch", payload.as_slice()).expect("verified");
    assert_eq!(
        info.ip,
        netgate::ip::IpValue::V6(0x2001, 0xdb8, 0, 0, 0, 0, 0, 7)
    );
}

#[test]
fn any_flipped_bit_in_the_signed_region_is_rejected() {
    let rest = forwarded_rest(1, b"203.0.113.7", &UUID, b"Notch");
    let payload = signed_payload(SECRET, rest.as_slice());
    for byte in [32usize, 40, payload.len() - 1] {
        for bit in 0..8 {
            let mut bad = payload.clone();
            bad[byte] ^= 1 << bit;
            assert!(
                matches!(
                    verify_forwarded(SECRET, b"Notch", bad.as_slice()),
                    Err(ForwardError::BadSignature)
                ),
                "flip at byte {byte} bit {bit}"
            );
        }
    }
}

#[test]
fn flipped_signature_bit_is_rejected() {
    let rest = forwarded_rest(1, b"203.0.113.7", &UUID, b"Notch");
    let mut payload = signed_payload(SECRET, rest.as_slice());
    payload[0] ^= 0x80;
    assert!(matches!(
        verify_forwarded(SECRET, b"Notch", payload.as_slice()),
        Err(ForwardError::BadSignature)
    ));
}

#[test]
fn short_payload_is_rejected_before_any_signature_check() {
    let payload = vec![0u8; 31];
    assert!(matches!(
        verify_forwarded(SECRET, b"Notch", payload.as_slice()),
        Err(ForwardError::TooShort)
    ));
}

#[test]
fn wrong_secret_is_rejected() {
    let rest = forwarded_rest(1, b"203.0.113.7", &UUID, b"Notch");
    let payload = signed_payload(b"another-secret", rest.as_slice());
    assert!(matches!(
        verify_forwarded(SECRET, b"Notch", payload.as_slice()),
        Err(ForwardError::BadSignature)
    ));
}

#[test]
fn mismatched_username_is_rejected() {
    let rest = forwarded_rest(1, b"203.0.113.7", &UUID, b"Somebody");
    let payload = signed_payload(SECRET, rest.as_slice());
    assert!(matches!(
        verify_forwarded(SECRET, b"Notch", payload.as_slice()),
        Err(ForwardError::UsernameMismatch)
    ));
}

#[test]
fn unparsable_address_is_rejected() {
    let rest = forwarded_rest(1, b"not-an-address", &UUID, b"Notch");
    let payload = signed_payload(SECRET, rest.as_slice());
    assert!(matches!(
        verify_forwarded(SECRET, b"Notch", payload.as_slice()),
        Err(ForwardError::BadPayload)
    ));
}

#[test]
fn truncated_signed_region_is_rejected() {
    let mut rest = forwarded_rest(1, b"203.0.113.7", &UUID, b"Notch");
    rest.truncate(rest.len() - 4);
    let payload = signed_payload(SECRET, rest.as_slice());
    assert!(matches!(
        verify_forwarded(SECRET, b"Notch", payload.as_slice()),
        Err(ForwardError::BadPayload)
    ));
}
