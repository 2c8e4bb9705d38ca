//! Primitive wire fields: single bytes, big-endian shorts, booleans, raw
//! byte runs and length-prefixed (UTF-8 checked) strings.  Each field has a
//! spec-level reader over a byte sequence and position, an executable reader
//! proved equal to it, a writer that appends the encoding to a buffer, and a
//! lemma that reading inverts writing.

use vstd::prelude::*;
use crate::varint::{
    VarIntParse, encode_varint, lemma_varint_round_trip, parse_varint, spec_varint_parse,
    varint_bytes,
};

verus! {

/// Largest byte length accepted for a length-prefixed string field.
pub const MAX_STRING_LEN: usize = 32767;

// ---------------------------------------------------------------- u8

pub open spec fn spec_read_u8(s: Seq<u8>, pos: int) -> Option<(u8, int)> {
    if 0 <= pos && pos + 1 <= s.len() {
        Some((s[pos], pos + 1))
    } else {
        None
    }
}

pub fn read_u8(s: &[u8], pos: usize) -> (r: Option<(u8, usize)>)
    ensures
        match spec_read_u8(s@, pos as int) {
            Some((v, p)) => r == Some((v, p as usize)),
            None => r is None,
        },
{
    if pos < s.len() {
        Some((s[pos], pos + 1))
    } else {
        None
    }
}

// ---------------------------------------------------------------- u16, big endian

pub open spec fn u16_be_bytes(v: u16) -> Seq<u8> {
    seq![(v / 256) as u8, (v % 256) as u8]
}

pub open spec fn spec_read_u16_be(s: Seq<u8>, pos: int) -> Option<(u16, int)> {
    if 0 <= pos && pos + 2 <= s.len() {
        Some(((s[pos] as u16 * 256 + s[pos + 1] as u16) as u16, pos + 2))
    } else {
        None
    }
}

pub fn read_u16_be(s: &[u8], pos: usize) -> (r: Option<(u16, usize)>)
    ensures
        match spec_read_u16_be(s@, pos as int) {
            Some((v, p)) => r == Some((v, p as usize)),
            None => r is None,
        },
{
    if pos < s.len() && s.len() - pos >= 2 {
        Some((s[pos] as u16 * 256 + s[pos + 1] as u16, pos + 2))
    } else {
        None
    }
}

pub fn write_u16_be(v: u16, out: &mut Vec<u8>)
    ensures
        final(out)@ == old(out)@ + u16_be_bytes(v),
{
    out.push((v / 256) as u8);
    out.push((v % 256) as u8);
    assert(out@ =~= old(out)@ + u16_be_bytes(v));
}

// ---------------------------------------------------------------- bool

/// A boolean field: zero is false, one is true, anything else is malformed.
pub open spec fn spec_read_bool(s: Seq<u8>, pos: int) -> Option<(bool, int)> {
    match spec_read_u8(s, pos) {
        Some((b, p)) => if b == 0 {
            Some((false, p))
        } else if b == 1 {
            Some((true, p))
        } else {
            None
        },
        None => None,
    }
}

pub fn read_bool(s: &[u8], pos: usize) -> (r: Option<(bool, usize)>)
    ensures
        match spec_read_bool(s@, pos as int) {
            Some((v, p)) => r == Some((v, p as usize)),
            None => r is None,
        },
{
    match read_u8(s, pos) {
        Some((b, p)) => {
            if b == 0 {
                Some((false, p))
            } else if b == 1 {
                Some((true, p))
            } else {
                None
            }
        },
        None => None,
    }
}

// ---------------------------------------------------------------- raw byte runs

pub open spec fn spec_read_bytes(s: Seq<u8>, pos: int, n: int) -> Option<(Seq<u8>, int)> {
    if 0 <= pos && 0 <= n && pos + n <= s.len() {
        Some((s.subrange(pos, pos + n), pos + n))
    } else {
        None
    }
}

pub fn read_bytes(s: &[u8], pos: usize, n: usize) -> (r: Option<(Vec<u8>, usize)>)
    ensures
        match spec_read_bytes(s@, pos as int, n as int) {
            Some((v, p)) => r matches Some((rv, rp)) && rv@ == v && rp == p as usize,
            None => r is None,
        },
{
    if pos <= s.len() && s.len() - pos >= n {
        let mut v: Vec<u8> = Vec::new();
        let mut i: usize = 0;
        while i < n
            invariant
                pos + n <= s.len(),
                i <= n,
                v@ == s@.subrange(pos as int, pos + i),
            decreases n - i,
        {
            v.push(s[pos + i]);
            assert(v@ =~= s@.subrange(pos as int, pos + i + 1));
            i = i + 1;
        }
        Some((v, pos + n))
    } else {
        None
    }
}

pub fn write_bytes(b: &[u8], out: &mut Vec<u8>)
    ensures
        final(out)@ == old(out)@ + b@,
{
    let mut i: usize = 0;
    while i < b.len()
        invariant
            i <= b@.len(),
            out@ == old(out)@ + b@.subrange(0, i as int),
        decreases b@.len() - i,
    {
        out.push(b[i]);
        assert(out@ =~= old(out)@ + b@.subrange(0, i + 1));
        i = i + 1;
    }
    assert(out@ =~= old(out)@ + b@);
}

// ---------------------------------------------------------------- varint in a body

/// A variable-length integer inside a complete body: an unterminated or
/// overlong encoding is malformed.
pub open spec fn spec_read_varint(s: Seq<u8>, pos: int) -> Option<(u32, int)> {
    match spec_varint_parse(s, pos) {
        VarIntParse::Done(v, p) => Some((v, p as int)),
        VarIntParse::More => None,
        VarIntParse::Bad => None,
    }
}

pub fn read_varint(s: &[u8], pos: usize) -> (r: Option<(u32, usize)>)
    ensures
        match spec_read_varint(s@, pos as int) {
            Some((v, p)) => r == Some((v, p as usize)),
            None => r is None,
        },
{
    match parse_varint(s, pos) {
        VarIntParse::Done(v, p) => Some((v, p)),
        VarIntParse::More => None,
        VarIntParse::Bad => None,
    }
}

pub fn write_varint(v: u32, out: &mut Vec<u8>)
    ensures
        final(out)@ == old(out)@ + varint_bytes(v as nat),
{
    encode_varint(v, out);
}

/// Reading a varint written at `pos` gives back the value.
pub proof fn lemma_varint_field_round_trip(s: Seq<u8>, pos: int, v: u32)
    requires
        s.len() <= usize::MAX,
        0 <= pos,
        pos + varint_bytes(v as nat).len() <= s.len(),
        s.subrange(pos, pos + varint_bytes(v as nat).len() as int) == varint_bytes(v as nat),
    ensures
        spec_read_varint(s, pos) == Some((v, pos + varint_bytes(v as nat).len())),
{
    lemma_varint_round_trip(s, pos, v);
}

// ---------------------------------------------------------------- length-prefixed bytes

/// The encoding of a length-prefixed byte run.
pub open spec fn prefixed_bytes(b: Seq<u8>) -> Seq<u8> {
    varint_bytes(b.len()) + b
}

/// A length-prefixed byte run of at most `max` bytes.
pub open spec fn spec_read_prefixed_bytes(s: Seq<u8>, pos: int, max: int) -> Option<
    (Seq<u8>, int),
> {
    match spec_read_varint(s, pos) {
        Some((n, p)) => if n <= max {
            spec_read_bytes(s, p, n as int)
        } else {
            None
        },
        None => None,
    }
}

pub fn read_prefixed_bytes(s: &[u8], pos: usize, max: usize) -> (r: Option<(Vec<u8>, usize)>)
    requires
        max <= usize::MAX,
    ensures
        match spec_read_prefixed_bytes(s@, pos as int, max as int) {
            Some((v, p)) => r matches Some((rv, rp)) && rv@ == v && rp == p as usize,
            None => r is None,
        },
{
    match read_varint(s, pos) {
        Some((n, p)) => {
            if n as u64 <= max as u64 {
                read_bytes(s, p, n as usize)
            } else {
                None
            }
        },
        None => None,
    }
}

pub fn write_prefixed_bytes(b: &[u8], out: &mut Vec<u8>)
    requires
        b@.len() <= u32::MAX,
    ensures
        final(out)@ == old(out)@ + prefixed_bytes(b@),
{
    write_varint(b.len() as u32, out);
    write_bytes(b, out);
    assert(final(out)@ =~= old(out)@ + prefixed_bytes(b@));
}

/// Reading a length-prefixed run written at `pos` gives back the bytes.
pub proof fn lemma_prefixed_bytes_round_trip(s: Seq<u8>, pos: int, b: Seq<u8>, max: int)
    requires
        s.len() <= usize::MAX,
        0 <= pos,
        b.len() <= max,
        b.len() <= u32::MAX,
        pos + prefixed_bytes(b).len() <= s.len(),
        s.subrange(pos, pos + prefixed_bytes(b).len() as int) == prefixed_bytes(b),
    ensures
        spec_read_prefixed_bytes(s, pos, max) == Some((b, pos + prefixed_bytes(b).len())),
{
    let n = b.len() as u32;
    let enc = prefixed_bytes(b);
    let vb = varint_bytes(n as nat);
    assert(enc == vb + b);
    assert(s.subrange(pos, pos + vb.len() as int) == vb) by {
        assert forall|k: int| 0 <= k < vb.len() implies s.subrange(pos, pos + vb.len() as int)[k]
            == vb[k] by {
            assert(s[pos + k] == enc[k]);
        }
        assert(s.subrange(pos, pos + vb.len() as int) =~= vb);
    }
    lemma_varint_round_trip(s, pos, n);
    let p = pos + vb.len();
    assert(s.subrange(p, p + b.len() as int) == b) by {
        assert forall|k: int| 0 <= k < b.len() implies s.subrange(p, p + b.len() as int)[k]
            == b[k] by {
            assert(s[p + k] == enc[vb.len() + k]);
        }
        assert(s.subrange(p, p + b.len() as int) =~= b);
    }
}

// ---------------------------------------------------------------- strings

/// A length-prefixed string: the bytes must be valid UTF-8.
pub open spec fn spec_read_string(s: Seq<u8>, pos: int, max: int) -> Option<(Seq<u8>, int)> {
    match spec_read_prefixed_bytes(s, pos, max) {
        Some((b, p)) => if vstd::utf8::valid_utf8(b) {
            Some((b, p))
        } else {
            None
        },
        None => None,
    }
}

/// Relies on `core::str::from_utf8`: it returns `Ok` exactly when the bytes
/// are valid UTF-8.
#[verifier::external_body]
pub(crate) fn utf8_check(v: &[u8]) -> (b: bool)
    ensures
        b == vstd::utf8::valid_utf8(v@),
{
    core::str::from_utf8(v).is_ok()
}

pub fn read_string(s: &[u8], pos: usize, max: usize) -> (r: Option<(Vec<u8>, usize)>)
    ensures
        match spec_read_string(s@, pos as int, max as int) {
            Some((v, p)) => r matches Some((rv, rp)) && rv@ == v && rp == p as usize,
            None => r is None,
        },
{
    match read_prefixed_bytes(s, pos, max) {
        Some((v, p)) => {
            if utf8_check(v.as_slice()) {
                Some((v, p))
            } else {
                None
            }
        },
        None => None,
    }
}

// ---------------------------------------------------------------- byte equality

/// Whether two byte runs hold the same bytes.
pub fn bytes_eq(a: &[u8], b: &[u8]) -> (r: bool)
    ensures
        r == (a@ == b@),
{
    if a.len() != b.len() {
        assert(a@ != b@) by {
            assert(a@.len() != b@.len());
        }
        return false;
    }
    let mut i: usize = 0;
    while i < a.len()
        invariant
            a@.len() == b@.len(),
            i <= a@.len(),
            forall|k: int| 0 <= k < i ==> a@[k] == b@[k],
        decreases a@.len() - i,
    {
        if a[i] != b[i] {
            return false;
        }
        i = i + 1;
    }
    assert(a@ =~= b@);
    true
}


/// A successful varint read lands strictly past `pos` and within the buffer.
pub proof fn lemma_read_varint_bounds(s: Seq<u8>, pos: int)
    requires
        0 <= pos,
        s.len() <= usize::MAX,
    ensures
        spec_read_varint(s, pos) matches Some((v, p)) ==> pos < p <= s.len(),
{
    crate::varint::lemma_varint_parse_at_bounds(s, pos, 0, 0);
}

} // verus!

