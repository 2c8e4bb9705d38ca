//! Variable-length integer encoding used by the wire framing: seven value
//! bits per byte, least-significant group first, high bit of each byte set
//! while more bytes follow.  A 32-bit value takes at most five bytes; a
//! decoder accepts at most five bytes and discards value bits beyond the
//! thirty-second.

use vstd::prelude::*;

verus! {

/// Outcome of parsing a variable-length integer from a byte buffer.
#[derive(Clone, Copy, PartialEq, Eq, Structural, Debug)]
pub enum VarIntParse {
    /// The value and the position just past its last byte.
    Done(u32, usize),
    /// The buffer ends before the terminating byte.
    More,
    /// Five bytes were read and the fifth still had its continuation bit set.
    Bad,
}

/// 128 to the power `i`.
pub open spec fn pow128(i: nat) -> nat
    decreases i,
{
    if i == 0 {
        1
    } else {
        128 * pow128((i - 1) as nat)
    }
}

/// The canonical encoding of `n`: seven bits at a time, low group first.
pub open spec fn varint_bytes(n: nat) -> Seq<u8>
    decreases n,
{
    if n < 128 {
        seq![n as u8]
    } else {
        seq![(128 + (n % 128)) as u8] + varint_bytes(n / 128)
    }
}

/// Parse state after `i` bytes have contributed `acc`.
pub open spec fn spec_varint_parse_at(s: Seq<u8>, pos: int, i: int, acc: nat) -> VarIntParse
    decreases 5 - i,
{
    if i >= 5 {
        VarIntParse::Bad
    } else if pos >= s.len() || pos < 0 {
        VarIntParse::More
    } else {
        let b = s[pos];
        let acc2 = acc + ((b % 128) as nat) * pow128(i as nat);
        if b < 128 {
            VarIntParse::Done((acc2 % 0x1_0000_0000) as u32, (pos + 1) as usize)
        } else {
            spec_varint_parse_at(s, pos + 1, i + 1, acc2)
        }
    }
}

/// Parsing a variable-length integer that starts at `pos`.
pub open spec fn spec_varint_parse(s: Seq<u8>, pos: int) -> VarIntParse {
    spec_varint_parse_at(s, pos, 0, 0)
}

/// The encoding of a 32-bit value is at most five bytes long.
pub proof fn lemma_varint_bytes_len(n: nat)
    ensures
        1 <= varint_bytes(n).len(),
        n < pow128(1) ==> varint_bytes(n).len() <= 1,
        n < pow128(2) ==> varint_bytes(n).len() <= 2,
        n < pow128(3) ==> varint_bytes(n).len() <= 3,
        n < pow128(4) ==> varint_bytes(n).len() <= 4,
        n < pow128(5) ==> varint_bytes(n).len() <= 5,
    decreases n,
{
    lemma_pow128_values();
    if n >= 128 {
        lemma_varint_bytes_len(n / 128);
    }
}

/// The first few powers of 128, unfolded.
pub proof fn lemma_pow128_values()
    ensures
        pow128(0) == 1,
        pow128(1) == 128,
        pow128(2) == 0x4000,
        pow128(3) == 0x20_0000,
        pow128(4) == 0x1000_0000,
        pow128(5) == 0x8_0000_0000,
{
    assert(pow128(0) == 1);
    assert(pow128(1) == 128 * pow128(0));
    assert(pow128(2) == 128 * pow128(1));
    assert(pow128(3) == 128 * pow128(2));
    assert(pow128(4) == 128 * pow128(3));
    assert(pow128(5) == 128 * pow128(4));
}

/// A 32-bit value fits in five groups of seven bits.
pub proof fn lemma_u32_lt_pow128_5(n: u32)
    ensures
        n < pow128(5),
{
    lemma_pow128_values();
}

proof fn lemma_varint_parse_at_extends(s: Seq<u8>, pos: int, i: int, acc: nat, m: nat)
    requires
        0 <= pos,
        0 <= i,
        i + varint_bytes(m).len() <= 5,
        pos + varint_bytes(m).len() <= s.len(),
        s.subrange(pos, pos + varint_bytes(m).len() as int) == varint_bytes(m),
    ensures
        spec_varint_parse_at(s, pos, i, acc) == VarIntParse::Done(
            (((acc + m * pow128(i as nat)) % 0x1_0000_0000) as u32),
            (pos + varint_bytes(m).len()) as usize,
        ),
    decreases m,
{
    let enc = varint_bytes(m);
    let b = s[pos];
    assert(b == enc[0]);
    if m < 128 {
        assert(b == m as u8);
        assert((b % 128) as nat == m);
    } else {
        let rest = varint_bytes(m / 128);
        assert(b == (128 + (m % 128)) as u8);
        assert(b >= 128);
        assert((b % 128) as nat == m % 128);
        let acc2 = acc + (m % 128) * pow128(i as nat);
        assert(s.subrange(pos + 1, pos + 1 + rest.len() as int) == rest) by {
            assert forall|k: int| 0 <= k < rest.len() implies s.subrange(
                pos + 1,
                pos + 1 + rest.len() as int,
            )[k] == rest[k] by {
                assert(s[pos + 1 + k] == enc[1 + k]);
            }
            assert(s.subrange(pos + 1, pos + 1 + rest.len() as int) =~= rest);
        }
        lemma_varint_parse_at_extends(s, pos + 1, i + 1, acc2, m / 128);
        let p0 = pow128(i as nat);
        let p1 = pow128((i + 1) as nat);
        assert(p1 == 128 * p0);
        lemma_split_digit(m, p0);
        assert(acc2 + (m / 128) * p1 == acc + m * p0);
    }
}

/// Decoding inverts encoding: a buffer that carries the encoding of `n`
/// starting at `pos` parses to exactly `n`, consuming exactly its bytes.
pub proof fn lemma_varint_round_trip(s: Seq<u8>, pos: int, n: u32)
    requires
        0 <= pos,
        pos + varint_bytes(n as nat).len() <= s.len(),
        s.subrange(pos, pos + varint_bytes(n as nat).len() as int) == varint_bytes(n as nat),
    ensures
        spec_varint_parse(s, pos) == VarIntParse::Done(
            n,
            (pos + varint_bytes(n as nat).len()) as usize,
        ),
{
    lemma_u32_lt_pow128_5(n);
    lemma_varint_bytes_len(n as nat);
    lemma_varint_parse_at_extends(s, pos, 0, 0, n as nat);
    assert(pow128(0) == 1);
    assert(n as nat * pow128(0) == n as nat);
    assert((0 + n as nat * pow128(0)) % 0x1_0000_0000 == n as nat);
}

/// A parse that succeeds or fails never changes its mind when the buffer
/// grows: only `More` depends on bytes past the current end.
pub proof fn lemma_varint_parse_at_stable(s: Seq<u8>, t: Seq<u8>, pos: int, i: int, acc: nat)
    requires
        s.len() <= t.len(),
        t.subrange(0, s.len() as int) == s,
        spec_varint_parse_at(s, pos, i, acc) != VarIntParse::More,
    ensures
        spec_varint_parse_at(t, pos, i, acc) == spec_varint_parse_at(s, pos, i, acc),
    decreases 5 - i,
{
    if i < 5 && 0 <= pos < s.len() {
        assert(t[pos] == s.subrange(0, s.len() as int)[pos]);
        let b = s[pos];
        if b >= 128 {
            lemma_varint_parse_at_stable(s, t, pos + 1, i + 1, acc + ((b % 128) as nat) * pow128(i as nat));
        }
    }
}

/// Append the encoding of `n` to `out`.
pub fn encode_varint(n: u32, out: &mut Vec<u8>)
    ensures
        final(out)@ == old(out)@ + varint_bytes(n as nat),
    decreases n,
{
    if n < 128 {
        out.push(n as u8);
        assert(out@ =~= old(out)@ + varint_bytes(n as nat));
    } else {
        out.push((128 + (n % 128)) as u8);
        encode_varint(n / 128, out);
        assert(out@ =~= old(out)@ + varint_bytes(n as nat));
    }
}

fn parse_varint_at(s: &[u8], pos: usize, i: u32, acc: u64) -> (r: VarIntParse)
    requires
        i <= 5,
        acc < pow128(i as nat),
    ensures
        r == spec_varint_parse_at(s@, pos as int, i as int, acc as nat),
    decreases 5 - i,
{
    if i >= 5 {
        VarIntParse::Bad
    } else if pos >= s.len() {
        VarIntParse::More
    } else {
        let b = s[pos];
        proof {
            lemma_pow128_values();
            lemma_pow128_increases(i as nat, 4nat);
            lemma_mul_le((b % 128) as nat, pow128(i as nat), 127, 0x1000_0000);
        }
        let acc2: u64 = acc + (b % 128) as u64 * pow128_exec(i);
        if b < 128 {
            VarIntParse::Done((acc2 % 0x1_0000_0000) as u32, pos + 1)
        } else {
            proof {
                assert(pow128((i + 1) as nat) == 128 * pow128(i as nat));
                lemma_acc_step(acc as nat, (b % 128) as nat, pow128(i as nat));
            }
            parse_varint_at(s, pos + 1, i + 1, acc2)
        }
    }
}

proof fn lemma_pow128_increases(i: nat, j: nat)
    requires
        i <= j,
    ensures
        pow128(i) <= pow128(j),
    decreases j,
{
    if i < j {
        lemma_pow128_increases(i, (j - 1) as nat);
        assert(pow128(j) == 128 * pow128((j - 1) as nat));
        assert(pow128((j - 1) as nat) <= 128 * pow128((j - 1) as nat)) by (nonlinear_arith)
            requires
                pow128((j - 1) as nat) >= 0,
        ;
    }
}

fn pow128_exec(i: u32) -> (r: u64)
    requires
        i <= 4,
    ensures
        r == pow128(i as nat),
    decreases i,
{
    if i == 0 {
        1
    } else {
        proof {
            lemma_pow128_values();
            lemma_pow128_increases((i - 1) as nat, 3nat);
        }
        128 * pow128_exec(i - 1)
    }
}

/// Parse a variable-length integer starting at `pos`.
pub fn parse_varint(s: &[u8], pos: usize) -> (r: VarIntParse)
    ensures
        r == spec_varint_parse(s@, pos as int),
{
    parse_varint_at(s, pos, 0, 0)
}


proof fn lemma_mul_le(x: nat, y: nat, xb: nat, yb: nat)
    by (nonlinear_arith)
    requires
        x <= xb,
        y <= yb,
    ensures
        x * y <= xb * yb,
{
}

proof fn lemma_acc_step(acc: nat, low: nat, p0: nat)
    by (nonlinear_arith)
    requires
        acc < p0,
        low <= 127,
    ensures
        acc + low * p0 < 128 * p0,
{
}

proof fn lemma_split_digit(m: nat, p0: nat)
    by (nonlinear_arith)
    requires
        m == 128 * (m / 128) + (m % 128),
    ensures
        (m % 128) * p0 + (m / 128) * (128 * p0) == m * p0,
{
}


/// A successful parse lands strictly past `pos` and within the buffer.
pub proof fn lemma_varint_parse_at_bounds(s: Seq<u8>, pos: int, i: int, acc: nat)
    requires
        0 <= pos,
        s.len() <= usize::MAX,
    ensures
        spec_varint_parse_at(s, pos, i, acc) matches VarIntParse::Done(v, p) ==> pos < p as int
            <= s.len(),
    decreases 5 - i,
{
    if i < 5 && pos < s.len() {
        let b = s[pos];
        if b >= 128 {
            lemma_varint_parse_at_bounds(s, pos + 1, i + 1, acc + ((b % 128) as nat) * pow128(i as nat));
        }
    }
}

} // verus!


