//! Textual IP addresses, as the proxy-forwarding payload carries them: a
//! dotted decimal quad, or eight colon-separated hexadecimal groups with
//! one optional `::` elision and an optional embedded dotted quad in the
//! last two groups.  The parser is the grammar's definition; the executable
//! parser is proved equal to it.

use vstd::prelude::*;

verus! {

/// A parsed IP address.
#[derive(Clone, Copy, PartialEq, Eq, Structural, Debug)]
pub enum IpValue {
    /// Four dotted decimal octets.
    V4(u8, u8, u8, u8),
    /// Eight hexadecimal groups.
    V6(u16, u16, u16, u16, u16, u16, u16, u16),
}

pub open spec fn is_dec_digit(b: u8) -> bool {
    0x30 <= b <= 0x39
}

pub open spec fn dec_val(b: u8) -> u8 {
    (b - 0x30) as u8
}

pub open spec fn is_hex_digit(b: u8) -> bool {
    is_dec_digit(b) || (0x41 <= b <= 0x46) || (0x61 <= b <= 0x66)
}

pub open spec fn hex_val(b: u8) -> u16 {
    if is_dec_digit(b) {
        (b - 0x30) as u16
    } else if 0x41 <= b <= 0x46 {
        (b - 0x41 + 10) as u16
    } else {
        (b - 0x61 + 10) as u16
    }
}

/// A decimal octet: one to three digits, no leading zero, at most 255.
pub open spec fn spec_parse_octet(s: Seq<u8>, pos: int) -> Option<(u8, int)> {
    if !(0 <= pos < s.len() && is_dec_digit(s[pos])) {
        None
    } else {
        let d0 = dec_val(s[pos]);
        if !(pos + 1 < s.len() && is_dec_digit(s[pos + 1])) {
            Some((d0, pos + 1))
        } else if d0 == 0 {
            None
        } else {
            let d1 = dec_val(s[pos + 1]);
            if !(pos + 2 < s.len() && is_dec_digit(s[pos + 2])) {
                Some(((10 * d0 + d1) as u8, pos + 2))
            } else {
                let d2 = dec_val(s[pos + 2]);
                if pos + 3 < s.len() && is_dec_digit(s[pos + 3]) {
                    None
                } else if 100 * d0 + 10 * d1 + d2 <= 255 {
                    Some(((100 * d0 + 10 * d1 + d2) as u8, pos + 3))
                } else {
                    None
                }
            }
        }
    }
}

/// A dotted decimal quad running from `pos` to the end of the string.
pub open spec fn spec_parse_v4_at(s: Seq<u8>, pos: int) -> Option<(u8, u8, u8, u8)> {
    match spec_parse_octet(s, pos) {
        None => None,
        Some((a, p1)) => if p1 < s.len() && s[p1] == 0x2e {
            match spec_parse_octet(s, p1 + 1) {
                None => None,
                Some((b, p2)) => if p2 < s.len() && s[p2] == 0x2e {
                    match spec_parse_octet(s, p2 + 1) {
                        None => None,
                        Some((c, p3)) => if p3 < s.len() && s[p3] == 0x2e {
                            match spec_parse_octet(s, p3 + 1) {
                                None => None,
                                Some((d, p4)) => if p4 == s.len() {
                                    Some((a, b, c, d))
                                } else {
                                    None
                                },
                            }
                        } else {
                            None
                        },
                    }
                } else {
                    None
                },
            }
        } else {
            None
        },
    }
}

/// A hexadecimal group: one to four hex digits.
pub open spec fn spec_parse_h16(s: Seq<u8>, pos: int) -> Option<(u16, int)> {
    if !(0 <= pos < s.len() && is_hex_digit(s[pos])) {
        None
    } else {
        let g0 = hex_val(s[pos]);
        if !(pos + 1 < s.len() && is_hex_digit(s[pos + 1])) {
            Some((g0, pos + 1))
        } else {
            let g1 = (16 * g0 + hex_val(s[pos + 1])) as u16;
            if !(pos + 2 < s.len() && is_hex_digit(s[pos + 2])) {
                Some((g1, pos + 2))
            } else {
                let g2 = (16 * g1 + hex_val(s[pos + 2])) as u16;
                if !(pos + 3 < s.len() && is_hex_digit(s[pos + 3])) {
                    Some((g2, pos + 3))
                } else {
                    let g3 = (16 * g2 + hex_val(s[pos + 3])) as u16;
                    if pos + 4 < s.len() && is_hex_digit(s[pos + 4]) {
                        None
                    } else {
                        Some((g3, pos + 4))
                    }
                }
            }
        }
    }
}

/// Groups running from `pos` to the end of the string, at most `max` of
/// them: the last may be an embedded dotted quad, which counts as two.
pub open spec fn spec_groups_to_end(s: Seq<u8>, pos: int, max: int) -> Option<Seq<u16>>
    decreases max,
{
    if max <= 0 {
        None
    } else if spec_parse_v4_at(s, pos) is Some {
        let (a, b, c, d) = spec_parse_v4_at(s, pos)->0;
        if max >= 2 {
            Some(seq![(a as u16 * 256 + b as u16) as u16, (c as u16 * 256 + d as u16) as u16])
        } else {
            None
        }
    } else {
        match spec_parse_h16(s, pos) {
            None => None,
            Some((g, p)) => if p == s.len() {
                Some(seq![g])
            } else if p < s.len() && s[p] == 0x3a && !(p + 1 < s.len() && s[p + 1] == 0x3a) {
                match spec_groups_to_end(s, p + 1, max - 1) {
                    None => None,
                    Some(rest) => Some(seq![g] + rest),
                }
            } else {
                None
            },
        }
    }
}

/// `n` zero groups.
pub open spec fn zero_groups(n: int) -> Seq<u16> {
    Seq::new(if n >= 0 {
        n as nat
    } else {
        0
    }, |i: int| 0u16)
}

/// Groups from `pos` with no elision seen yet: exactly `need` groups must
/// come, unless a `::` elision appears and fills the gap with zeros.
pub open spec fn spec_head_groups(s: Seq<u8>, pos: int, need: int) -> Option<Seq<u16>>
    decreases need,
{
    if need <= 0 {
        None
    } else if spec_parse_v4_at(s, pos) is Some {
        let (a, b, c, d) = spec_parse_v4_at(s, pos)->0;
        if need == 2 {
            Some(seq![(a as u16 * 256 + b as u16) as u16, (c as u16 * 256 + d as u16) as u16])
        } else {
            None
        }
    } else {
        match spec_parse_h16(s, pos) {
            None => None,
            Some((g, p)) => if p == s.len() {
                if need == 1 {
                    Some(seq![g])
                } else {
                    None
                }
            } else if s[p] == 0x3a {
                if p + 1 < s.len() && s[p + 1] == 0x3a {
                    if p + 2 == s.len() {
                        if need >= 2 {
                            Some(seq![g] + zero_groups(need - 1))
                        } else {
                            None
                        }
                    } else {
                        match spec_groups_to_end(s, p + 2, need - 2) {
                            None => None,
                            Some(tail) => Some(
                                seq![g] + zero_groups(need - 1 - tail.len()) + tail,
                            ),
                        }
                    }
                } else {
                    match spec_head_groups(s, p + 1, need - 1) {
                        None => None,
                        Some(rest) => Some(seq![g] + rest),
                    }
                }
            } else {
                None
            },
        }
    }
}

/// The eight groups of a textual IPv6 address.
pub open spec fn spec_parse_v6(s: Seq<u8>) -> Option<Seq<u16>> {
    if s.len() >= 2 && s[0] == 0x3a && s[1] == 0x3a {
        if s.len() == 2 {
            Some(zero_groups(8))
        } else {
            match spec_groups_to_end(s, 2, 7) {
                None => None,
                Some(tail) => Some(zero_groups(8 - tail.len()) + tail),
            }
        }
    } else {
        spec_head_groups(s, 0, 8)
    }
}

/// A textual IP address: a dotted quad, else an IPv6 form.
pub open spec fn spec_parse_ip(s: Seq<u8>) -> Option<IpValue> {
    match spec_parse_v4_at(s, 0) {
        Some((a, b, c, d)) => Some(IpValue::V4(a, b, c, d)),
        None => match spec_parse_v6(s) {
            Some(g) => Some(
                IpValue::V6(g[0], g[1], g[2], g[3], g[4], g[5], g[6], g[7]),
            ),
            None => None,
        },
    }
}

/// A successful group-list parse yields between one and `max` groups.
proof fn lemma_groups_to_end_len(s: Seq<u8>, pos: int, max: int)
    ensures
        spec_groups_to_end(s, pos, max) matches Some(g) ==> 1 <= g.len() <= max,
    decreases max,
{
    if max > 0 && !(spec_parse_v4_at(s, pos) is Some) {
        match spec_parse_h16(s, pos) {
            None => {},
            Some((g, p)) => {
                if p != s.len() && p < s.len() && s[p] == 0x3a && !(p + 1 < s.len() && s[p + 1]
                    == 0x3a) {
                    lemma_groups_to_end_len(s, p + 1, max - 1);
                }
            },
        }
    }
}

/// A successful head parse yields exactly `need` groups.
proof fn lemma_head_groups_len(s: Seq<u8>, pos: int, need: int)
    ensures
        spec_head_groups(s, pos, need) matches Some(g) ==> g.len() == need,
    decreases need,
{
    if need > 0 && !(spec_parse_v4_at(s, pos) is Some) {
        match spec_parse_h16(s, pos) {
            None => {},
            Some((g, p)) => {
                if p != s.len() && s[p] == 0x3a {
                    if p + 1 < s.len() && s[p + 1] == 0x3a {
                        if p + 2 != s.len() {
                            lemma_groups_to_end_len(s, p + 2, need - 2);
                        }
                    } else {
                        lemma_head_groups_len(s, p + 1, need - 1);
                    }
                }
            },
        }
    }
}

/// A successful IPv6 parse yields exactly eight groups.
pub proof fn lemma_parse_v6_len(s: Seq<u8>)
    ensures
        spec_parse_v6(s) matches Some(g) ==> g.len() == 8,
{
    if s.len() >= 2 && s[0] == 0x3a && s[1] == 0x3a {
        if s.len() != 2 {
            lemma_groups_to_end_len(s, 2, 7);
        }
    } else {
        lemma_head_groups_len(s, 0, 8);
    }
}

fn parse_octet(s: &[u8], pos: usize) -> (r: Option<(u8, usize)>)
    ensures
        match spec_parse_octet(s@, pos as int) {
            Some((v, p)) => r == Some((v, p as usize)),
            None => r is None,
        },
{
    let n = s.len();
    if !(pos < n && 0x30 <= s[pos] && s[pos] <= 0x39) {
        return None;
    }
    let d0 = s[pos] - 0x30;
    if !(pos + 1 < n && 0x30 <= s[pos + 1] && s[pos + 1] <= 0x39) {
        return Some((d0, pos + 1));
    }
    if d0 == 0 {
        return None;
    }
    let d1 = s[pos + 1] - 0x30;
    if !(pos + 2 < n && 0x30 <= s[pos + 2] && s[pos + 2] <= 0x39) {
        return Some((10 * d0 + d1, pos + 2));
    }
    let d2 = s[pos + 2] - 0x30;
    if pos + 3 < n && 0x30 <= s[pos + 3] && s[pos + 3] <= 0x39 {
        return None;
    }
    let v: u32 = 100 * d0 as u32 + 10 * d1 as u32 + d2 as u32;
    if v <= 255 {
        Some((v as u8, pos + 3))
    } else {
        None
    }
}

fn parse_v4_at(s: &[u8], pos: usize) -> (r: Option<(u8, u8, u8, u8)>)
    ensures
        r == spec_parse_v4_at(s@, pos as int),
{
    let n = s.len();
    match parse_octet(s, pos) {
        None => None,
        Some((a, p1)) => {
            if p1 < n && s[p1] == 0x2e {
                match parse_octet(s, p1 + 1) {
                    None => None,
                    Some((b, p2)) => {
                        if p2 < n && s[p2] == 0x2e {
                            match parse_octet(s, p2 + 1) {
                                None => None,
                                Some((c, p3)) => {
                                    if p3 < n && s[p3] == 0x2e {
                                        match parse_octet(s, p3 + 1) {
                                            None => None,
                                            Some((d, p4)) => {
                                                if p4 == n {
                                                    Some((a, b, c, d))
                                                } else {
                                                    None
                                                }
                                            },
                                        }
                                    } else {
                                        None
                                    }
                                },
                            }
                        } else {
                            None
                        }
                    },
                }
            } else {
                None
            }
        },
    }
}

fn hex_digit(b: u8) -> (r: Option<u16>)
    ensures
        is_hex_digit(b) ==> r == Some(hex_val(b)),
        !is_hex_digit(b) ==> r is None,
{
    if 0x30 <= b && b <= 0x39 {
        Some((b - 0x30) as u16)
    } else if 0x41 <= b && b <= 0x46 {
        Some((b - 0x41 + 10) as u16)
    } else if 0x61 <= b && b <= 0x66 {
        Some((b - 0x61 + 10) as u16)
    } else {
        None
    }
}

fn parse_h16(s: &[u8], pos: usize) -> (r: Option<(u16, usize)>)
    ensures
        match spec_parse_h16(s@, pos as int) {
            Some((v, p)) => r == Some((v, p as usize)),
            None => r is None,
        },
{
    let n = s.len();
    if pos >= n {
        return None;
    }
    let g0 = match hex_digit(s[pos]) {
        Some(v) => v,
        None => {
            return None;
        },
    };
    if pos + 1 >= n {
        return Some((g0, pos + 1));
    }
    let h1 = hex_digit(s[pos + 1]);
    if h1.is_none() {
        return Some((g0, pos + 1));
    }
    let g1 = 16 * g0 + h1.unwrap();
    if pos + 2 >= n {
        return Some((g1, pos + 2));
    }
    let h2 = hex_digit(s[pos + 2]);
    if h2.is_none() {
        return Some((g1, pos + 2));
    }
    let g2 = 16 * g1 + h2.unwrap();
    if pos + 3 >= n {
        return Some((g2, pos + 3));
    }
    let h3 = hex_digit(s[pos + 3]);
    if h3.is_none() {
        return Some((g2, pos + 3));
    }
    let g3 = 16 * g2 + h3.unwrap();
    if pos + 4 < n && hex_digit(s[pos + 4]).is_some() {
        None
    } else {
        Some((g3, pos + 4))
    }
}

fn groups_to_end(s: &[u8], pos: usize, max: u32) -> (r: Option<Vec<u16>>)
    ensures
        match spec_groups_to_end(s@, pos as int, max as int) {
            Some(g) => r matches Some(v) && v@ == g,
            None => r is None,
        },
    decreases max,
{
    let n = s.len();
    if max == 0 {
        return None;
    }
    if let Some((a, b, c, d)) = parse_v4_at(s, pos) {
        if max >= 2 {
            let mut v: Vec<u16> = Vec::new();
            v.push(a as u16 * 256 + b as u16);
            v.push(c as u16 * 256 + d as u16);
            assert(v@ =~= seq![
                (a as u16 * 256 + b as u16) as u16,
                (c as u16 * 256 + d as u16) as u16,
            ]);
            return Some(v);
        } else {
            return None;
        }
    }
    match parse_h16(s, pos) {
        None => None,
        Some((g, p)) => {
            if p == n {
                let mut v: Vec<u16> = Vec::new();
                v.push(g);
                assert(v@ =~= seq![g]);
                Some(v)
            } else if p < n && s[p] == 0x3a && !(p + 1 < n && s[p + 1] == 0x3a) {
                match groups_to_end(s, p + 1, max - 1) {
                    None => None,
                    Some(rest) => {
                        let mut v: Vec<u16> = Vec::new();
                        v.push(g);
                        let mut i: usize = 0;
                        while i < rest.len()
                            invariant
                                i <= rest@.len(),
                                v@ == seq![g] + rest@.subrange(0, i as int),
                            decreases rest@.len() - i,
                        {
                            v.push(rest[i]);
                            assert(v@ =~= seq![g] + rest@.subrange(0, i + 1));
                            i = i + 1;
                        }
                        assert(v@ =~= seq![g] + rest@);
                        Some(v)
                    },
                }
            } else {
                None
            }
        },
    }
}

fn push_zero_groups(v: &mut Vec<u16>, n: u32)
    ensures
        final(v)@ == old(v)@ + zero_groups(n as int),
    decreases n,
{
    if n == 0 {
        assert(final(v)@ =~= old(v)@ + zero_groups(0));
    } else {
        v.push(0);
        push_zero_groups(v, n - 1);
        assert(final(v)@ =~= old(v)@ + zero_groups(n as int));
    }
}

fn append_groups(v: &mut Vec<u16>, rest: &Vec<u16>)
    ensures
        final(v)@ == old(v)@ + rest@,
{
    let mut i: usize = 0;
    while i < rest.len()
        invariant
            i <= rest@.len(),
            v@ == old(v)@ + rest@.subrange(0, i as int),
        decreases rest@.len() - i,
    {
        v.push(rest[i]);
        assert(v@ =~= old(v)@ + rest@.subrange(0, i + 1));
        i = i + 1;
    }
    assert(v@ =~= old(v)@ + rest@);
}

fn head_groups(s: &[u8], pos: usize, need: u32) -> (r: Option<Vec<u16>>)
    ensures
        match spec_head_groups(s@, pos as int, need as int) {
            Some(g) => r matches Some(v) && v@ == g,
            None => r is None,
        },
    decreases need,
{
    let n = s.len();
    if need == 0 {
        return None;
    }
    if let Some((a, b, c, d)) = parse_v4_at(s, pos) {
        if need == 2 {
            let mut v: Vec<u16> = Vec::new();
            v.push(a as u16 * 256 + b as u16);
            v.push(c as u16 * 256 + d as u16);
            assert(v@ =~= seq![
                (a as u16 * 256 + b as u16) as u16,
                (c as u16 * 256 + d as u16) as u16,
            ]);
            return Some(v);
        } else {
            return None;
        }
    }
    match parse_h16(s, pos) {
        None => None,
        Some((g, p)) => {
            if p == n {
                if need == 1 {
                    let mut v: Vec<u16> = Vec::new();
                    v.push(g);
                    assert(v@ =~= seq![g]);
                    Some(v)
                } else {
                    None
                }
            } else if s[p] == 0x3a {
                if p + 1 < n && s[p + 1] == 0x3a {
                    if p + 2 == n {
                        if need >= 2 {
                            let mut v: Vec<u16> = Vec::new();
                            v.push(g);
                            push_zero_groups(&mut v, need - 1);
                            assert(v@ =~= seq![g] + zero_groups(need as int - 1));
                            Some(v)
                        } else {
                            None
                        }
                    } else if need < 2 {
                        None
                    } else {
                        match groups_to_end(s, p + 2, need - 2) {
                            None => None,
                            Some(tail) => {
                                proof {
                                    lemma_groups_to_end_len(
                                        s@,
                                        p + 2,
                                        need as int - 2,
                                    );
                                }
                                let mut v: Vec<u16> = Vec::new();
                                v.push(g);
                                push_zero_groups(&mut v, need - 1 - tail.len() as u32);
                                append_groups(&mut v, &tail);
                                assert(v@ =~= seq![g] + zero_groups(
                                    need as int - 1 - tail@.len(),
                                ) + tail@);
                                Some(v)
                            },
                        }
                    }
                } else {
                    match head_groups(s, p + 1, need - 1) {
                        None => None,
                        Some(rest) => {
                            let mut v: Vec<u16> = Vec::new();
                            v.push(g);
                            append_groups(&mut v, &rest);
                            assert(v@ =~= seq![g] + rest@);
                            Some(v)
                        },
                    }
                }
            } else {
                None
            }
        },
    }
}

/// Parse a textual IP address.
pub fn parse_ip(s: &[u8]) -> (r: Option<IpValue>)
    ensures
        r == spec_parse_ip(s@),
{
    let n = s.len();
    if let Some((a, b, c, d)) = parse_v4_at(s, 0) {
        return Some(IpValue::V4(a, b, c, d));
    }
    let groups: Option<Vec<u16>> = if n >= 2 && s[0] == 0x3a && s[1] == 0x3a {
        if n == 2 {
            let mut v: Vec<u16> = Vec::new();
            push_zero_groups(&mut v, 8);
            assert(v@ =~= zero_groups(8));
            Some(v)
        } else {
            match groups_to_end(s, 2, 7) {
                None => None,
                Some(tail) => {
                    proof {
                        lemma_groups_to_end_len(s@, 2, 7);
                    }
                    let mut v: Vec<u16> = Vec::new();
                    push_zero_groups(&mut v, 8 - tail.len() as u32);
                    append_groups(&mut v, &tail);
                    assert(v@ =~= zero_groups(8 - tail@.len()) + tail@);
                    Some(v)
                },
            }
        }
    } else {
        head_groups(s, 0, 8)
    };
    match groups {
        None => None,
        Some(v) => {
            proof {
                lemma_parse_v6_len(s@);
            }
            Some(IpValue::V6(v[0], v[1], v[2], v[3], v[4], v[5], v[6], v[7]))
        },
    }
}

} // verus!
