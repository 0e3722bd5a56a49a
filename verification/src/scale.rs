//! The byte format used for the inherent error payload: a compact
//! length-prefix encoding of a 32-bit integer, little-endian, with the two
//! low bits of the first byte selecting among four widths. Decoding rejects
//! non-minimal encodings.

use vstd::arithmetic::div_mod::lemma_div_denominator;
use vstd::arithmetic::div_mod::lemma_fundamental_div_mod;
use vstd::arithmetic::div_mod::lemma_fundamental_div_mod_converse;
use vstd::arithmetic::div_mod::lemma_mod_mod;
use vstd::prelude::*;

verus! {

/// The four little-endian bytes of `x`.
pub open spec fn le4(x: int) -> Seq<u8>
    recommends
        0 <= x < 0x1_0000_0000,
{
    seq![
        (x % 256) as u8,
        ((x / 256) % 256) as u8,
        ((x / 0x10000) % 256) as u8,
        ((x / 0x1000000) % 256) as u8,
    ]
}

/// The value of four little-endian bytes.
pub open spec fn le4_val(b0: u8, b1: u8, b2: u8, b3: u8) -> int {
    b0 + (b1 as int) * 256 + (b2 as int) * 0x10000 + (b3 as int) * 0x1000000
}

/// The compact encoding of a 32-bit integer: the value shifted left by two
/// bits, the low two bits selecting one, two or four bytes little-endian;
/// values that need the full 32 bits follow a lone marker byte.
pub open spec fn compact_u32_encoding(n: u32) -> Seq<u8> {
    if n < 64 {
        seq![(n * 4) as u8]
    } else if n < 16384 {
        seq![((n * 4 + 1) % 256) as u8, ((n * 4 + 1) / 256) as u8]
    } else if n < 0x4000_0000 {
        le4(n * 4 + 2)
    } else {
        seq![3u8] + le4(n as int)
    }
}

/// Reads one compact-encoded 32-bit integer from the front of `bytes`,
/// yielding the value and how many bytes it occupied. Truncated input and
/// non-minimal encodings (a wide mode holding a value a narrower mode could
/// hold) are rejected.
pub open spec fn compact_u32_decoding(bytes: Seq<u8>) -> Option<(u32, int)> {
    if bytes.len() == 0 {
        None
    } else {
        let p = bytes[0] as int;
        if p % 4 == 0 {
            Some(((p / 4) as u32, 1int))
        } else if p % 4 == 1 {
            if bytes.len() < 2 {
                None
            } else {
                let x = (p + (bytes[1] as int) * 256) / 4;
                if 64 <= x && x <= 16383 {
                    Some((x as u32, 2int))
                } else {
                    None
                }
            }
        } else if p % 4 == 2 {
            if bytes.len() < 4 {
                None
            } else {
                let x = le4_val(bytes[0], bytes[1], bytes[2], bytes[3]) / 4;
                if 16384 <= x && x <= 0x3FFF_FFFF {
                    Some((x as u32, 4int))
                } else {
                    None
                }
            }
        } else {
            if p / 4 != 0 {
                None
            } else if bytes.len() < 5 {
                None
            } else {
                let x = le4_val(bytes[1], bytes[2], bytes[3], bytes[4]);
                if x > 0x3FFF_FFFF {
                    Some((x as u32, 5int))
                } else {
                    None
                }
            }
        }
    }
}

/// Appends the compact encoding of `n` to `out`.
pub fn compact_u32_encode(n: u32, out: &mut Vec<u8>)
    ensures
        final(out)@ == old(out)@ + compact_u32_encoding(n),
{
    if n < 64 {
        out.push((n * 4) as u8);
    } else if n < 16384 {
        let x = n * 4 + 1;
        out.push((x % 256) as u8);
        out.push((x / 256) as u8);
    } else if n < 0x4000_0000 {
        let x = n * 4 + 2;
        out.push((x % 256) as u8);
        out.push(((x / 256) % 256) as u8);
        out.push(((x / 0x10000) % 256) as u8);
        out.push((x / 0x1000000) as u8);
    } else {
        out.push(3u8);
        out.push((n % 256) as u8);
        out.push(((n / 256) % 256) as u8);
        out.push(((n / 0x10000) % 256) as u8);
        out.push((n / 0x1000000) as u8);
    }
    proof {
        assert(out@ =~= old(out)@ + compact_u32_encoding(n));
    }
}

/// Reads one compact-encoded 32-bit integer from the front of `data`.
pub fn compact_u32_decode(data: &[u8]) -> (r: Option<(u32, usize)>)
    ensures
        match r {
            Some(v) => compact_u32_decoding(data@) == Some((v.0, v.1 as int)),
            _ => compact_u32_decoding(data@) is None,
        },
{
    if data.len() == 0 {
        return None;
    }
    let p = data[0];
    let mode = p % 4;
    if mode == 0 {
        Some(((p / 4) as u32, 1))
    } else if mode == 1 {
        if data.len() < 2 {
            return None;
        }
        let x = (p as u32 + (data[1] as u32) * 256) / 4;
        if 64 <= x && x <= 16383 {
            Some((x, 2))
        } else {
            None
        }
    } else if mode == 2 {
        if data.len() < 4 {
            return None;
        }
        let x = data[0] as u32 + (data[1] as u32) * 256 + (data[2] as u32) * 0x10000 + (
        data[3] as u32) * 0x1000000;
        let v = x / 4;
        if 16384 <= v && v <= 0x3FFF_FFFF {
            Some((v, 4))
        } else {
            None
        }
    } else {
        if p / 4 != 0 {
            return None;
        }
        if data.len() < 5 {
            return None;
        }
        let x = data[1] as u32 + (data[2] as u32) * 256 + (data[3] as u32) * 0x10000 + (
        data[4] as u32) * 0x1000000;
        if x > 0x3FFF_FFFF {
            Some((x, 5))
        } else {
            None
        }
    }
}

/// The four little-endian bytes of `x` carry exactly `x`.
proof fn lemma_le4_round_trip(x: int)
    requires
        0 <= x < 0x1_0000_0000,
    ensures
        le4_val(
            (x % 256) as u8,
            ((x / 256) % 256) as u8,
            ((x / 0x10000) % 256) as u8,
            ((x / 0x1000000) % 256) as u8,
        ) == x,
        x / 0x1000000 < 256,
{
    lemma_fundamental_div_mod(x, 256);
    lemma_div_denominator(x, 256, 256);
    lemma_fundamental_div_mod(x / 256, 256);
    lemma_div_denominator(x, 0x10000, 256);
    lemma_fundamental_div_mod(x / 0x10000, 256);
    assert((x / 0x1000000) % 256 == x / 0x1000000) by {
        lemma_fundamental_div_mod(x / 0x1000000, 256);
    }
}

/// `x % 256` keeps the mode bits: its remainder modulo 4 is that of `x`.
proof fn lemma_mode_bits(x: int)
    ensures
        (x % 256) % 4 == x % 4,
{
    lemma_mod_mod(x, 4, 64);
}

/// Round trip: the compact encoding of any 32-bit value, however followed,
/// decodes back to that value and consumes exactly the encoding.
pub proof fn lemma_compact_u32_round_trip(n: u32, tail: Seq<u8>)
    ensures
        compact_u32_decoding(compact_u32_encoding(n) + tail) == Some(
            (n, compact_u32_encoding(n).len() as int),
        ),
{
    let enc = compact_u32_encoding(n);
    let bytes = enc + tail;
    if n < 64 {
        let p = bytes[0] as int;
        assert(p == n * 4);
        lemma_fundamental_div_mod_converse(p, 4, n as int, 0);
    } else if n < 16384 {
        let x = n * 4 + 1;
        let p = bytes[0] as int;
        assert(p == x % 256);
        lemma_mode_bits(x as int);
        lemma_fundamental_div_mod_converse(x as int, 4, n as int, 1);
        assert(p + (bytes[1] as int) * 256 == x) by {
            lemma_fundamental_div_mod(x as int, 256);
            assert(bytes[1] as int == x as int / 256) by {
                assert(x < 0x10000);
                lemma_fundamental_div_mod(x as int / 256, 256);
            }
        }
    } else if n < 0x4000_0000 {
        let x = n * 4 + 2;
        let p = bytes[0] as int;
        lemma_le4_round_trip(x as int);
        assert(p == x % 256);
        lemma_mode_bits(x as int);
        lemma_fundamental_div_mod_converse(x as int, 4, n as int, 2);
        assert(le4_val(bytes[0], bytes[1], bytes[2], bytes[3]) == x);
    } else {
        let p = bytes[0] as int;
        assert(p == 3);
        lemma_le4_round_trip(n as int);
        assert(le4_val(bytes[1], bytes[2], bytes[3], bytes[4]) == n);
    }
}

} // verus!
