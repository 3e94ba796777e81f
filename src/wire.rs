use vstd::prelude::*;
use vstd::utf8::*;

verus! {

/// Largest payload of one frame, in bytes (the 2-byte length prefix excluded).
pub const MAX_PACKET_LENGTH: usize = 1024;

/// Identifies one connection, and the player behind it, for its lifetime.
pub type ClientId = u32;

/// Little-endian bytes of a `u16`.
pub open spec fn le_u16(v: u16) -> Seq<u8> {
    seq![(v % 256) as u8, (v / 256) as u8]
}

/// Little-endian bytes of a `u32`.
pub open spec fn le_u32(v: u32) -> Seq<u8> {
    seq![
        (v % 256) as u8,
        ((v / 256) % 256) as u8,
        ((v / 65536) % 256) as u8,
        (v / 16777216) as u8,
    ]
}

/// The `u16` whose little-endian bytes are `b[0], b[1]`.
pub open spec fn from_le_u16(b0: u8, b1: u8) -> u16 {
    (b0 as int + 256 * b1 as int) as u16
}

/// The `u32` whose little-endian bytes are `b[0] .. b[3]`.
pub open spec fn from_le_u32(b0: u8, b1: u8, b2: u8, b3: u8) -> u32 {
    (b0 as int + 256 * b1 as int + 65536 * b2 as int + 16777216 * b3 as int) as u32
}

/// A length-prefixed string: its UTF-8 byte length as a little-endian `u16`, then the bytes.
pub open spec fn str_bytes(s: Seq<char>) -> Seq<u8> {
    le_u16(encode_utf8(s).len() as u16) + encode_utf8(s)
}

/// A string that fits the `u16` length prefix.
pub open spec fn fits_str(s: Seq<char>) -> bool {
    encode_utf8(s).len() <= u16::MAX
}

/// A `u16` written little-endian reads back as itself.
pub proof fn law_u16_round_trip(v: u16)
    ensures
        from_le_u16(le_u16(v)[0], le_u16(v)[1]) == v,
{
    assert(((v % 256) as u8) as int + 256 * ((v / 256) as u8) as int == v) by (nonlinear_arith);
}

/// A `u32` written little-endian reads back as itself.
pub proof fn law_u32_round_trip(v: u32)
    ensures
        from_le_u32(le_u32(v)[0], le_u32(v)[1], le_u32(v)[2], le_u32(v)[3]) == v,
{
    let x = v as int;
    let q1 = x / 256;
    let q2 = q1 / 256;
    let q3 = q2 / 256;
    assert(x / 65536 == q2) by {
        vstd::arithmetic::div_mod::lemma_div_denominator(x, 256, 256);
    }
    assert(x / 16777216 == q3) by {
        vstd::arithmetic::div_mod::lemma_div_denominator(x, 65536, 256);
    }
    assert(x == x % 256 + 256 * (q1 % 256) + 65536 * (q2 % 256) + 16777216 * q3)
        by (nonlinear_arith)
        requires
            q1 == x / 256,
            q2 == q1 / 256,
            q3 == q2 / 256,
            0 <= x < 0x1_0000_0000,
    {
        assert(x == 256 * q1 + x % 256);
        assert(q1 == 256 * q2 + q1 % 256);
        assert(q2 == 256 * q3 + q2 % 256);
        assert(q3 < 256);
    }
}

} // verus!
