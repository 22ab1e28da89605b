//! The byte framing of the stdio bridge: a 4-byte little-endian length,
//! capped at one mebibyte, in front of each message body.

use vstd::prelude::*;
use crate::text::{spec_trim, str_trim, spec_parse_u64, parse_u64_dec};

verus! {

/// Largest message body a frame may announce.
pub const MAX_FRAME_LEN: u32 = 1024 * 1024;

/// The number a 4-byte little-endian sequence encodes.
pub open spec fn le32(b: Seq<u8>) -> int {
    b[0] + 256 * (b[1] + 256 * (b[2] + 256 * b[3]))
}

/// Read a frame length out of its four little-endian bytes.
pub fn u32_from_le(b: &[u8]) -> (r: u32)
    requires
        b@.len() == 4,
    ensures
        r == le32(b@),
{
    let b0 = b[0] as u32;
    let b1 = b[1] as u32;
    let b2 = b[2] as u32;
    let b3 = b[3] as u32;
    b0 + 256 * (b1 + 256 * (b2 + 256 * b3))
}

/// Encode a frame length as its four little-endian bytes.
pub fn u32_to_le(n: u32) -> (r: Vec<u8>)
    ensures
        r@.len() == 4,
        le32(r@) == n,
        r@[0] == n % 256,
        r@[1] == (n / 256) % 256,
        r@[2] == (n / 65536) % 256,
        r@[3] == n / 16777216,
{
    let mut v: Vec<u8> = Vec::new();
    v.push((n % 256) as u8);
    v.push(((n / 256) % 256) as u8);
    v.push(((n / 65536) % 256) as u8);
    v.push((n / 16777216) as u8);
    v
}

/// The port a bridge port file names: its text trimmed and read as a
/// decimal; zero — never a usable port — when that fails or overflows.
pub fn parse_port_text(s: &str) -> (r: u16)
    ensures
        r as int == (match spec_parse_u64(spec_trim(s@)) {
            Some(v) => if v <= u16::MAX {
                v as int
            } else {
                0int
            },
            None => 0int,
        }),
{
    match parse_u64_dec(str_trim(s)) {
        Some(v) => {
            if v <= 65535 {
                v as u16
            } else {
                0
            }
        },
        None => 0,
    }
}

/// Whether a frame length is acceptable: at most [`MAX_FRAME_LEN`].
pub fn frame_len_ok(n: u32) -> (r: bool)
    ensures
        r == (n <= 1048576),
{
    n <= MAX_FRAME_LEN
}

} // verus!
