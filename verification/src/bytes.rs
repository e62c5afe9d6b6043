//! Little-endian integers in a run of bytes.

use vstd::prelude::*;

verus! {

/// The integer that the `n` bytes from `at` on hold, lowest byte first.
pub open spec fn le(data: Seq<u8>, at: int, n: nat) -> nat
    decreases n,
{
    if n == 0 {
        0
    } else {
        data[at] as nat + 256 * le(data, at + 1, (n - 1) as nat)
    }
}

/// The 64 bits `n` read as a two's complement number.
pub open spec fn signed(n: u64) -> int {
    if n < 0x8000_0000_0000_0000 {
        n as int
    } else {
        n - 0x1_0000_0000_0000_0000
    }
}

/// What 2, 4 and 8 bytes hold: the first byte counts once, the next 256 times,
/// and so on.
pub proof fn law_lowest_byte_comes_first(data: Seq<u8>, at: int)
    ensures
        le(data, at, 2) == data[at] + 0x100 * data[at + 1],
        le(data, at, 4) == data[at] + 0x100 * data[at + 1] + 0x1_0000 * data[at + 2]
            + 0x100_0000 * data[at + 3],
        le(data, at, 8) == data[at] + 0x100 * data[at + 1] + 0x1_0000 * data[at + 2]
            + 0x100_0000 * data[at + 3] + 0x1_0000_0000 * data[at + 4] + 0x100_0000_0000 * data[at
            + 5] + 0x1_0000_0000_0000 * data[at + 6] + 0x100_0000_0000_0000 * data[at + 7],
{
    reveal_with_fuel(le, 9);
}

/// The number that 64 bits stand for is the one of 64-bit numbers with a sign
/// that differs from them by a multiple of 2^64.
pub proof fn law_sign_is_the_highest_bit(n: u64)
    ensures
        -0x8000_0000_0000_0000 <= signed(n) < 0x8000_0000_0000_0000,
        signed(n) == n || signed(n) == n - 0x1_0000_0000_0000_0000,
{
}

/// The `u16` at `at`, or `None` where `data` ends before it does.
pub fn read_u16(data: &[u8], at: usize) -> (r: Option<u16>)
    ensures
        r matches Some(v) ==> at + 2 <= data@.len() && v == le(data@, at as int, 2),
        r is None ==> at + 2 > data@.len(),
{
    if data.len() < 2 || at > data.len() - 2 {
        return None;
    }
    proof {
        reveal_with_fuel(le, 3);
    }
    Some(data[at] as u16 + 256 * (data[at + 1] as u16))
}

/// The `u32` at `at`, or `None` where `data` ends before it does.
pub fn read_u32(data: &[u8], at: usize) -> (r: Option<u32>)
    ensures
        r matches Some(v) ==> at + 4 <= data@.len() && v == le(data@, at as int, 4),
        r is None ==> at + 4 > data@.len(),
{
    if data.len() < 4 || at > data.len() - 4 {
        return None;
    }
    proof {
        reveal_with_fuel(le, 5);
    }
    Some(
        data[at] as u32 + 256 * (data[at + 1] as u32 + 256 * (data[at + 2] as u32 + 256 * (data[at
            + 3] as u32))),
    )
}

/// The `u64` at `at`, or `None` where `data` ends before it does.
pub fn read_u64(data: &[u8], at: usize) -> (r: Option<u64>)
    ensures
        r matches Some(v) ==> at + 8 <= data@.len() && v == le(data@, at as int, 8),
        r is None ==> at + 8 > data@.len(),
{
    if data.len() < 8 || at > data.len() - 8 {
        return None;
    }
    match (read_u32(data, at), read_u32(data, at + 4)) {
        (Some(low), Some(high)) => {
            proof {
                reveal_with_fuel(le, 9);
            }
            Some(low as u64 + 0x1_0000_0000 * (high as u64))
        },
        _ => None,
    }
}

/// The 64 bits `n` read as a two's complement number.
pub fn to_signed(n: u64) -> (r: i64)
    ensures
        r == signed(n),
{
    if n < 0x8000_0000_0000_0000 {
        n as i64
    } else {
        -((u64::MAX - n) as i64) - 1
    }
}

} // verus!
