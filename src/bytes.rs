use vstd::prelude::*;

verus! {

/// Unsigned value of the two little-endian bytes at `at`.
pub open spec fn le_u16(data: Seq<u8>, at: int) -> int {
    data[at] as int + data[at + 1] as int * 0x100
}

/// Unsigned value of the four little-endian bytes at `at`.
pub open spec fn le_u32(data: Seq<u8>, at: int) -> int {
    le_u16(data, at) + le_u16(data, at + 2) * 0x10000
}

/// Unsigned value of the eight little-endian bytes at `at`.
pub open spec fn le_u64(data: Seq<u8>, at: int) -> int {
    le_u32(data, at) + le_u32(data, at + 4) * 0x1_0000_0000
}

/// Two's complement reading of a 32-bit pattern.
pub open spec fn signed32(v: int) -> int {
    if v < 0x8000_0000 { v } else { v - 0x1_0000_0000 }
}

/// Two's complement reading of a 16-bit pattern.
pub open spec fn signed16(v: int) -> int {
    if v < 0x8000 { v } else { v - 0x1_0000 }
}

/// Two's complement reading of an 8-bit pattern.
pub open spec fn signed8(v: int) -> int {
    if v < 0x80 { v } else { v - 0x100 }
}

/// Whether `n` bytes are available at `at`.
pub open spec fn has_bytes(data: Seq<u8>, at: int, n: int) -> bool {
    0 <= at && at + n <= data.len()
}

/// First position at or after `at` that does not hold a zero byte, or the end
/// of the data if only zeros follow.
pub open spec fn zero_run_end(data: Seq<u8>, at: int) -> int
    decreases data.len() - at,
{
    if at < 0 || at >= data.len() || data[at] != 0 {
        at
    } else {
        zero_run_end(data, at + 1)
    }
}

/// Skipping zero padding never moves backwards nor past the end of the
/// data, passes only zero bytes, and stops on a nonzero byte or at the end.
pub proof fn lemma_zero_run_end_bounds(data: Seq<u8>, at: int)
    requires
        0 <= at <= data.len(),
    ensures
        at <= zero_run_end(data, at) <= data.len(),
        forall|k: int| at <= k < zero_run_end(data, at) ==> data[k] == 0,
        zero_run_end(data, at) < data.len() ==> data[zero_run_end(data, at)] != 0,
    decreases data.len() - at,
{
    if at < data.len() && data[at] == 0 {
        lemma_zero_run_end_bounds(data, at + 1);
    }
}

/// Reads an unsigned 16-bit little-endian value; `None` on a short read.
pub fn read_u16_le(data: &[u8], at: usize) -> (r: Option<u16>)
    ensures
        r is Some <==> has_bytes(data@, at as int, 2),
        r matches Some(v) ==> v as int == le_u16(data@, at as int),
{
    if at > data.len() || data.len() - at < 2 {
        return None;
    }
    Some(data[at] as u16 + data[at + 1] as u16 * 0x100)
}

/// Reads an unsigned 32-bit little-endian value; `None` on a short read.
pub fn read_u32_le(data: &[u8], at: usize) -> (r: Option<u32>)
    ensures
        r is Some <==> has_bytes(data@, at as int, 4),
        r matches Some(v) ==> v as int == le_u32(data@, at as int),
{
    if at > data.len() || data.len() - at < 4 {
        return None;
    }
    let lo = data[at] as u32 + data[at + 1] as u32 * 0x100;
    let hi = data[at + 2] as u32 + data[at + 3] as u32 * 0x100;
    Some(lo + hi * 0x10000)
}

/// Reads an unsigned 64-bit little-endian value; `None` on a short read.
pub fn read_u64_le(data: &[u8], at: usize) -> (r: Option<u64>)
    ensures
        r is Some <==> has_bytes(data@, at as int, 8),
        r matches Some(v) ==> v as int == le_u64(data@, at as int),
{
    if at > data.len() || data.len() - at < 8 {
        return None;
    }
    let lo = read_u32_le(data, at).unwrap();
    let hi = read_u32_le(data, at + 4).unwrap();
    Some(lo as u64 + hi as u64 * 0x1_0000_0000)
}

/// Reads a signed 32-bit little-endian value; `None` on a short read.
pub fn read_i32_le(data: &[u8], at: usize) -> (r: Option<i32>)
    ensures
        r is Some <==> has_bytes(data@, at as int, 4),
        r matches Some(v) ==> v as int == signed32(le_u32(data@, at as int)),
{
    match read_u32_le(data, at) {
        None => None,
        Some(v) => {
            if v < 0x8000_0000 {
                Some(v as i32)
            } else {
                Some(((v - 0x8000_0000) as i32) - 0x7fff_ffff - 1)
            }
        },
    }
}

/// Reads a signed 16-bit little-endian value; `None` on a short read.
pub fn read_i16_le(data: &[u8], at: usize) -> (r: Option<i16>)
    ensures
        r is Some <==> has_bytes(data@, at as int, 2),
        r matches Some(v) ==> v as int == signed16(le_u16(data@, at as int)),
{
    match read_u16_le(data, at) {
        None => None,
        Some(v) => {
            if v < 0x8000 {
                Some(v as i16)
            } else {
                Some(((v - 0x8000) as i16) - 0x7fff - 1)
            }
        },
    }
}

/// Reads a signed byte; `None` on a short read.
pub fn read_i8(data: &[u8], at: usize) -> (r: Option<i8>)
    ensures
        r is Some <==> has_bytes(data@, at as int, 1),
        r matches Some(v) ==> v as int == signed8(data@[at as int] as int),
{
    if at >= data.len() {
        return None;
    }
    let v = data[at];
    if v < 0x80 {
        Some(v as i8)
    } else {
        Some(((v - 0x80) as i8) - 0x7f - 1)
    }
}

/// Skips zero bytes starting at `at`. Never moves past the end of `data`.
pub fn skip_zero_padding(data: &[u8], at: usize) -> (r: usize)
    requires
        at <= data@.len(),
    ensures
        r as int == zero_run_end(data@, at as int),
        at <= r <= data@.len(),
{
    let mut p: usize = at;
    while p < data.len() && data[p] == 0
        invariant
            at <= p <= data@.len(),
            zero_run_end(data@, p as int) == zero_run_end(data@, at as int),
        decreases data@.len() - p,
    {
        p = p + 1;
    }
    p
}

} // verus!
