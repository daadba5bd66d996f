use vstd::prelude::*;
use crate::error::AsarError;

verus! {

/// Number of bytes in the fixed binary prefix.
pub const PREFIX_LEN: usize = 16;

/// The unsigned 32-bit number that four bytes starting at `at` spell, least
/// significant byte first.
pub open spec fn le_u32(bytes: Seq<u8>, at: int) -> int {
    bytes[at] + 256 * bytes[at + 1] + 65536 * bytes[at + 2] + 16777216 * bytes[at + 3]
}

/// What the fixed prefix says: `(header_size, json_size)`, taken from bytes
/// 4..8 and 12..16. Bytes 0..4 and 8..12 are framing and are not looked at.
pub open spec fn header_fields(input: Seq<u8>) -> Option<(u32, u32)> {
    if input.len() < 16 {
        None
    } else {
        Some((le_u32(input, 4) as u32, le_u32(input, 12) as u32))
    }
}

/// Reads four bytes at `at` as a little-endian number.
fn read_le_u32(input: &[u8], at: usize) -> (value: u32)
    requires
        at + 4 <= input@.len(),
    ensures
        value == le_u32(input@, at as int),
{
    let b0: u32 = input[at] as u32;
    let b1: u32 = input[at + 1] as u32;
    let b2: u32 = input[at + 2] as u32;
    let b3: u32 = input[at + 3] as u32;
    b0 + 256 * b1 + 65536 * b2 + 16777216 * b3
}

/// Decodes the fixed prefix of an archive. Bytes past the sixteenth are
/// ignored; fewer than sixteen is a format error.
pub fn parse_header(input: &[u8]) -> (fields: Result<(u32, u32), AsarError>)
    ensures
        match fields {
            Ok(pair) => header_fields(input@) == Some(pair),
            Err(e) => e is FormatError && header_fields(input@) is None,
        },
{
    if input.len() < PREFIX_LEN {
        return Err(AsarError::FormatError);
    }
    let header_size: u32 = read_le_u32(input, 4);
    let json_size: u32 = read_le_u32(input, 12);
    Ok((header_size, json_size))
}

} // verus!
