//! The layout of a `.frq` pitch-analysis file: the magic `FREQ0003`, the hop
//! size (`i32`, little-endian) at 8, the average f0 (`f64`) at 12, sixteen
//! reserved bytes, the record count (`i32`) at 36, then from 40 on one
//! 16-byte record (`f0: f64`, `amp: f64`) for each count.
use vstd::prelude::*;

verus! {

/// Why a `.frq` file was refused.
#[derive(Debug, Clone, Copy, PartialEq, Eq, Structural)]
pub enum FrqError {
    /// Shorter than its magic.
    TooShort,
    /// Its first eight bytes are not `FREQ0003`.
    InvalidHeader,
    /// Shorter than its header and records.
    Truncated,
}

/// The integer fields of a `.frq` header.
#[derive(Debug, Clone, Copy, PartialEq, Eq, Structural)]
pub struct FrqHeader {
    pub hop_size: i32,
    /// The number of records; none are read where it is negative.
    pub length: i32,
}

/// Where the average f0 stands.
pub const AVERAGE_F0_OFFSET: usize = 12;

/// Where the records start.
pub const RECORDS_OFFSET: usize = 40;

/// The bytes of one record.
pub const RECORD_SIZE: usize = 16;

pub open spec fn frq_magic() -> Seq<u8> {
    seq![70u8, 82u8, 69u8, 81u8, 48u8, 48u8, 48u8, 51u8]
}

/// The little-endian `i32` at `at`.
pub open spec fn le_i32(b: Seq<u8>, at: int) -> i32 {
    let v = b[at] as int + b[at + 1] as int * 256 + b[at + 2] as int * 65536 + b[at + 3] as int * 16777216;
    (if v >= 0x8000_0000 { v - 0x1_0000_0000 } else { v }) as i32
}

/// What a `.frq` file's header says, or why it is refused.
pub open spec fn frq_header_of(b: Seq<u8>) -> Result<FrqHeader, FrqError> {
    if b.len() < 8 {
        Err(FrqError::TooShort)
    } else if b.subrange(0, 8) != frq_magic() {
        Err(FrqError::InvalidHeader)
    } else if b.len() < 40 {
        Err(FrqError::Truncated)
    } else {
        let length = le_i32(b, 36);
        let n = if length < 0 { 0 } else { length as int };
        if b.len() < 40 + 16 * n {
            Err(FrqError::Truncated)
        } else {
            Ok(FrqHeader { hop_size: le_i32(b, 8), length })
        }
    }
}

fn read_le_i32(b: &[u8], at: usize) -> (r: i32)
    requires
        at + 4 <= b@.len(),
    ensures
        r == le_i32(b@, at as int),
{
    let v: u64 = b[at] as u64 + b[at + 1] as u64 * 256 + b[at + 2] as u64 * 65536 + b[at + 3] as u64
        * 16777216;
    if v >= 0x8000_0000 {
        (v as i64 - 0x1_0000_0000i64) as i32
    } else {
        v as i32
    }
}

/// Checks the layout of a `.frq` file and reads its integer header fields.
pub fn parse_frq_header(data: &[u8]) -> (r: Result<FrqHeader, FrqError>)
    ensures
        r == frq_header_of(data@),
{
    if data.len() < 8 {
        return Err(FrqError::TooShort);
    }
    let magic: [u8; 8] = [70, 82, 69, 81, 48, 48, 48, 51];
    let mut i: usize = 0;
    while i < 8
        invariant
            i <= 8 <= data@.len(),
            magic@ == frq_magic(),
            forall|k: int| 0 <= k < i ==> data@[k] == frq_magic()[k],
        decreases 8 - i,
    {
        if data[i] != magic[i] {
            assert(data@.subrange(0, 8)[i as int] != frq_magic()[i as int]);
            return Err(FrqError::InvalidHeader);
        }
        i = i + 1;
    }
    assert(data@.subrange(0, 8) =~= frq_magic());
    if data.len() < 40 {
        return Err(FrqError::Truncated);
    }
    let length = read_le_i32(data, 36);
    let n: u64 = if length < 0 { 0 } else { length as u64 };
    if (data.len() as u64) < 40 + 16 * n {
        return Err(FrqError::Truncated);
    }
    Ok(FrqHeader { hop_size: read_le_i32(data, 8), length })
}

} // verus!
