//! Addresses written in hexadecimal.

use vstd::prelude::*;
use crate::error::{result_view, Error, Failure, IntErrorKind, EMPTY_RANGE, INVALID_HEX};
use crate::region::MemoryRegion;

verus! {

/// The value of one hexadecimal digit, in either case: `0` to `9`, `a` to
/// `f` or `A` to `F`.
pub open spec fn hex_digit(byte: u8) -> Option<u8> {
    if 0x30 <= byte <= 0x39 {
        Some((byte - 0x30) as u8)
    } else if 0x61 <= byte <= 0x66 {
        Some((byte - 0x61 + 10) as u8)
    } else if 0x41 <= byte <= 0x46 {
        Some((byte - 0x41 + 10) as u8)
    } else {
        None
    }
}

/// Every byte is a hexadecimal digit.
pub open spec fn all_hex(digits: Seq<u8>) -> bool {
    forall|i: int| 0 <= i < digits.len() ==> (#[trigger] hex_digit(digits[i])) is Some
}

/// The number that the digits stand for, the first digit weighing most.
pub open spec fn hex_value(digits: Seq<u8>) -> nat
    decreases digits.len(),
{
    if digits.len() == 0 {
        0
    } else {
        16 * hex_value(digits.drop_last()) + hex_digit(digits.last()).unwrap() as nat
    }
}

/// What `digits` give as an address.
pub open spec fn hex_address(digits: Seq<u8>) -> Result<usize, Failure> {
    if !all_hex(digits) {
        Err(Failure::Format(INVALID_HEX@))
    } else if hex_value(digits) > usize::MAX {
        Err(Failure::ParseInt(IntErrorKind::PosOverflow))
    } else {
        Ok(hex_value(digits) as usize)
    }
}

/// What the two sides of a range give as a region.
pub open spec fn address_range(start: Seq<u8>, end: Seq<u8>) -> Result<MemoryRegion, Failure> {
    match hex_address(start) {
        Err(e) => Err(e),
        Ok(first) => match hex_address(end) {
            Err(e) => Err(e),
            Ok(last) => if first < last {
                Ok(MemoryRegion::between(first, last))
            } else {
                Err(Failure::Format(EMPTY_RANGE@))
            },
        },
    }
}

/// The value of one hexadecimal digit.
pub fn hex_digit_value(byte: u8) -> (digit: Option<u8>)
    ensures
        digit == hex_digit(byte),
        digit matches Some(d) ==> d < 16,
{
    if 0x30 <= byte && byte <= 0x39 {
        Some(byte - 0x30)
    } else if 0x61 <= byte && byte <= 0x66 {
        Some(byte - 0x61 + 10)
    } else if 0x41 <= byte && byte <= 0x46 {
        Some(byte - 0x41 + 10)
    } else {
        None
    }
}

/// Reads an address written in hexadecimal digits of either case, without a
/// prefix. No digit at all reads as zero.
pub fn parse_hex_address(addr: &[u8]) -> (r: Result<usize, Error>)
    ensures
        result_view(r) == hex_address(addr@),
{
    let mut num: usize = 0;
    let mut overflowed = false;
    let mut i: usize = 0;
    while i < addr.len()
        invariant
            i <= addr.len(),
            all_hex(addr@.take(i as int)),
            overflowed <==> hex_value(addr@.take(i as int)) > usize::MAX,
            !overflowed ==> num == hex_value(addr@.take(i as int)),
        decreases addr.len() - i,
    {
        assert(addr@.take(i + 1).drop_last() == addr@.take(i as int));
        match hex_digit_value(addr[i]) {
            None => {
                return Err(Error::format(INVALID_HEX));
            },
            Some(d) => {
                if !overflowed {
                    if num > (usize::MAX - d as usize) / 16 {
                        overflowed = true;
                    } else {
                        num = num * 16 + d as usize;
                    }
                }
            },
        }
        i += 1;
    }
    assert(addr@.take(i as int) == addr@);
    if overflowed {
        Err(Error::ParseIntError(IntErrorKind::PosOverflow))
    } else {
        Ok(num)
    }
}

/// Reads the two sides of a range and gives the region between them. The
/// range must hold at least one byte.
pub fn parse_addresses(start_addr: &[u8], end_addr: &[u8]) -> (r: Result<MemoryRegion, Error>)
    ensures
        result_view(r) == address_range(start_addr@, end_addr@),
        r matches Ok(region) ==> region.is_valid(),
{
    let start = match parse_hex_address(start_addr) {
        Ok(value) => value,
        Err(e) => {
            return Err(e);
        },
    };
    let end = match parse_hex_address(end_addr) {
        Ok(value) => value,
        Err(e) => {
            return Err(e);
        },
    };
    if start < end {
        Ok(MemoryRegion { base_address: start, size: end - start })
    } else {
        Err(Error::format(EMPTY_RANGE))
    }
}

} // verus!
