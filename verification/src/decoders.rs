//! Frames as text: one line of 128 hexadecimal digits.
//!
//! Two digits make a row mask, high digit first; the sixty-four masks
//! follow each other layer by layer, and row by row within a layer, so the
//! mask at position `k` is row `k % 8` of layer `k / 8`.

use crate::frame::Frame;
use vstd::prelude::*;
use vstd::string::StringSliceAdditionalSpecFns;

verus! {

/// Why a line is not a frame.
#[derive(Clone, Copy, Debug, PartialEq, Eq, Structural)]
pub enum DecodeError {
    /// The line does not have 128 bytes; it has `found`.
    WrongLength { found: usize },
    /// The byte at `position` is the first that is not a hexadecimal digit.
    BadDigit { position: usize },
}

/// How many hexadecimal digits make a frame.
pub const FRAME_DIGITS: usize = 128;

/// The value of the ASCII hexadecimal digit `c`, in either case, if it is one.
pub open spec fn hex_value(c: u8) -> Option<u8> {
    if 0x30 <= c <= 0x39 {
        Some((c - 0x30) as u8)
    } else if 0x61 <= c <= 0x66 {
        Some((c - 0x61 + 10) as u8)
    } else if 0x41 <= c <= 0x46 {
        Some((c - 0x41 + 10) as u8)
    } else {
        None
    }
}

/// Whether `line` is 128 hexadecimal digits and nothing else.
pub open spec fn is_frame_line(line: Seq<u8>) -> bool {
    line.len() == 128 && forall|i: int| 0 <= i < 128 ==> hex_value(#[trigger] line[i]) is Some
}

/// The row mask that the two digits at position `k` of a frame line spell.
pub open spec fn mask_at(line: Seq<u8>, k: int) -> u8 {
    (16 * hex_value(line[2 * k])->0 + hex_value(line[2 * k + 1])->0) as u8
}

/// The position of the first byte of `line` that is not a hexadecimal
/// digit, where there is one among the first 128.
pub open spec fn first_bad_digit(line: Seq<u8>) -> int {
    choose|p: int|
        0 <= p < 128 && hex_value(line[p]) is None && forall|i: int|
            0 <= i < p ==> hex_value(#[trigger] line[i]) is Some
}

/// The error for a line that is not a frame line.
pub open spec fn fault(line: Seq<u8>) -> DecodeError {
    if line.len() != 128 {
        DecodeError::WrongLength { found: line.len() as usize }
    } else {
        DecodeError::BadDigit { position: first_bad_digit(line) as usize }
    }
}

/// The value of one hexadecimal digit.
pub fn hex_digit(c: u8) -> (v: Option<u8>)
    ensures
        v == hex_value(c),
        v matches Some(d) ==> d < 16,
{
    if 0x30 <= c && c <= 0x39 {
        Some(c - 0x30)
    } else if 0x61 <= c && c <= 0x66 {
        Some(c - 0x61 + 10)
    } else if 0x41 <= c && c <= 0x46 {
        Some(c - 0x41 + 10)
    } else {
        None
    }
}

/// Decodes a frame from the bytes of a line.
///
/// Succeeds exactly on 128 hexadecimal digits. Otherwise the error tells
/// the length, if that is wrong, or else the position of the first byte
/// that is not a digit.
pub fn decode_base16(line: &[u8]) -> (res: Result<Frame, DecodeError>)
    ensures
        res is Ok <==> is_frame_line(line@),
        res matches Ok(frame) ==> forall|z: int, x: int|
            0 <= z < 8 && 0 <= x < 8 ==> frame[z][x] == mask_at(line@, 8 * z + x),
        res matches Err(e) ==> e == fault(line@),
{
    if line.len() != FRAME_DIGITS {
        return Err(DecodeError::WrongLength { found: line.len() });
    }
    let mut frame: Frame = [[0u8; 8]; 8];
    let mut k: usize = 0;
    while k < 64
        invariant
            k <= 64,
            line@.len() == 128,
            forall|i: int| 0 <= i < 2 * k ==> hex_value(#[trigger] line@[i]) is Some,
            forall|j: int| 0 <= j < k ==> frame[j / 8][j % 8] == mask_at(line@, j),
        decreases 64 - k,
    {
        let high = match hex_digit(line[2 * k]) {
            Some(v) => v,
            None => {
                proof {
                    lemma_first_bad_digit(line@, 2 * k as int);
                }
                return Err(DecodeError::BadDigit { position: 2 * k });
            },
        };
        let low = match hex_digit(line[2 * k + 1]) {
            Some(v) => v,
            None => {
                proof {
                    lemma_first_bad_digit(line@, 2 * k + 1);
                }
                return Err(DecodeError::BadDigit { position: 2 * k + 1 });
            },
        };
        let ghost before = frame;
        frame[k / 8][k % 8] = 16 * high + low;
        proof {
            assert forall|j: int| 0 <= j < k + 1 implies frame[j / 8][j % 8] == mask_at(
                line@,
                j,
            ) by {
                if j < k {
                    assert(before[j / 8][j % 8] == mask_at(line@, j));
                    assert(j / 8 != k / 8 || j % 8 != k % 8);
                }
            }
        }
        k += 1;
    }
    proof {
        assert forall|z: int, x: int| 0 <= z < 8 && 0 <= x < 8 implies frame[z][x] == mask_at(
            line@,
            8 * z + x,
        ) by {
            let j = 8 * z + x;
            assert(j / 8 == z && j % 8 == x);
        }
    }
    Ok(frame)
}

/// A bad digit that only digits precede is the one that [`fault`] names.
proof fn lemma_first_bad_digit(line: Seq<u8>, p: int)
    requires
        line.len() == 128,
        0 <= p < 128,
        hex_value(line[p]) is None,
        forall|i: int| 0 <= i < p ==> hex_value(#[trigger] line[i]) is Some,
    ensures
        fault(line) == (DecodeError::BadDigit { position: p as usize }),
        !is_frame_line(line),
{
    let q = first_bad_digit(line);
    if q < p {
        assert(hex_value(line[q]) is Some);
    }
    if p < q {
        assert(hex_value(line[p]) is Some);
    }
}

/// Parses one line of hexadecimal digits into a frame.
///
/// The line must be exactly 128 digits, with no line ending.
pub fn read_base16_frame(line: &str) -> (res: Result<Frame, DecodeError>)
    ensures
        res is Ok <==> is_frame_line(line.spec_bytes()),
        res matches Ok(frame) ==> forall|z: int, x: int|
            0 <= z < 8 && 0 <= x < 8 ==> frame[z][x] == mask_at(line.spec_bytes(), 8 * z + x),
        res matches Err(e) ==> e == fault(line.spec_bytes()),
{
    decode_base16(line.as_bytes())
}

} // verus!
