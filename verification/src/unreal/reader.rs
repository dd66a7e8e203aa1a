//! Values in the bytes of a package.
//!
//! Numbers are little-endian. Floating-point numbers are carried as their bit
//! patterns.

use vstd::prelude::*;

use crate::error::{AppError, ErrorModel, Result};
use crate::text;
use crate::text::push_signed;
use vstd::string::StringExecFns;

verus! {

/// A value and the position behind it, or why there is none.
pub type Parsed<T> = std::result::Result<(T, int), ErrorModel>;

pub open spec fn out_of_bytes() -> ErrorModel {
    ErrorModel::InvalidData("unexpected EOF in Unreal package"@)
}

/// The position behind a run of bytes.
pub open spec fn behind(bytes: Seq<u8>, pos: int, size: int) -> Parsed<()> {
    if pos + size <= bytes.len() {
        Ok(((), pos + size))
    } else {
        Err(out_of_bytes())
    }
}

/// A run of bytes.
pub open spec fn bytes_at(bytes: Seq<u8>, pos: int, size: int) -> Parsed<Seq<u8>> {
    if pos + size <= bytes.len() {
        Ok((bytes.subrange(pos, pos + size), pos + size))
    } else {
        Err(out_of_bytes())
    }
}

pub open spec fn byte_at(bytes: Seq<u8>, pos: int) -> Parsed<u8> {
    if pos < bytes.len() {
        Ok((bytes[pos], pos + 1))
    } else {
        Err(out_of_bytes())
    }
}

/// The number in two bytes.
pub open spec fn word(bytes: Seq<u8>, pos: int) -> int {
    bytes[pos] + 256 * bytes[pos + 1]
}

/// The number in four bytes.
pub open spec fn long(bytes: Seq<u8>, pos: int) -> int {
    word(bytes, pos) + 65_536 * word(bytes, pos + 2)
}

/// A number below two to the sixteenth, read as a two's complement number.
pub open spec fn signed_word(value: int) -> int {
    if value < 32_768 {
        value
    } else {
        value - 65_536
    }
}

/// A number below two to the thirty-second, read as a two's complement number.
pub open spec fn signed_long(value: int) -> int {
    if value < 2_147_483_648 {
        value
    } else {
        value - 4_294_967_296
    }
}

pub open spec fn u16_at(bytes: Seq<u8>, pos: int) -> Parsed<u16> {
    if pos + 2 <= bytes.len() {
        Ok((word(bytes, pos) as u16, pos + 2))
    } else {
        Err(out_of_bytes())
    }
}

pub open spec fn i16_at(bytes: Seq<u8>, pos: int) -> Parsed<i16> {
    if pos + 2 <= bytes.len() {
        Ok((signed_word(word(bytes, pos)) as i16, pos + 2))
    } else {
        Err(out_of_bytes())
    }
}

pub open spec fn u32_at(bytes: Seq<u8>, pos: int) -> Parsed<u32> {
    if pos + 4 <= bytes.len() {
        Ok((long(bytes, pos) as u32, pos + 4))
    } else {
        Err(out_of_bytes())
    }
}

pub open spec fn i32_at(bytes: Seq<u8>, pos: int) -> Parsed<i32> {
    if pos + 4 <= bytes.len() {
        Ok((signed_long(long(bytes, pos)) as i32, pos + 4))
    } else {
        Err(out_of_bytes())
    }
}

/// A vector of three floating-point numbers, as bits.
#[derive(Clone, Copy, Debug, PartialEq, Eq, Structural)]
pub struct Vector {
    pub x: u32,
    pub y: u32,
    pub z: u32,
}

/// A rotation. A full turn is 65,536.
#[derive(Clone, Copy, Debug, PartialEq, Eq, Structural)]
pub struct Rotator {
    pub pitch: i32,
    pub yaw: i32,
    pub roll: i32,
}

/// The vector in twelve bytes.
pub open spec fn vector(bytes: Seq<u8>, pos: int) -> Vector {
    Vector {
        x: long(bytes, pos) as u32,
        y: long(bytes, pos + 4) as u32,
        z: long(bytes, pos + 8) as u32,
    }
}

pub open spec fn vector_at(bytes: Seq<u8>, pos: int) -> Parsed<Vector> {
    if pos + 12 <= bytes.len() {
        Ok((vector(bytes, pos), pos + 12))
    } else {
        Err(out_of_bytes())
    }
}

pub open spec fn rotator_at(bytes: Seq<u8>, pos: int) -> Parsed<Rotator> {
    if pos + 12 <= bytes.len() {
        Ok(
            (
                Rotator {
                    pitch: signed_long(long(bytes, pos)) as i32,
                    yaw: signed_long(long(bytes, pos + 4)) as i32,
                    roll: signed_long(long(bytes, pos + 8)) as i32,
                },
                pos + 12,
            ),
        )
    } else {
        Err(out_of_bytes())
    }
}

/// The index of an array element: one byte, or two where the first is 128 or
/// more. The first byte keeps its high bit.
pub open spec fn array_index_at(bytes: Seq<u8>, pos: int) -> Parsed<u32> {
    if pos >= bytes.len() {
        Err(out_of_bytes())
    } else if bytes[pos] < 128 {
        Ok((bytes[pos] as u32, pos + 1))
    } else if pos + 1 >= bytes.len() {
        Err(out_of_bytes())
    } else {
        Ok((word(bytes, pos) as u32, pos + 2))
    }
}

/// The weight of the digits of a continuation byte of a compact index.
pub open spec fn weight(digits: nat) -> int
    decreases digits,
{
    if digits == 0 {
        64
    } else {
        128 * weight((digits - 1) as nat)
    }
}

/// The magnitude of a compact index with its continuation bytes, of which
/// there are at most four. A byte of 128 or more announces another one.
pub open spec fn magnitude_at(bytes: Seq<u8>, pos: int, digits: nat, total: int) -> Parsed<int>
    decreases 4 - digits,
{
    if pos >= bytes.len() {
        Err(out_of_bytes())
    } else {
        let sum = total + bytes[pos] % 128 * weight(digits);
        if bytes[pos] < 128 || digits >= 3 {
            Ok((sum, pos + 1))
        } else {
            magnitude_at(bytes, pos + 1, digits + 1, sum)
        }
    }
}

/// The number that a sign and a magnitude write, in 32 bits.
pub open spec fn compact(negative: bool, magnitude: int) -> i32 {
    signed_long(
        (if negative {
            -magnitude
        } else {
            magnitude
        }) % 4_294_967_296,
    ) as i32
}

/// A compact index. The first byte holds the sign, whether there is more, and
/// six bits of the magnitude.
pub open spec fn index_at(bytes: Seq<u8>, pos: int) -> Parsed<i32> {
    if pos >= bytes.len() {
        Err(out_of_bytes())
    } else {
        let first = bytes[pos];
        if first % 128 < 64 {
            Ok((compact(first >= 128, first as int % 64), pos + 1))
        } else {
            match magnitude_at(bytes, pos + 1, 0, first as int % 64) {
                Err(error) => Err(error),
                Ok((magnitude, end)) => Ok((compact(first >= 128, magnitude), end)),
            }
        }
    }
}

proof fn lemma_magnitude_advances(bytes: Seq<u8>, pos: int, digits: nat, total: int)
    requires
        0 <= pos,
    ensures
        magnitude_at(bytes, pos, digits, total) matches Ok((_, end)) ==> pos < end <= bytes.len(),
    decreases 4 - digits,
{
    if pos < bytes.len() && bytes[pos] >= 128 && digits < 3 {
        lemma_magnitude_advances(
            bytes,
            pos + 1,
            digits + 1,
            total + bytes[pos] % 128 * weight(digits),
        );
    }
}

/// A compact index takes at least one byte, and ends within the bytes.
pub proof fn lemma_index_advances(bytes: Seq<u8>, pos: int)
    requires
        0 <= pos,
    ensures
        index_at(bytes, pos) matches Ok((_, end)) ==> pos < end <= bytes.len(),
{
    if pos < bytes.len() {
        lemma_magnitude_advances(bytes, pos + 1, 0, bytes[pos] as int % 64);
    }
}

/// Bytes without a zero at their end.
pub open spec fn unterminated(bytes: Seq<u8>) -> Seq<u8> {
    if bytes.len() > 0 && bytes.last() == 0 {
        bytes.drop_last()
    } else {
        bytes
    }
}

/// A string: its length as a compact index, then its bytes.
pub open spec fn string_at(bytes: Seq<u8>, pos: int) -> Parsed<Seq<char>> {
    match index_at(bytes, pos) {
        Err(error) => Err(error),
        Ok((length, start)) => if length < 0 {
            Err(
                ErrorModel::Unsupported(
                    "UTF-16 Unreal strings are not supported by the current C++ reader either"@,
                ),
            )
        } else {
            match bytes_at(bytes, start, length as int) {
                Err(error) => Err(error),
                Ok((content, end)) => {
                    let content = unterminated(content);
                    if vstd::utf8::valid_utf8(content) {
                        Ok((vstd::utf8::decode_utf8(content), end))
                    } else {
                        Err(ErrorModel::InvalidData("invalid ANSI string in Unreal package"@))
                    }
                },
            }
        },
    }
}

/// Whether a count is one that a package may hold.
pub open spec fn countable(count: int) -> bool {
    0 <= count <= 10_000_000
}

pub open spec fn bad_count(label: Seq<char>, count: int) -> ErrorModel {
    ErrorModel::InvalidData("invalid "@ + label + " count: "@ + text::signed_decimal(count))
}

/// A checked count, as a compact index.
pub open spec fn count_at(bytes: Seq<u8>, pos: int, label: Seq<char>) -> Parsed<i32> {
    match index_at(bytes, pos) {
        Err(error) => Err(error),
        Ok((count, end)) => if countable(count as int) {
            Ok((count, end))
        } else {
            Err(bad_count(label, count as int))
        },
    }
}

/// A reading position in bytes.
pub struct Reader<'a> {
    pub bytes: &'a [u8],
    pub pos: usize,
}

/// Where a read stops that goes byte by byte and finds no more of them.
pub open spec fn run_out(bytes: Seq<u8>, pos: int) -> int {
    if pos < bytes.len() {
        bytes.len() as int
    } else {
        pos
    }
}

/// Where a read of three numbers of four bytes stops when the bytes run out:
/// behind the numbers that are whole.
pub open spec fn whole_longs(bytes: Seq<u8>, pos: int) -> int {
    if pos + 8 <= bytes.len() {
        pos + 8
    } else if pos + 4 <= bytes.len() {
        pos + 4
    } else {
        pos
    }
}

/// Where a count stops that is not accepted: behind its index, if there is one.
pub open spec fn count_stop(bytes: Seq<u8>, pos: int) -> int {
    match index_at(bytes, pos) {
        Ok((_, end)) => end,
        Err(_) => run_out(bytes, pos),
    }
}

/// Where a string stops that is not accepted: behind its bytes if they are
/// there and no text, else behind its length, if there is one.
pub open spec fn string_stop(bytes: Seq<u8>, pos: int) -> int {
    match index_at(bytes, pos) {
        Ok((length, end)) => if 0 <= length && end + length <= bytes.len() {
            end + length
        } else {
            end
        },
        Err(_) => run_out(bytes, pos),
    }
}

/// What a read does: it hands out what was expected and moves behind it, or it
/// fails as expected. Where it stops when it fails is said apart, if at all.
pub open spec fn reads<T>(
    before: Reader<'_>,
    after: Reader<'_>,
    result: Result<T>,
    expected: Parsed<T>,
) -> bool {
    &&& after.bytes == before.bytes
    &&& match (result, expected) {
        (Ok(value), Ok((wanted, end))) => value == wanted && after.pos == end,
        (Err(error), Err(wanted)) => error@ == wanted,
        _ => false,
    }
}

/// [`reads`], for a value that is compared by what it holds.
pub open spec fn reads_view<T: View>(
    before: Reader<'_>,
    after: Reader<'_>,
    result: Result<T>,
    expected: Parsed<T::V>,
) -> bool {
    &&& after.bytes == before.bytes
    &&& match (result, expected) {
        (Ok(value), Ok((wanted, end))) => value@ == wanted && after.pos == end,
        (Err(error), Err(wanted)) => error@ == wanted,
        _ => false,
    }
}

/// Calls `String::from_utf8`. It accepts exactly the bytes that are valid
/// UTF-8, and gives the text that they encode.
#[verifier::external_body]
fn utf8_text(bytes: Vec<u8>) -> (content: Option<String>)
    ensures
        content is Some == vstd::utf8::valid_utf8(bytes@),
        content is Some ==> content->0@ == vstd::utf8::decode_utf8(bytes@),
{
    String::from_utf8(bytes).ok()
}

pub fn out_of_bytes_error() -> (error: AppError)
    ensures
        error@ == out_of_bytes(),
{
    AppError::InvalidData("unexpected EOF in Unreal package".to_owned())
}

/// Accepts a count from zero to ten million.
pub fn check_count(label: &str, count: i32) -> (result: Result<()>)
    ensures
        match result {
            Ok(_) => countable(count as int),
            Err(error) => !countable(count as int) && error@ == bad_count(label@, count as int),
        },
{
    if count < 0 || count > 10_000_000 {
        let mut message = "invalid ".to_owned();
        message.append(label);
        message.append(" count: ");
        push_signed(&mut message, count as i64);
        Err(AppError::InvalidData(message))
    } else {
        Ok(())
    }
}

impl<'a> Reader<'a> {
    pub fn new(bytes: &'a [u8], pos: usize) -> (reader: Self)
        ensures
            reader.bytes == bytes,
            reader.pos == pos,
    {
        Reader { bytes, pos }
    }

    /// The number of bytes from the position on.
    pub fn remaining(&self) -> (count: usize)
        ensures
            count == if self.pos <= self.bytes@.len() {
                self.bytes@.len() - self.pos
            } else {
                0
            },
    {
        if self.pos <= self.bytes.len() {
            self.bytes.len() - self.pos
        } else {
            0
        }
    }

    /// Moves over bytes.
    pub fn skip(&mut self, size: usize) -> (result: Result<()>)
        ensures
            reads(
                *old(self),
                *final(self),
                result,
                behind(old(self).bytes@, old(self).pos as int, size as int),
            ),
            result is Err ==> final(self).pos == old(self).pos,
    {
        if self.remaining() < size || self.pos > self.bytes.len() {
            return Err(out_of_bytes_error());
        }
        self.pos = self.pos + size;
        Ok(())
    }

    pub fn bytes(&mut self, size: usize) -> (result: Result<Vec<u8>>)
        ensures
            reads_view(
                *old(self),
                *final(self),
                result,
                bytes_at(old(self).bytes@, old(self).pos as int, size as int),
            ),
            result is Err ==> final(self).pos == old(self).pos,
    {
        let start: usize = self.pos;
        self.skip(size)?;
        Ok(vstd::slice::slice_to_vec(vstd::slice::slice_subrange(self.bytes, start, start + size)))
    }

    pub fn u8(&mut self) -> (result: Result<u8>)
        ensures
            reads(
                *old(self),
                *final(self),
                result,
                byte_at(old(self).bytes@, old(self).pos as int),
            ),
            result is Err ==> final(self).pos == old(self).pos,
    {
        let start: usize = self.pos;
        self.skip(1)?;
        Ok(self.bytes[start])
    }

    pub fn u16(&mut self) -> (result: Result<u16>)
        ensures
            reads(*old(self), *final(self), result, u16_at(old(self).bytes@, old(self).pos as int)),
            result is Err ==> final(self).pos == old(self).pos,
    {
        let start: usize = self.pos;
        self.skip(2)?;
        Ok(self.bytes[start] as u16 + 256 * self.bytes[start + 1] as u16)
    }

    pub fn i16(&mut self) -> (result: Result<i16>)
        ensures
            reads(*old(self), *final(self), result, i16_at(old(self).bytes@, old(self).pos as int)),
            result is Err ==> final(self).pos == old(self).pos,
    {
        let value: u16 = self.u16()?;
        if value < 32_768 {
            Ok(value as i16)
        } else {
            Ok((value as i32 - 65_536) as i16)
        }
    }

    pub fn u32(&mut self) -> (result: Result<u32>)
        ensures
            reads(*old(self), *final(self), result, u32_at(old(self).bytes@, old(self).pos as int)),
            result is Err ==> final(self).pos == old(self).pos,
    {
        let start: usize = self.pos;
        self.skip(4)?;
        let low: u32 = self.bytes[start] as u32 + 256 * self.bytes[start + 1] as u32;
        let high: u32 = self.bytes[start + 2] as u32 + 256 * self.bytes[start + 3] as u32;
        Ok(low + 65_536 * high)
    }

    pub fn i32(&mut self) -> (result: Result<i32>)
        ensures
            reads(*old(self), *final(self), result, i32_at(old(self).bytes@, old(self).pos as int)),
            result is Err ==> final(self).pos == old(self).pos,
    {
        let value: u32 = self.u32()?;
        if value < 2_147_483_648 {
            Ok(value as i32)
        } else {
            Ok((value as i64 - 4_294_967_296) as i32)
        }
    }

    pub fn vector(&mut self) -> (result: Result<Vector>)
        ensures
            reads(
                *old(self),
                *final(self),
                result,
                vector_at(old(self).bytes@, old(self).pos as int),
            ),
            result is Err ==> final(self).pos == whole_longs(
                old(self).bytes@,
                old(self).pos as int,
            ),
    {
        let x: u32 = self.u32()?;
        let y: u32 = self.u32()?;
        let z: u32 = self.u32()?;
        Ok(Vector { x, y, z })
    }

    pub fn rotator(&mut self) -> (result: Result<Rotator>)
        ensures
            reads(
                *old(self),
                *final(self),
                result,
                rotator_at(old(self).bytes@, old(self).pos as int),
            ),
            result is Err ==> final(self).pos == whole_longs(
                old(self).bytes@,
                old(self).pos as int,
            ),
    {
        let pitch: i32 = self.i32()?;
        let yaw: i32 = self.i32()?;
        let roll: i32 = self.i32()?;
        Ok(Rotator { pitch, yaw, roll })
    }

    pub fn array_index(&mut self) -> (result: Result<u32>)
        ensures
            reads(
                *old(self),
                *final(self),
                result,
                array_index_at(old(self).bytes@, old(self).pos as int),
            ),
            result is Err ==> final(self).pos == run_out(
                old(self).bytes@,
                old(self).pos as int,
            ),
    {
        let first: u8 = self.u8()?;
        if first < 128 {
            return Ok(first as u32);
        }
        let second: u8 = self.u8()?;
        Ok(first as u32 + 256 * second as u32)
    }

    /// Reads a compact index.
    pub fn index(&mut self) -> (result: Result<i32>)
        ensures
            reads(
                *old(self),
                *final(self),
                result,
                index_at(old(self).bytes@, old(self).pos as int),
            ),
            result is Err ==> final(self).pos == run_out(
                old(self).bytes@,
                old(self).pos as int,
            ),
    {
        let first: u8 = self.u8()?;
        let mut total: u64 = first as u64 % 64;
        let mut more: bool = first % 128 >= 64;
        let mut digits: usize = 0;
        let mut place: u64 = 64;
        while more
            invariant
                self.bytes == old(self).bytes,
                old(self).pos < self.pos <= self.bytes@.len(),
                digits <= 4,
                digits == 4 ==> !more,
                place == weight(digits as nat),
                digits <= 4,
                place <= 64 * 128 * 128 * 128 * 128,
                digits == 0 ==> place == 64,
                digits == 1 ==> place == 8_192,
                digits == 2 ==> place == 1_048_576,
                digits == 3 ==> place == 134_217_728,
                total <= 63 + 127 * 64 * 2 * digits * 2_097_152,
                more ==> index_at(old(self).bytes@, old(self).pos as int) == (match magnitude_at(
                    self.bytes@,
                    self.pos as int,
                    digits as nat,
                    total as int,
                ) {
                    Err(error) => Err(error),
                    Ok((magnitude, end)) => Ok((compact(first >= 128, magnitude), end)),
                }),
                !more ==> index_at(old(self).bytes@, old(self).pos as int) == Ok::<_, ErrorModel>(
                    (compact(first >= 128, total as int), self.pos as int),
                ),
            decreases 4 - digits,
        {
            let byte: u8 = self.u8()?;
            total = total + (byte % 128) as u64 * place;
            more = byte >= 128 && digits < 3;
            digits = digits + 1;
            place = place * 128;
        }
        let low: u64 = total % 4_294_967_296;
        let bits: u64 = if first >= 128 {
            (4_294_967_296 - low) % 4_294_967_296
        } else {
            low
        };
        if bits < 2_147_483_648 {
            Ok(bits as i32)
        } else {
            Ok((bits as i64 - 4_294_967_296) as i32)
        }
    }

    /// Reads a checked count.
    pub fn count(&mut self, label: &str) -> (result: Result<i32>)
        ensures
            reads(
                *old(self),
                *final(self),
                result,
                count_at(old(self).bytes@, old(self).pos as int, label@),
            ),
            result is Err ==> final(self).pos == count_stop(old(self).bytes@, old(self).pos as int),
    {
        let count: i32 = self.index()?;
        check_count(label, count)?;
        Ok(count)
    }

    pub fn string(&mut self) -> (result: Result<String>)
        ensures
            reads_view(
                *old(self),
                *final(self),
                result,
                string_at(old(self).bytes@, old(self).pos as int),
            ),
            result is Err ==> final(self).pos == string_stop(old(self).bytes@, old(self).pos as int),
    {
        let length: i32 = self.index()?;
        if length < 0 {
            return Err(
                AppError::Unsupported(
                    "UTF-16 Unreal strings are not supported by the current C++ reader either".to_owned(),
                ),
            );
        }
        let mut content = self.bytes(length as usize)?;
        let ghost read = content@;
        if content.len() > 0 && content[content.len() - 1] == 0 {
            content.pop();
            assert(content@ =~= read.drop_last());
        }
        match utf8_text(content) {
            Some(text) => Ok(text),
            None => Err(
                AppError::InvalidData("invalid ANSI string in Unreal package".to_owned()),
            ),
        }
    }
}

} // verus!
