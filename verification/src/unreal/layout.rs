//! Runs of equal things in the bytes of an object.

use vstd::prelude::*;

use crate::error::Result;
use crate::unreal::reader;
use crate::unreal::reader::{Parsed, Reader, Vector};

verus! {

/// An array of entries of a fixed size: how many there are and where they
/// start.
pub open spec fn rows_at(bytes: Seq<u8>, pos: int, size: int) -> Parsed<(int, int)> {
    match reader::count_at(bytes, pos, "array"@) {
        Err(error) => Err(error),
        Ok((count, start)) => if start + count * size <= bytes.len() {
            Ok(((count as int, start), start + count * size))
        } else {
            Err(reader::out_of_bytes())
        },
    }
}

/// Compact indices behind those that were read.
pub open spec fn indexes_from(bytes: Seq<u8>, pos: int, count: nat, done: Seq<i32>) -> Parsed<
    Seq<i32>,
>
    decreases count,
{
    if count == 0 {
        Ok((done, pos))
    } else {
        match reader::index_at(bytes, pos) {
            Err(error) => Err(error),
            Ok((index, next)) => indexes_from(bytes, next, (count - 1) as nat, done.push(index)),
        }
    }
}

/// A number of compact indices.
pub open spec fn indexes_at(bytes: Seq<u8>, pos: int, count: nat) -> Parsed<Seq<i32>> {
    indexes_from(bytes, pos, count, Seq::empty())
}

/// The position behind a number of strings.
pub open spec fn behind_strings(bytes: Seq<u8>, pos: int, count: nat) -> Parsed<()>
    decreases count,
{
    if count == 0 {
        Ok(((), pos))
    } else {
        match reader::string_at(bytes, pos) {
            Err(error) => Err(error),
            Ok((_, next)) => behind_strings(bytes, next, (count - 1) as nat),
        }
    }
}

/// Reads the length of an array of entries of a fixed size, and moves behind
/// the entries.
pub(crate) fn read_rows(reader: &mut Reader<'_>, size: usize) -> (result: Result<(usize, usize)>)
    requires
        size <= 100,
    ensures
        final(reader).bytes == old(reader).bytes,
        match (result, rows_at(old(reader).bytes@, old(reader).pos as int, size as int)) {
            (Ok((count, start)), Ok((expected, end))) => {
                &&& count == expected.0
                &&& start == expected.1
                &&& final(reader).pos == end
            },
            (Err(error), Err(expected)) => error@ == expected,
            _ => false,
        },
{
    let count: i32 = reader.count("array")?;
    let start: usize = reader.pos;
    assert(count * size <= 1_000_000_000) by (nonlinear_arith)
        requires
            0 <= count <= 10_000_000,
            0 <= size <= 100,
    ;
    assert(0 <= count * size) by (nonlinear_arith)
        requires
            0 <= count,
            0 <= size,
    ;
    reader.skip(count as usize * size)?;
    Ok((count as usize, start))
}

/// Reads compact indices.
pub(crate) fn read_indexes(reader: &mut Reader<'_>, count: usize) -> (result: Result<Vec<i32>>)
    ensures
        reader::reads_view(
            *old(reader),
            *final(reader),
            result,
            indexes_at(old(reader).bytes@, old(reader).pos as int, count as nat),
        ),
{
    let mut indexes: Vec<i32> = Vec::new();
    let mut left: usize = count;
    while left > 0
        invariant
            reader.bytes == old(reader).bytes,
            indexes_at(old(reader).bytes@, old(reader).pos as int, count as nat) == indexes_from(
                reader.bytes@,
                reader.pos as int,
                left as nat,
                indexes@,
            ),
        decreases left,
    {
        let index: i32 = reader.index()?;
        indexes.push(index);
        left = left - 1;
    }
    Ok(indexes)
}

/// Moves behind strings.
pub(crate) fn skip_strings(reader: &mut Reader<'_>, count: usize) -> (result: Result<()>)
    ensures
        reader::reads(
            *old(reader),
            *final(reader),
            result,
            behind_strings(old(reader).bytes@, old(reader).pos as int, count as nat),
        ),
{
    let mut left: usize = count;
    while left > 0
        invariant
            reader.bytes == old(reader).bytes,
            behind_strings(old(reader).bytes@, old(reader).pos as int, count as nat)
                == behind_strings(reader.bytes@, reader.pos as int, left as nat),
        decreases left,
    {
        let _text = reader.string()?;
        left = left - 1;
    }
    Ok(())
}

/// The number in two bytes.
pub fn word_in(bytes: &[u8], at: usize) -> (value: u16)
    requires
        at + 2 <= bytes@.len(),
    ensures
        value == reader::word(bytes@, at as int),
{
    bytes[at] as u16 + 256 * bytes[at + 1] as u16
}

/// The number in four bytes.
pub fn long_in(bytes: &[u8], at: usize) -> (value: u32)
    requires
        at + 4 <= bytes@.len(),
    ensures
        value == reader::long(bytes@, at as int),
{
    assert(bytes.len() <= usize::MAX);
    word_in(bytes, at) as u32 + 65_536 * word_in(bytes, at + 2) as u32
}

/// The vector in twelve bytes.
pub fn vector_in(bytes: &[u8], at: usize) -> (value: Vector)
    requires
        at + 12 <= bytes@.len(),
    ensures
        value == reader::vector(bytes@, at as int),
{
    assert(bytes.len() <= usize::MAX);
    Vector { x: long_in(bytes, at), y: long_in(bytes, at + 4), z: long_in(bytes, at + 8) }
}

} // verus!
