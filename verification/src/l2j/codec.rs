//! Blocks as bytes.
//!
//! Two encodings exist. The standard one, of `.l2j` and `.l2g` files, opens a
//! block with a type byte and counts the layers of a multilayer column in one
//! byte. The wide one, of `_conv.dat` files, uses little-endian words for both.

use vstd::prelude::*;
use vstd::string::StringExecFns;

use crate::error::{AppError, ErrorModel, Result};
use crate::l2j::block::{BlockModel, EditableBlock, EditableBlockType, Layer};
use crate::text::push_decimal;
use crate::l2j::block;
use crate::text;

verus! {

/// A block and the position behind it, or why there is none.
pub type Decoded = std::result::Result<(BlockModel, int), ErrorModel>;

/// The columns of a multilayer block read so far, and the position behind them.
pub type DecodedColumns = std::result::Result<(Seq<Seq<Layer>>, int), ErrorModel>;

/// The little-endian word at a position.
pub open spec fn word(data: Seq<u8>, at: int) -> int {
    data[at] as int + 256 * data[at + 1] as int
}

/// A word read as a two's complement number.
pub open spec fn signed(word: int) -> int {
    if word < 32_768 {
        word
    } else {
        word - 65_536
    }
}

/// The layer packed in a word: twice its height in the upper twelve bits, its
/// mask in the lower four.
pub open spec fn unpacked(word: int) -> Layer {
    Layer { height: (signed(word) / 16 * 8) as i16, nswe: (word % 16) as u8 }
}

/// The layer of a simple block: the word without its low four bits is the
/// height itself, and every side is open.
pub open spec fn flat(word: int) -> Layer {
    Layer { height: (signed(word) / 16 * 16) as i16, nswe: Layer::OPEN }
}

/// Consecutive packed layers.
pub open spec fn layers_at(data: Seq<u8>, at: int, count: int) -> Seq<Layer> {
    Seq::new(count as nat, |i: int| unpacked(word(data, at + 2 * i)))
}

pub open spec fn truncated(index: int, length: nat) -> ErrorModel {
    ErrorModel::InvalidData(
        "unexpected end of L2J at block "@ + text::decimal(index as nat) + ", offset "@
            + text::decimal(length),
    )
}

pub open spec fn unknown_type(index: int, kind: int) -> ErrorModel {
    ErrorModel::InvalidData(
        "invalid L2J/L2G block type "@ + text::decimal(kind as nat) + " at block "@
            + text::decimal(index as nat),
    )
}

pub open spec fn negative_count(index: int, column: int) -> ErrorModel {
    ErrorModel::InvalidData(
        "negative Conv DAT layer count in column "@ + text::decimal(column as nat)
            + " of block "@ + text::decimal(index as nat),
    )
}

pub open spec fn empty_column(index: int, column: int) -> ErrorModel {
    ErrorModel::InvalidData(
        "empty multilayer column "@ + text::decimal(column as nat) + " in block "@
            + text::decimal(index as nat),
    )
}

pub open spec fn too_many_layers(index: int) -> ErrorModel {
    ErrorModel::InvalidData("too many layers in block "@ + text::decimal(index as nat))
}

/// The size of the count that opens a column.
pub open spec fn count_size(wide: bool) -> int {
    if wide {
        2
    } else {
        1
    }
}

pub open spec fn count_at(data: Seq<u8>, at: int, wide: bool) -> int {
    if wide {
        signed(word(data, at))
    } else {
        data[at] as int
    }
}

/// One column of a multilayer block, behind `total` layers of earlier columns.
pub open spec fn column_at(
    data: Seq<u8>,
    at: int,
    wide: bool,
    index: int,
    column: int,
    total: nat,
) -> std::result::Result<(Seq<Layer>, int), ErrorModel> {
    let start = at + count_size(wide);
    let count = count_at(data, at, wide);
    if start > data.len() {
        Err(truncated(index, data.len()))
    } else if count < 0 {
        Err(negative_count(index, column))
    } else if count == 0 {
        Err(empty_column(index, column))
    } else if start + 2 * count > data.len() {
        Err(truncated(index, data.len()))
    } else if total + count > 65_535 {
        Err(too_many_layers(index))
    } else {
        Ok((layers_at(data, start, count), start + 2 * count))
    }
}

/// The first columns of a multilayer block.
pub open spec fn columns_at(
    data: Seq<u8>,
    at: int,
    wide: bool,
    index: int,
    columns: nat,
) -> DecodedColumns
    decreases columns,
{
    if columns == 0 {
        Ok((Seq::empty(), at))
    } else {
        match columns_at(data, at, wide, index, (columns - 1) as nat) {
            Err(error) => Err(error),
            Ok((done, next)) => match column_at(
                data,
                next,
                wide,
                index,
                columns - 1,
                block::layer_total(done),
            ) {
                Err(error) => Err(error),
                Ok((layers, end)) => Ok((done.push(layers), end)),
            },
        }
    }
}

pub open spec fn multilayer_at(data: Seq<u8>, at: int, wide: bool, index: int) -> Decoded {
    match columns_at(data, at, wide, index, 64) {
        Err(error) => Err(error),
        Ok((columns, end)) => Ok(
            (BlockModel { kind: EditableBlockType::Multilayer, columns }, end),
        ),
    }
}

pub open spec fn standard_block_at(data: Seq<u8>, at: int, index: int) -> Decoded {
    if at >= data.len() {
        Err(truncated(index, data.len()))
    } else if data[at] == 0 {
        if at + 3 > data.len() {
            Err(truncated(index, data.len()))
        } else {
            Ok((BlockModel::simple(flat(word(data, at + 1))), at + 3))
        }
    } else if data[at] == 1 {
        if at + 129 > data.len() {
            Err(truncated(index, data.len()))
        } else {
            Ok((BlockModel::complex(layers_at(data, at + 1, 64)), at + 129))
        }
    } else if data[at] == 2 {
        multilayer_at(data, at + 1, false, index)
    } else {
        Err(unknown_type(index, data[at] as int))
    }
}

pub open spec fn wide_block_at(data: Seq<u8>, at: int, index: int) -> Decoded {
    if at + 2 > data.len() {
        Err(truncated(index, data.len()))
    } else if word(data, at) == 0 {
        if at + 6 > data.len() {
            Err(truncated(index, data.len()))
        } else {
            Ok((BlockModel::simple(flat(word(data, at + 2))), at + 6))
        }
    } else if word(data, at) == 64 {
        if at + 130 > data.len() {
            Err(truncated(index, data.len()))
        } else {
            Ok((BlockModel::complex(layers_at(data, at + 2, 64)), at + 130))
        }
    } else {
        multilayer_at(data, at + 2, true, index)
    }
}

/// The block that starts at a position.
#[verifier::opaque]
pub open spec fn block_at(data: Seq<u8>, at: int, wide: bool, index: int) -> Decoded {
    if wide {
        wide_block_at(data, at, index)
    } else {
        standard_block_at(data, at, index)
    }
}

/// Whether a decoded block is the one that the bytes hold.
pub open spec fn decodes_to(
    result: Result<(EditableBlock, usize)>,
    expected: Decoded,
) -> bool {
    match result {
        Ok((block, end)) => expected == Decoded::Ok((block@, end as int)) && block.well_formed(),
        Err(error) => expected == Decoded::Err(error@),
    }
}

fn fail_truncated(index: usize, length: usize) -> (error: AppError)
    ensures
        error@ == truncated(index as int, length as nat),
{
    let mut message = "unexpected end of L2J at block ".to_owned();
    push_decimal(&mut message, index as u64);
    message.append(", offset ");
    push_decimal(&mut message, length as u64);
    AppError::InvalidData(message)
}

fn read_word(data: &[u8], at: usize, index: usize) -> (result: Result<u16>)
    requires
        at <= data.len(),
    ensures
        match result {
            Ok(value) => at + 2 <= data.len() && value == word(data@, at as int),
            Err(error) => at + 2 > data.len() && error@ == truncated(index as int, data@.len()),
        },
{
    if data.len() - at < 2 {
        return Err(fail_truncated(index, data.len()));
    }
    Ok(data[at] as u16 + 256 * (data[at + 1] as u16))
}

fn to_signed(value: u16) -> (number: i32)
    ensures
        number == signed(value as int),
{
    if value < 32_768 {
        value as i32
    } else {
        value as i32 - 65_536
    }
}

fn unpack(raw: u16) -> (layer: Layer)
    ensures
        layer == unpacked(raw as int),
        layer.storable(),
{
    let number: i32 = to_signed(raw);
    let nswe: u8 = (raw % 16) as u8;
    let height: i32 = (number - nswe as i32) / 2;
    Layer { height: height as i16, nswe }
}

fn flat_layer(raw: u16) -> (layer: Layer)
    ensures
        layer == flat(raw as int),
        layer.storable(),
{
    let number: i32 = to_signed(raw);
    Layer { height: (number - (raw % 16) as i32) as i16, nswe: Layer::OPEN }
}

/// Sixty-four packed layers: the body of a complex block.
fn read_complex(data: &[u8], at: usize, index: usize) -> (result: Result<(EditableBlock, usize)>)
    requires
        at <= data.len(),
    ensures
        decodes_to(
            result,
            if at + 128 > data.len() {
                Decoded::Err(truncated(index as int, data@.len()))
            } else {
                Decoded::Ok((BlockModel::complex(layers_at(data@, at as int, 64)), at + 128))
            },
        ),
{
    let mut cells: [Layer; 64] = [Layer { height: 0, nswe: 0 };64];
    let mut column: usize = 0;
    let mut next: usize = at;
    while column < 64
        invariant
            column <= 64,
            next == at + 2 * column,
            next <= data.len(),
            forall|i: int|
                0 <= i < column ==> #[trigger] cells@[i] == unpacked(word(data@, at + 2 * i)),
            forall|i: int| 0 <= i < column ==> (#[trigger] cells@[i]).storable(),
        decreases 64 - column,
    {
        let raw: u16 = match read_word(data, next, index) {
            Ok(raw) => raw,
            Err(error) => {
                return Err(error);
            },
        };
        cells[column] = unpack(raw);
        next += 2;
        column += 1;
    }
    let block = EditableBlock::Complex(cells);
    assert(cells@ =~= layers_at(data@, at as int, 64));
    Ok((block, next))
}

/// One layer count and the layers that follow it.
fn read_column(
    data: &[u8],
    at: usize,
    wide: bool,
    index: usize,
    column: usize,
    layers: &mut Vec<Layer>,
) -> (result: Result<usize>)
    requires
        at <= data.len(),
        old(layers).len() <= 65_535,
    ensures
        match (
            result,
            column_at(data@, at as int, wide, index as int, column as int, old(layers)@.len()),
        ) {
            (Ok(end), Ok((read, expected))) => end == expected && end <= data.len() && read.len()
                >= 1 && final(layers)@ == old(layers)@ + read && final(layers).len() <= 65_535 && (
            forall|i: int| 0 <= i < read.len() ==> (#[trigger] read[i]).storable()),
            (Err(error), Err(expected)) => error@ == expected,
            _ => false,
        },
{
    let mut next: usize = at;
    let count: usize;
    if wide {
        let raw: u16 = match read_word(data, at, index) {
            Ok(raw) => raw,
            Err(error) => {
                return Err(error);
            },
        };
        let number: i32 = to_signed(raw);
        if number < 0 {
            let mut message = "negative Conv DAT layer count in column ".to_owned();
            push_decimal(&mut message, column as u64);
            message.append(" of block ");
            push_decimal(&mut message, index as u64);
            return Err(AppError::InvalidData(message));
        }
        count = number as usize;
        next += 2;
    } else {
        if at >= data.len() {
            return Err(fail_truncated(index, data.len()));
        }
        count = data[at] as usize;
        next += 1;
    }
    if count == 0 {
        let mut message = "empty multilayer column ".to_owned();
        push_decimal(&mut message, column as u64);
        message.append(" in block ");
        push_decimal(&mut message, index as u64);
        return Err(AppError::InvalidData(message));
    }
    let ghost start = next as int;
    let mut read: usize = 0;
    while read < count
        invariant
            read <= count,
            count == count_at(data@, at as int, wide),
            start == at + count_size(wide),
            next == start + 2 * read,
            next <= data.len(),
            old(layers).len() <= 65_535,
            layers@.len() == old(layers)@.len() + read,
            layers@ == old(layers)@ + layers_at(data@, start, read as int),
            forall|i: int|
                0 <= i < read ==> (#[trigger] layers_at(data@, start, read as int)[i]).storable(),
        decreases count - read,
    {
        let raw: u16 = match read_word(data, next, index) {
            Ok(raw) => raw,
            Err(error) => {
                return Err(error);
            },
        };
        layers.push(unpack(raw));
        proof {
            let before = layers_at(data@, start, read as int);
            let after = layers_at(data@, start, read + 1);
            assert(after =~= before.push(unpacked(raw as int)));
            assert forall|i: int| 0 <= i < read + 1 implies (#[trigger] after[i]).storable() by {
                if i < read {
                    assert(before[i].storable());
                }
            }
        }
        next += 2;
        read += 1;
        assert(layers@ =~= old(layers)@ + layers_at(data@, start, read as int));
    }
    if layers.len() > 65_535 {
        let mut message = "too many layers in block ".to_owned();
        push_decimal(&mut message, index as u64);
        return Err(AppError::InvalidData(message));
    }
    Ok(next)
}

proof fn lemma_columns_fail(data: Seq<u8>, at: int, wide: bool, index: int, few: nat, many: nat)
    requires
        few <= many,
        columns_at(data, at, wide, index, few) is Err,
    ensures
        columns_at(data, at, wide, index, many) == columns_at(data, at, wide, index, few),
    decreases many,
{
    if few < many {
        lemma_columns_fail(data, at, wide, index, few, (many - 1) as nat);
    }
}

fn read_multilayer_block(data: &[u8], at: usize, index: usize, wide: bool) -> (result: Result<
    (EditableBlock, usize),
>)
    requires
        at <= data.len(),
    ensures
        decodes_to(result, multilayer_at(data@, at as int, wide, index as int)),
{
    let mut offsets: [u16; 65] = [0;65];
    let mut layers: Vec<Layer> = Vec::new();
    let mut next: usize = at;
    let mut column: usize = 0;
    let ghost mut columns: Seq<Seq<Layer>> = Seq::empty();
    while column < 64
        invariant
            column <= 64,
            next <= data.len(),
            columns_at(data@, at as int, wide, index as int, column as nat) == DecodedColumns::Ok(
                (columns, next as int),
            ),
            columns.len() == column,
            block::layer_total(columns) == layers@.len(),
            layers@.len() <= 65_535,
            offsets@[0] == 0,
            offsets@[column as int] == layers@.len(),
            forall|i: int, j: int|
                0 <= i < j <= column ==> #[trigger] offsets@[i] < #[trigger] offsets@[j],
            forall|i: int|
                0 <= i < column ==> #[trigger] columns[i] == layers@.subrange(
                    offsets@[i] as int,
                    offsets@[i + 1] as int,
                ),
            forall|i: int| 0 <= i < layers@.len() ==> (#[trigger] layers@[i]).storable(),
        decreases 64 - column,
    {
        let ghost before = layers@;
        let ghost cut = offsets@;
        match read_column(data, next, wide, index, column, &mut layers) {
            Ok(end) => {
                proof {
                    let read = column_at(
                        data@,
                        next as int,
                        wide,
                        index as int,
                        column as int,
                        before.len(),
                    )->Ok_0.0;
                    assert(columns.push(read).drop_last() =~= columns);
                    assert forall|i: int| 0 <= i < layers@.len() implies (
                    #[trigger] layers@[i]).storable() by {
                        if i >= before.len() {
                            assert(layers@[i] == read[i - before.len()]);
                        }
                    }
                    columns = columns.push(read);
                }
                next = end;
            },
            Err(error) => {
                proof {
                    lemma_columns_fail(
                        data@,
                        at as int,
                        wide,
                        index as int,
                        (column + 1) as nat,
                        64,
                    );
                }
                return Err(error);
            },
        }
        offsets[column + 1] = layers.len() as u16;
        proof {
            assert forall|i: int| 0 <= i < column + 1 implies #[trigger] columns[i]
                == layers@.subrange(offsets@[i] as int, offsets@[i + 1] as int) by {
                assert(offsets@[i] == cut[i]);
                if i < column {
                    assert(offsets@[i + 1] == cut[i + 1]);
                    assert(cut[i + 1] <= cut[column as int]);
                    assert(layers@.subrange(cut[i] as int, cut[i + 1] as int) =~= before.subrange(
                        cut[i] as int,
                        cut[i + 1] as int,
                    ));
                } else {
                    assert(columns[i] =~= layers@.subrange(
                        offsets@[i] as int,
                        offsets@[i + 1] as int,
                    ));
                }
            }
        }
        column += 1;
    }
    let block = EditableBlock::Multilayer { offsets, layers };
    proof {
        block.lemma_cut();
        assert(block@.columns =~= columns);
        assert forall|i: int, j: int| 0 <= i < 64 && 0 <= j < block@.columns[i].len() implies (
        #[trigger] block@.columns[i][j]).storable() by {
            assert(block.has_column(i));
            assert(block@.columns[i][j] == layers@[offsets@[i] + j]);
        }
    }
    Ok((block, next))
}

fn parse_standard_block(data: &[u8], at: usize, index: usize) -> (result: Result<
    (EditableBlock, usize),
>)
    requires
        at <= data.len(),
    ensures
        decodes_to(result, standard_block_at(data@, at as int, index as int)),
{
    if at >= data.len() {
        return Err(fail_truncated(index, data.len()));
    }
    let kind: u8 = data[at];
    match kind {
        0 => match read_word(data, at + 1, index) {
            Ok(raw) => {
                let layer = flat_layer(raw);
                assert(BlockModel::simple(layer).columns[0] == seq![layer]);
                Ok((EditableBlock::Simple(layer), at + 3))
            },
            Err(error) => Err(error),
        },
        1 => read_complex(data, at + 1, index),
        2 => read_multilayer_block(data, at + 1, index, false),
        _ => {
            let mut message = "invalid L2J/L2G block type ".to_owned();
            push_decimal(&mut message, kind as u64);
            message.append(" at block ");
            push_decimal(&mut message, index as u64);
            Err(AppError::InvalidData(message))
        },
    }
}

fn parse_conv_dat_block(data: &[u8], at: usize, index: usize) -> (result: Result<
    (EditableBlock, usize),
>)
    requires
        at <= data.len(),
    ensures
        decodes_to(result, wide_block_at(data@, at as int, index as int)),
{
    let kind: u16 = match read_word(data, at, index) {
        Ok(kind) => kind,
        Err(error) => {
            return Err(error);
        },
    };
    if kind == 0 {
        let raw: u16 = match read_word(data, at + 2, index) {
            Ok(raw) => raw,
            Err(error) => {
                return Err(error);
            },
        };
        // The second word, a minimum height, is not used.
        match read_word(data, at + 4, index) {
            Ok(_) => {
                let layer = flat_layer(raw);
                assert(BlockModel::simple(layer).columns[0] == seq![layer]);
                Ok((EditableBlock::Simple(layer), at + 6))
            },
            Err(error) => Err(error),
        }
    } else if kind == 64 {
        read_complex(data, at + 2, index)
    } else {
        read_multilayer_block(data, at + 2, index, true)
    }
}

/// Reads the block that starts at a position.
pub fn parse_block(data: &[u8], at: usize, wide: bool, index: usize) -> (result: Result<
    (EditableBlock, usize),
>)
    requires
        at <= data.len(),
    ensures
        decodes_to(result, block_at(data@, at as int, wide, index as int)),
        result is Ok ==> at < result->Ok_0.1 <= data.len(),
{
    proof {
        reveal(block_at);
    }
    let result = if wide {
        parse_conv_dat_block(data, at, index)
    } else {
        parse_standard_block(data, at, index)
    };
    proof {
        if block_at(data@, at as int, wide, index as int) is Ok {
            lemma_block_end(data@, at as int, wide, index as int);
        }
    }
    result
}

/// A block that was read ends inside the bytes, behind its start.
pub proof fn lemma_block_end(data: Seq<u8>, at: int, wide: bool, index: int)
    requires
        0 <= at,
        block_at(data, at, wide, index) is Ok,
    ensures
        at < block_at(data, at, wide, index)->Ok_0.1 <= data.len(),
{
    reveal(block_at);
    let start = if wide {
        at + 2
    } else {
        at + 1
    };
    if columns_at(data, start, wide, index, 64) is Ok {
        lemma_columns_end(data, start, wide, index, 64);
    }
}

pub proof fn lemma_columns_end(data: Seq<u8>, at: int, wide: bool, index: int, columns: nat)
    requires
        0 <= at,
        columns_at(data, at, wide, index, columns) is Ok,
    ensures
        columns_at(data, at, wide, index, columns)->Ok_0.0.len() == columns,
        at <= columns_at(data, at, wide, index, columns)->Ok_0.1,
        columns > 0 ==> columns_at(data, at, wide, index, columns)->Ok_0.1 <= data.len(),
    decreases columns,
{
    if columns > 0 {
        lemma_columns_end(data, at, wide, index, (columns - 1) as nat);
    }
}

} // verus!
