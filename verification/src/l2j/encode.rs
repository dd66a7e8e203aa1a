//! Blocks back to bytes, and why reading gives back what was written.

use vstd::prelude::*;

use crate::error::{AppError, ErrorModel, Result};
use crate::l2j::block::{BlockModel, EditableBlock, EditableBlockType, Layer};
use crate::l2j::block;

verus! {

/// The bytes of a block, or why it has none.
pub type Encoded = std::result::Result<Seq<u8>, ErrorModel>;

pub open spec fn word_bytes(value: int) -> Seq<u8> {
    seq![(value % 256) as u8, (value / 256 % 256) as u8]
}

/// The word that packs a layer.
pub open spec fn packed(layer: Layer) -> int {
    (2 * layer.height + layer.nswe) % 65_536
}

/// The word of a simple block: its height without the low four bits.
pub open spec fn flat_word(layer: Layer) -> int {
    (layer.height / 16 * 16) % 65_536
}

/// Packed layers, one after the other.
pub open spec fn layers_bytes(layers: Seq<Layer>) -> Seq<u8>
    decreases layers.len(),
{
    if layers.len() == 0 {
        Seq::empty()
    } else {
        layers_bytes(layers.drop_last()) + word_bytes(packed(layers.last()))
    }
}

pub open spec fn count_bytes(count: int, wide: bool) -> Seq<u8> {
    if wide {
        word_bytes(count)
    } else {
        seq![count as u8]
    }
}

/// Every column with its layer count, one after the other.
pub open spec fn columns_bytes(columns: Seq<Seq<Layer>>, wide: bool) -> Seq<u8>
    decreases columns.len(),
{
    if columns.len() == 0 {
        Seq::empty()
    } else {
        columns_bytes(columns.drop_last(), wide) + count_bytes(
            columns.last().len() as int,
            wide,
        ) + layers_bytes(columns.last())
    }
}

/// The layers of single-layer columns.
pub open spec fn cells(columns: Seq<Seq<Layer>>) -> Seq<Layer> {
    Seq::new(columns.len(), |i: int| columns[i][0])
}

/// The longest column that the count in front of it can announce.
pub open spec fn longest_column(wide: bool) -> int {
    if wide {
        32_767
    } else {
        255
    }
}

pub open spec fn columns_fit(columns: Seq<Seq<Layer>>, wide: bool) -> bool {
    forall|i: int|
        0 <= i < columns.len() ==> (#[trigger] columns[i]).len() <= longest_column(wide)
}

pub open spec fn standard_bytes(block: BlockModel) -> Encoded {
    match block.kind {
        EditableBlockType::Simple => Ok(seq![0u8] + word_bytes(flat_word(block.columns[0][0]))),
        EditableBlockType::Complex => Ok(seq![1u8] + layers_bytes(cells(block.columns))),
        EditableBlockType::Multilayer => if columns_fit(block.columns, false) {
            Ok(seq![2u8] + columns_bytes(block.columns, false))
        } else {
            Err(ErrorModel::InvalidData("L2J/L2G column has more than 255 layers"@))
        },
    }
}

pub open spec fn wide_bytes(block: BlockModel) -> Encoded {
    match block.kind {
        EditableBlockType::Simple => Ok(
            word_bytes(0) + word_bytes(flat_word(block.columns[0][0])) + word_bytes(
                flat_word(block.columns[0][0]),
            ),
        ),
        EditableBlockType::Complex => Ok(word_bytes(64) + layers_bytes(cells(block.columns))),
        EditableBlockType::Multilayer => {
            let payload = columns_bytes(block.columns, true);
            if !columns_fit(block.columns, true) {
                Err(ErrorModel::InvalidData("Conv DAT column has more than 32,767 layers"@))
            } else if payload.len() - 64 > 32_767 {
                Err(ErrorModel::InvalidData("Conv DAT multilayer payload is too large"@))
            } else {
                Ok(word_bytes(payload.len() - 64) + payload)
            }
        },
    }
}

/// The bytes that a block is written as.
pub open spec fn block_bytes(block: BlockModel, wide: bool) -> Encoded {
    if wide {
        wide_bytes(block)
    } else {
        standard_bytes(block)
    }
}

fn write_word(output: &mut Vec<u8>, value: i32)
    requires
        -32_768 <= value < 65_536,
    ensures
        final(output)@ == old(output)@ + word_bytes(value as int % 65_536),
{
    let word: u32 = if value < 0 {
        (value + 65_536) as u32
    } else {
        value as u32
    };
    assert(word == value as int % 65_536);
    output.push((word % 256) as u8);
    output.push((word / 256) as u8);
    assert(final(output)@ =~= old(output)@ + word_bytes(value as int % 65_536));
}

/// Twice the height with the mask in the freed bits, kept to sixteen bits.
fn write_complex(output: &mut Vec<u8>, layer: Layer)
    requires
        layer.storable(),
    ensures
        final(output)@ == old(output)@ + word_bytes(packed(layer)),
{
    let value: i32 = 2 * (layer.height as i32) + layer.nswe as i32;
    let kept: i32 = if value >= 32_768 {
        value - 65_536
    } else if value < -32_768 {
        value + 65_536
    } else {
        value
    };
    assert(kept as int % 65_536 == value as int % 65_536);
    write_word(output, kept);
}

fn write_flat(output: &mut Vec<u8>, layer: Layer)
    ensures
        final(output)@ == old(output)@ + word_bytes(flat_word(layer)),
{
    let height: i32 = layer.height as i32;
    let low: i32 = (height + 32_768) % 16;
    assert(low == height as int % 16);
    assert(height - low == height as int / 16 * 16);
    write_word(output, height - low);
}

fn write_layers(output: &mut Vec<u8>, layers: &[Layer])
    requires
        forall|i: int| 0 <= i < layers@.len() ==> (#[trigger] layers@[i]).storable(),
    ensures
        final(output)@ == old(output)@ + layers_bytes(layers@),
{
    let mut next: usize = 0;
    assert(output@ =~= old(output)@ + layers_bytes(layers@.take(0)));
    while next < layers.len()
        invariant
            next <= layers.len(),
            forall|i: int| 0 <= i < layers@.len() ==> (#[trigger] layers@[i]).storable(),
            output@ == old(output)@ + layers_bytes(layers@.take(next as int)),
        decreases layers.len() - next,
    {
        write_complex(output, layers[next]);
        next += 1;
        proof {
            assert(layers@.take(next as int).drop_last() =~= layers@.take(next - 1));
            assert(output@ =~= old(output)@ + layers_bytes(layers@.take(next as int)));
        }
    }
    assert(layers@.take(next as int) =~= layers@);
}

/// The cells of a block whose columns all have one layer.
fn write_cells(output: &mut Vec<u8>, block: &EditableBlock)
    requires
        block.well_formed(),
        block is Complex,
    ensures
        final(output)@ == old(output)@ + layers_bytes(cells(block@.columns)),
{
    if let EditableBlock::Complex(layers) = block {
        assert(cells(block@.columns) =~= layers@);
        assert forall|i: int| 0 <= i < layers@.len() implies (#[trigger] layers@[i]).storable() by {
            assert(block@.columns[i][0].storable());
        }
        write_layers(output, layers.as_slice());
    }
}

/// A layer count and the layers.
fn write_column(output: &mut Vec<u8>, layers: &[Layer], wide: bool)
    requires
        layers@.len() <= longest_column(wide),
        forall|i: int| 0 <= i < layers@.len() ==> (#[trigger] layers@[i]).storable(),
    ensures
        final(output)@ == old(output)@ + count_bytes(layers@.len() as int, wide) + layers_bytes(
            layers@,
        ),
{
    if wide {
        assert(layers@.len() as int % 65_536 == layers@.len());
        write_word(output, layers.len() as i32);
    } else {
        output.push(layers.len() as u8);
        assert(output@ =~= old(output)@ + count_bytes(layers@.len() as int, wide));
    }
    write_layers(output, layers);
}

/// The columns of a multilayer block; false where one is too long for its count.
fn write_columns(output: &mut Vec<u8>, block: &EditableBlock, wide: bool) -> (fit: bool)
    requires
        block.well_formed(),
    ensures
        fit == columns_fit(block@.columns, wide),
        fit ==> final(output)@ == old(output)@ + columns_bytes(block@.columns, wide),
{
    let limit: usize = if wide {
        32_767
    } else {
        255
    };
    proof {
        block.lemma_cut();
    }
    let ghost columns = block@.columns;
    let mut column: usize = 0;
    assert(output@ =~= old(output)@ + columns_bytes(columns.take(0), wide));
    while column < 64
        invariant
            column <= 64,
            limit == longest_column(wide),
            block.well_cut(),
            columns == block@.columns,
            columns.len() == 64,
            forall|i: int| 0 <= i < 64 ==> block.has_column(i),
            forall|i: int| 0 <= i < 64 ==> block.column(i) == #[trigger] columns[i],
            forall|i: int, j: int|
                0 <= i < 64 && 0 <= j < columns[i].len() ==> (#[trigger] columns[i][j]).storable(),
            forall|i: int|
                0 <= i < column ==> (#[trigger] columns[i]).len() <= longest_column(wide),
            output@ == old(output)@ + columns_bytes(columns.take(column as int), wide),
        decreases 64 - column,
    {
        assert(block.has_column(column as int));
        let layers = block.layers(column);
        assert(layers@ == columns[column as int]);
        if layers.len() > limit {
            return false;
        }
        assert forall|j: int| 0 <= j < layers@.len() implies (#[trigger] layers@[j]).storable() by {
            assert(columns[column as int][j].storable());
        }
        write_column(output, layers, wide);
        proof {
            let now = columns.take(column + 1);
            assert(now.drop_last() =~= columns.take(column as int));
            assert(now.last() == layers@);
            assert(output@ =~= old(output)@ + columns_bytes(now, wide));
        }
        column += 1;
    }
    assert(columns.take(column as int) =~= columns);
    true
}

fn write_standard_block(output: &mut Vec<u8>, block: &EditableBlock) -> (result: Result<()>)
    requires
        block.well_formed(),
    ensures
        match (result, standard_bytes(block@)) {
            (Ok(_), Ok(bytes)) => final(output)@ == old(output)@ + bytes,
            (Err(error), Err(expected)) => error@ == expected,
            _ => false,
        },
{
    match block {
        EditableBlock::Simple(layer) => {
            output.push(0);
            write_flat(output, *layer);
            assert(block@.columns[0][0] == *layer);
            assert(final(output)@ =~= old(output)@ + (seq![0u8] + word_bytes(flat_word(*layer))));
        },
        EditableBlock::Complex(_) => {
            output.push(1);
            write_cells(output, block);
            assert(final(output)@ =~= old(output)@ + (seq![1u8] + layers_bytes(
                cells(block@.columns),
            )));
        },
        EditableBlock::Multilayer { .. } => {
            output.push(2);
            if !write_columns(output, block, false) {
                return Err(
                    AppError::InvalidData("L2J/L2G column has more than 255 layers".to_owned()),
                );
            }
            assert(final(output)@ =~= old(output)@ + (seq![2u8] + columns_bytes(
                block@.columns,
                false,
            )));
        },
    }
    Ok(())
}

fn write_conv_dat_block(output: &mut Vec<u8>, block: &EditableBlock) -> (result: Result<()>)
    requires
        block.well_formed(),
    ensures
        match (result, wide_bytes(block@)) {
            (Ok(_), Ok(bytes)) => final(output)@ == old(output)@ + bytes,
            (Err(error), Err(expected)) => error@ == expected,
            _ => false,
        },
{
    match block {
        EditableBlock::Simple(layer) => {
            write_word(output, 0);
            write_flat(output, *layer);
            write_flat(output, *layer);
            assert(block@.columns[0][0] == *layer);
            assert(final(output)@ =~= old(output)@ + (word_bytes(0) + word_bytes(flat_word(*layer))
                + word_bytes(flat_word(*layer))));
        },
        EditableBlock::Complex(_) => {
            write_word(output, 64);
            write_cells(output, block);
            assert(final(output)@ =~= old(output)@ + (word_bytes(64) + layers_bytes(
                cells(block@.columns),
            )));
        },
        EditableBlock::Multilayer { .. } => {
            return write_conv_dat_columns(output, block);
        },
    }
    Ok(())
}

/// A multilayer block: its columns behind a word that tells their size.
fn write_conv_dat_columns(output: &mut Vec<u8>, block: &EditableBlock) -> (result: Result<()>)
    requires
        block.well_formed(),
        block is Multilayer,
    ensures
        match (result, wide_bytes(block@)) {
            (Ok(_), Ok(bytes)) => final(output)@ == old(output)@ + bytes,
            (Err(error), Err(expected)) => error@ == expected,
            _ => false,
        },
{
    let mut payload: Vec<u8> = Vec::new();
    if !write_columns(&mut payload, block, true) {
        return Err(AppError::InvalidData("Conv DAT column has more than 32,767 layers".to_owned()));
    }
    let ghost columns = columns_bytes(block@.columns, true);
    proof {
        assert(payload@ =~= columns);
        lemma_columns_size(block@.columns, true);
    }
    let kind: usize = payload.len() - 64;
    if kind > 32_767 {
        return Err(AppError::InvalidData("Conv DAT multilayer payload is too large".to_owned()));
    }
    assert(kind as int % 65_536 == kind);
    write_word(output, kind as i32);
    output.append(&mut payload);
    assert(final(output)@ =~= old(output)@ + (word_bytes(kind as int) + columns));
    Ok(())
}

/// Appends the bytes of a block.
pub fn write_editable_block(output: &mut Vec<u8>, block: &EditableBlock, wide: bool) -> (result:
    Result<()>)
    requires
        block.well_formed(),
    ensures
        match (result, block_bytes(block@, wide)) {
            (Ok(_), Ok(bytes)) => final(output)@ == old(output)@ + bytes,
            (Err(error), Err(expected)) => error@ == expected,
            _ => false,
        },
{
    if wide {
        write_conv_dat_block(output, block)
    } else {
        write_standard_block(output, block)
    }
}

pub proof fn lemma_columns_size(columns: Seq<Seq<Layer>>, wide: bool)
    requires
        forall|i: int| 0 <= i < columns.len() ==> (#[trigger] columns[i]).len() >= 1,
    ensures
        columns_bytes(columns, wide).len() == 2 * block::layer_total(columns) + if wide {
            2 * columns.len()
        } else {
            columns.len()
        },
        block::layer_total(columns) >= columns.len(),
    decreases columns.len(),
{
    if columns.len() > 0 {
        lemma_columns_size(columns.drop_last(), wide);
        lemma_layers_size(columns.last());
    }
}

proof fn lemma_layers_size(layers: Seq<Layer>)
    ensures
        layers_bytes(layers).len() == 2 * layers.len(),
    decreases layers.len(),
{
    if layers.len() > 0 {
        lemma_layers_size(layers.drop_last());
    }
}

} // verus!
