//! Reading gives back what was written.

use vstd::prelude::*;

use crate::l2j::block::{BlockModel, EditableBlock, EditableBlockType, Layer};
use crate::l2j::codec::{Decoded, DecodedColumns};
use crate::l2j::{block, codec, encode};

verus! {

/// A layer that a packed word holds without loss.
pub open spec fn packable(layer: Layer) -> bool {
    layer.storable() && -16_384 <= layer.height <= 16_376
}

/// Heights that bytes hold without loss: packed heights fit in twelve bits, and
/// the height of a simple block has its low four bits clear.
pub open spec fn heights_fit(block: BlockModel) -> bool {
    if block.kind == EditableBlockType::Simple {
        block.columns[0][0].height as int % 16 == 0
    } else {
        forall|i: int, j: int|
            0 <= i < 64 && 0 <= j < block.columns[i].len() ==> -16_384 <= (
            #[trigger] block.columns[i][j]).height <= 16_376
    }
}

/// A block that its bytes hold without loss.
pub open spec fn faithful(block: BlockModel) -> bool {
    &&& block.valid()
    &&& block::layer_total(block.columns) <= 65_535
    &&& heights_fit(block)
}

/// The bytes of `part` stand in `data` from a position on.
pub open spec fn stands_at(data: Seq<u8>, at: int, part: Seq<u8>) -> bool {
    0 <= at && at + part.len() <= data.len() && data.subrange(at, at + part.len()) == part
}

proof fn lemma_stands_inside(data: Seq<u8>, at: int, front: Seq<u8>, back: Seq<u8>)
    requires
        stands_at(data, at, front + back),
    ensures
        stands_at(data, at, front),
        stands_at(data, at + front.len(), back),
{
    let whole = front + back;
    assert(data.subrange(at, at + front.len()) =~= whole.subrange(0, front.len() as int));
    assert(whole.subrange(0, front.len() as int) =~= front);
    assert(data.subrange(at + front.len(), at + front.len() + back.len()) =~= whole.subrange(
        front.len() as int,
        whole.len() as int,
    ));
    assert(whole.subrange(front.len() as int, whole.len() as int) =~= back);
}

proof fn lemma_word(data: Seq<u8>, at: int, value: int)
    requires
        0 <= value < 65_536,
        stands_at(data, at, encode::word_bytes(value)),
    ensures
        codec::word(data, at) == value,
{
    let part = data.subrange(at, at + 2);
    assert(part[0] == data[at] && part[1] == data[at + 1]);
}

proof fn lemma_packed(layer: Layer)
    requires
        packable(layer),
    ensures
        codec::unpacked(encode::packed(layer)) == layer,
{
    let value = 2 * layer.height + layer.nswe;
    let word = encode::packed(layer);
    assert(codec::signed(word) == value);
    assert(value / 16 * 8 == layer.height);
    assert(word % 16 == layer.nswe);
}

proof fn lemma_layers(data: Seq<u8>, at: int, layers: Seq<Layer>)
    requires
        stands_at(data, at, encode::layers_bytes(layers)),
        forall|i: int| 0 <= i < layers.len() ==> packable(#[trigger] layers[i]),
    ensures
        encode::layers_bytes(layers).len() == 2 * layers.len(),
        codec::layers_at(data, at, layers.len() as int) == layers,
    decreases layers.len(),
{
    if layers.len() > 0 {
        let front = encode::layers_bytes(layers.drop_last());
        let back = encode::word_bytes(encode::packed(layers.last()));
        lemma_stands_inside(data, at, front, back);
        lemma_layers(data, at, layers.drop_last());
        lemma_word(data, at + front.len(), encode::packed(layers.last()));
        lemma_packed(layers.last());
        let read = codec::layers_at(data, at, layers.len() as int);
        let shorter = codec::layers_at(data, at, layers.len() - 1);
        assert forall|i: int| 0 <= i < layers.len() implies #[trigger] read[i] == layers[i] by {
            if i < layers.len() - 1 {
                assert(read[i] == shorter[i]);
                assert(shorter[i] == layers.drop_last()[i]);
            }
        }
        assert(read =~= layers);
    } else {
        assert(codec::layers_at(data, at, 0) =~= layers);
    }
}

proof fn lemma_columns(data: Seq<u8>, at: int, wide: bool, index: int, columns: Seq<Seq<Layer>>)
    requires
        stands_at(data, at, encode::columns_bytes(columns, wide)),
        encode::columns_fit(columns, wide),
        block::layer_total(columns) <= 65_535,
        forall|i: int| 0 <= i < columns.len() ==> (#[trigger] columns[i]).len() >= 1,
        forall|i: int, j: int|
            0 <= i < columns.len() && 0 <= j < columns[i].len() ==> packable(
                #[trigger] columns[i][j],
            ),
    ensures
        codec::columns_at(data, at, wide, index, columns.len()) == DecodedColumns::Ok(
            (columns, at + encode::columns_bytes(columns, wide).len()),
        ),
    decreases columns.len(),
{
    if columns.len() > 0 {
        let shorter = columns.drop_last();
        let layers = columns.last();
        let front = encode::columns_bytes(shorter, wide);
        let count = encode::count_bytes(layers.len() as int, wide);
        let body = encode::layers_bytes(layers);
        lemma_stands_inside(data, at, front + count, body);
        lemma_stands_inside(data, at, front, count);
        assert(columns[columns.len() - 1].len() <= encode::longest_column(wide));
        assert forall|i: int| 0 <= i < shorter.len() implies (#[trigger] shorter[i]).len()
            <= encode::longest_column(wide) && shorter[i].len() >= 1 by {
            assert(shorter[i] == columns[i]);
        }
        assert forall|i: int, j: int|
            0 <= i < shorter.len() && 0 <= j < shorter[i].len() implies packable(
            #[trigger] shorter[i][j],
        ) by {
            assert(shorter[i][j] == columns[i][j]);
        }
        lemma_columns(data, at, wide, index, shorter);
        let start = at + front.len();
        if wide {
            lemma_word(data, start, layers.len() as int);
        } else {
            assert(data.subrange(start, start + 1)[0] == data[start]);
        }
        assert forall|j: int| 0 <= j < layers.len() implies packable(#[trigger] layers[j]) by {
            assert(packable(columns[columns.len() - 1][j]));
        }
        lemma_layers(data, start + count.len(), layers);
        assert(shorter.push(layers) =~= columns);
    } else {
        assert(columns =~= Seq::<Seq<Layer>>::empty());
    }
}

/// A faithful block, written anywhere into some bytes, is read back from there.
pub proof fn written_block_reads_back(
    data: Seq<u8>,
    at: int,
    wide: bool,
    index: int,
    block: BlockModel,
)
    requires
        faithful(block),
        encode::block_bytes(block, wide) is Ok,
        stands_at(data, at, encode::block_bytes(block, wide)->Ok_0),
    ensures
        codec::block_at(data, at, wide, index) == Decoded::Ok(
            (block, at + encode::block_bytes(block, wide)->Ok_0.len()),
        ),
{
    reveal(codec::block_at);
    let bytes = encode::block_bytes(block, wide)->Ok_0;
    let part = data.subrange(at, at + bytes.len());
    match block.kind {
        EditableBlockType::Simple => {
            let layer = block.columns[0][0];
            let word = encode::flat_word(layer);
            assert(layer.height / 16 * 16 == layer.height);
            assert(codec::signed(word) == layer.height);
            assert(layer.nswe == Layer::OPEN);
            assert(codec::flat(word) == layer);
            let opening = if wide {
                encode::word_bytes(0)
            } else {
                seq![0u8]
            };
            let value = encode::word_bytes(word);
            if wide {
                lemma_stands_inside(data, at, opening + value, value);
                lemma_stands_inside(data, at, opening, value);
                lemma_word(data, at, 0);
            } else {
                lemma_stands_inside(data, at, opening, value);
                assert(part[0] == data[at]);
            }
            lemma_word(data, at + opening.len(), word);
            assert forall|i: int| 0 <= i < 64 implies #[trigger] block.columns[i] == seq![layer] by {
                assert(block.columns[i] == block.columns[0]);
                assert(block.columns[0] =~= seq![layer]);
            }
            assert(BlockModel::simple(layer) =~= block);
        },
        EditableBlockType::Complex => {
            let cells = encode::cells(block.columns);
            let opening = if wide {
                encode::word_bytes(64)
            } else {
                seq![1u8]
            };
            lemma_stands_inside(data, at, opening, encode::layers_bytes(cells));
            if wide {
                lemma_word(data, at, 64);
            } else {
                assert(part[0] == data[at]);
            }
            assert forall|i: int| 0 <= i < cells.len() implies packable(#[trigger] cells[i]) by {
                assert(block.columns[i].len() == 1);
                assert(packable(block.columns[i][0]));
            }
            lemma_layers(data, at + opening.len(), cells);
            assert forall|i: int| 0 <= i < 64 implies #[trigger] block.columns[i] == seq![
                cells[i],
            ] by {
                assert(block.columns[i].len() == 1);
                assert(block.columns[i] =~= seq![cells[i]]);
            }
            assert(BlockModel::complex(cells) =~= block);
        },
        EditableBlockType::Multilayer => {
            let columns = encode::columns_bytes(block.columns, wide);
            encode::lemma_columns_size(block.columns, wide);
            let opening = if wide {
                encode::word_bytes(columns.len() - 64)
            } else {
                seq![2u8]
            };
            lemma_stands_inside(data, at, opening, columns);
            if wide {
                lemma_word(data, at, columns.len() - 64);
            } else {
                assert(part[0] == data[at]);
            }
            lemma_columns(data, at + opening.len(), wide, index, block.columns);
        },
    }
}

proof fn lemma_same_layers(data: Seq<u8>, at: int, other: Seq<u8>, place: int, count: int)
    requires
        0 <= at,
        0 <= count,
        at + 2 * count <= data.len(),
        stands_at(other, place, data.subrange(at, at + 2 * count)),
    ensures
        codec::layers_at(other, place, count) == codec::layers_at(
            data,
            at,
            count,
        ),
{
    let part = data.subrange(at, at + 2 * count);
    assert forall|i: int| 0 <= i < count implies codec::word(other, place + 2 * i)
        == #[trigger] codec::word(data, at + 2 * i) by {
        assert(part[2 * i] == data[at + 2 * i]);
        assert(part[2 * i + 1] == data[at + 2 * i + 1]);
        assert(other.subrange(place, place + 2 * count)[2 * i] == other[place + 2 * i]);
        assert(other.subrange(place, place + 2 * count)[2 * i + 1] == other[place + 2 * i + 1]);
    }
    let left = codec::layers_at(other, place, count);
    let right = codec::layers_at(data, at, count);
    assert forall|i: int| 0 <= i < count implies #[trigger] left[i] == right[i] by {
        assert(codec::word(other, place + 2 * i) == codec::word(
            data,
            at + 2 * i,
        ));
    }
    assert(left =~= right);
}

proof fn lemma_same_bytes(data: Seq<u8>, from: int, to: int, other: Seq<u8>, place: int, at: int)
    requires
        0 <= from <= at < to <= data.len(),
        stands_at(other, place, data.subrange(from, to)),
    ensures
        other[place + (at - from)] == data[at],
{
    assert(other.subrange(place, place + (to - from))[at - from] == data.subrange(from, to)[at
        - from]);
}

proof fn lemma_part(data: Seq<u8>, from: int, to: int, other: Seq<u8>, place: int, a: int, b: int)
    requires
        0 <= from <= a <= b <= to <= data.len(),
        stands_at(other, place, data.subrange(from, to)),
    ensures
        stands_at(other, place + (a - from), data.subrange(a, b)),
{
    let whole = data.subrange(from, to);
    assert(whole =~= data.subrange(from, a) + (data.subrange(a, b) + data.subrange(b, to)));
    lemma_stands_inside(other, place, data.subrange(from, a), data.subrange(a, b) + data.subrange(b, to));
    lemma_stands_inside(other, place + (a - from), data.subrange(a, b), data.subrange(b, to));
}

/// Columns depend on the bytes they span alone.
proof fn lemma_columns_move(
    data: Seq<u8>,
    at: int,
    wide: bool,
    index: int,
    other: Seq<u8>,
    place: int,
    other_index: int,
    columns: nat,
    end: int,
)
    requires
        0 <= at,
        codec::columns_at(data, at, wide, index, columns) is Ok,
        codec::columns_at(data, at, wide, index, columns)->Ok_0.1 <= end <= data.len(),
        stands_at(other, place, data.subrange(at, end)),
    ensures
        codec::columns_at(other, place, wide, other_index, columns)
            == DecodedColumns::Ok(
            (
                codec::columns_at(data, at, wide, index, columns)->Ok_0.0,
                codec::columns_at(data, at, wide, index, columns)->Ok_0.1 - at + place,
            ),
        ),
    decreases columns,
{
    if columns > 0 {
        let fewer = (columns - 1) as nat;
        codec::lemma_columns_end(data, at, wide, index, fewer);
        codec::lemma_columns_end(data, at, wide, index, columns);
        lemma_columns_move(data, at, wide, index, other, place, other_index, fewer, end);
        let next = codec::columns_at(data, at, wide, index, fewer)->Ok_0.1;
        let size = codec::count_size(wide);
        let count = codec::count_at(data, next, wide);
        let start = next + size;
        lemma_same_bytes(data, at, end, other, place, next);
        if wide {
            lemma_same_bytes(data, at, end, other, place, next + 1);
        }
        lemma_part(data, at, end, other, place, start, start + 2 * count);
        lemma_same_layers(data, start, other, place + (start - at), count);
    }
}

/// A block depends on the bytes it spans alone: moved elsewhere, they hold the
/// same block.
pub proof fn moved_block_reads_the_same(
    data: Seq<u8>,
    at: int,
    wide: bool,
    index: int,
    other: Seq<u8>,
    place: int,
    other_index: int,
)
    requires
        0 <= at,
        codec::block_at(data, at, wide, index) is Ok,
        stands_at(
            other,
            place,
            data.subrange(at, codec::block_at(data, at, wide, index)->Ok_0.1),
        ),
    ensures
        codec::block_at(other, place, wide, other_index) == Decoded::Ok(
            (
                codec::block_at(data, at, wide, index)->Ok_0.0,
                codec::block_at(data, at, wide, index)->Ok_0.1 - at + place,
            ),
        ),
{
    reveal(codec::block_at);
    let end = codec::block_at(data, at, wide, index)->Ok_0.1;
    codec::lemma_block_end(data, at, wide, index);
    lemma_same_bytes(data, at, end, other, place, at);
    let start = if wide {
        at + 2
    } else {
        at + 1
    };
    if wide {
        if codec::columns_at(data, start, wide, index, 64) is Ok {
            codec::lemma_columns_end(data, start, wide, index, 64);
        }
        lemma_same_bytes(data, at, end, other, place, at + 1);
    }
    let kind = if wide {
        codec::word(data, at)
    } else {
        data[at] as int
    };
    if kind == 0 {
        lemma_same_bytes(data, at, end, other, place, start);
        lemma_same_bytes(data, at, end, other, place, start + 1);
    } else if (wide && kind == 64) || (!wide && kind == 1) {
        lemma_part(data, at, end, other, place, start, start + 128);
        lemma_same_layers(data, start, other, place + (start - at), 64);
    } else {
        codec::lemma_columns_end(data, start, wide, index, 64);
        lemma_part(data, at, end, other, place, start, end);
        lemma_columns_move(
            data,
            start,
            wide,
            index,
            other,
            place + (start - at),
            other_index,
            64,
            end,
        );
    }
}

/// The layers of the first columns of a well cut block are counted by its
/// offsets.
pub proof fn lemma_total_of(block: EditableBlock, columns: int)
    requires
        block.well_cut(),
        0 <= columns <= 64,
    ensures
        block::layer_total(block@.columns.take(columns)) == match block {
            EditableBlock::Multilayer { offsets, .. } => offsets@[columns] as nat,
            _ => columns as nat,
        },
    decreases columns,
{
    block.lemma_cut();
    if columns > 0 {
        lemma_total_of(block, columns - 1);
        assert(block@.columns.take(columns).drop_last() =~= block@.columns.take(columns - 1));
        assert(block.has_column(columns - 1));
        assert(block@.columns.take(columns).last() == block@.columns[columns - 1]);
    } else {
        assert(block@.columns.take(0).len() == 0);
    }
}

} // verus!
