//! Where the cells of a block stand in the bytes of a file, and how they are
//! read and written there.

use vstd::prelude::*;

use crate::l2j::block::{BlockModel, EditableBlockType, Layer};
use crate::l2j::{block, codec, encode};

verus! {

/// The number in two bytes, the low one first, as a signed one.
pub open spec fn number_at(data: Seq<u8>, at: int) -> int {
    data[at] + 256 * (if data[at + 1] < 128 {
        data[at + 1] as int
    } else {
        data[at + 1] - 256
    })
}

/// A layer as a packed number has it: the low four bits are the mask, and the
/// rest is twice the height.
pub open spec fn holds(layer: Layer, data: Seq<u8>, at: int) -> bool {
    &&& layer.nswe == data[at] % 16
    &&& 2 * layer.height + layer.nswe == number_at(data, at)
}

/// 64 columns with one and the same open layer, whose height is a number without
/// its low four bits.
pub open spec fn lies_flat(block: BlockModel, number: int) -> bool {
    &&& block.kind == EditableBlockType::Simple
    &&& block.columns.len() == 64
    &&& forall|c: int|
        0 <= c < 64 ==> (#[trigger] block.columns[c]).len() == 1 && block.columns[c][0].nswe == 15
            && block.columns[c][0].height == number - number % 16
}

proof fn lemma_flat(data: Seq<u8>, at: int)
    requires
        0 <= at,
        at + 2 <= data.len(),
    ensures
        lies_flat(
            BlockModel::simple(codec::flat(codec::word(data, at))),
            number_at(data, at),
        ),
{
    let word = codec::word(data, at);
    assert(codec::signed(word) == number_at(data, at));
}

proof fn lemma_packed(data: Seq<u8>, at: int)
    requires
        0 <= at,
        at + 2 <= data.len(),
    ensures
        holds(codec::unpacked(codec::word(data, at)), data, at),
{
    let word = codec::word(data, at);
    assert(codec::signed(word) == number_at(data, at));
    assert(word % 16 == data[at] % 16);
}

/// A flat block of an `.l2j` or `.l2g` file is a zero and a number: it is open
/// everywhere, at the height that the number gives without its low four bits.
pub proof fn standard_flat_block(data: Seq<u8>, at: int, index: int)
    requires
        0 <= at,
        at + 3 <= data.len(),
        data[at] == 0,
    ensures
        ({
            let read = codec::block_at(data, at, false, index);
            read is Ok && read->Ok_0.1 == at + 3 && lies_flat(
                read->Ok_0.0,
                number_at(data, at + 1),
            )
        }),
{
    reveal(codec::block_at);
    lemma_flat(data, at + 1);
}

/// A flat block of a `_conv.dat` file is a zero number, its height and its
/// minimum height. The height gives the block; the minimum height is passed over.
pub proof fn wide_flat_block(data: Seq<u8>, at: int, index: int)
    requires
        0 <= at,
        at + 6 <= data.len(),
        data[at] == 0,
        data[at + 1] == 0,
    ensures
        ({
            let read = codec::block_at(data, at, true, index);
            read is Ok && read->Ok_0.1 == at + 6 && lies_flat(
                read->Ok_0.0,
                number_at(data, at + 2),
            )
        }),
{
    reveal(codec::block_at);
    lemma_flat(data, at + 2);
}

/// Two flat blocks of `_conv.dat` files that differ in their minimum heights only
/// are read as equal blocks.
pub proof fn minimum_height_is_passed_over(
    data: Seq<u8>,
    at: int,
    index: int,
    other: Seq<u8>,
    place: int,
    number: int,
)
    requires
        0 <= at,
        at + 6 <= data.len(),
        0 <= place,
        place + 6 <= other.len(),
        data[at] == 0,
        data[at + 1] == 0,
        other[place] == 0,
        other[place + 1] == 0,
        data[at + 2] == other[place + 2],
        data[at + 3] == other[place + 3],
    ensures
        codec::block_at(data, at, true, index) is Ok,
        codec::block_at(other, place, true, number) is Ok,
        codec::block_at(data, at, true, index)->Ok_0.0 == codec::block_at(
            other,
            place,
            true,
            number,
        )->Ok_0.0,
{
    wide_flat_block(data, at, index);
    wide_flat_block(other, place, number);
    let one = codec::block_at(data, at, true, index)->Ok_0.0;
    let two = codec::block_at(other, place, true, number)->Ok_0.0;
    assert forall|c: int| 0 <= c < 64 implies #[trigger] one.columns[c] == two.columns[c] by {
        assert(one.columns[c].len() == 1 && two.columns[c].len() == 1);
        assert(one.columns[c][0] == two.columns[c][0]);
        assert(one.columns[c] =~= two.columns[c]);
    }
    assert(one.columns =~= two.columns);
}

/// 64 columns with one layer each, packed one after the other from a place on.
pub open spec fn holds_cells(block: BlockModel, data: Seq<u8>, at: int) -> bool {
    &&& block.kind == EditableBlockType::Complex
    &&& block.columns.len() == 64
    &&& forall|c: int|
        0 <= c < 64 ==> (#[trigger] block.columns[c]).len() == 1 && holds(
            block.columns[c][0],
            data,
            at + 2 * c,
        )
}

/// A complex block holds 64 packed layers, one for each column. An `.l2j` or
/// `.l2g` file announces it by a one, a `_conv.dat` file by the number 64.
pub proof fn complex_block(data: Seq<u8>, at: int, wide: bool, index: int)
    requires
        0 <= at,
        !wide ==> at + 129 <= data.len() && data[at] == 1,
        wide ==> at + 130 <= data.len() && data[at] == 64 && data[at + 1] == 0,
    ensures
        ({
            let read = codec::block_at(data, at, wide, index);
            let cells = if wide {
                at + 2
            } else {
                at + 1
            };
            read is Ok && read->Ok_0.1 == cells + 128 && holds_cells(read->Ok_0.0, data, cells)
        }),
{
    reveal(codec::block_at);
    let cells = if wide {
        at + 2
    } else {
        at + 1
    };
    let read = codec::block_at(data, at, wide, index)->Ok_0.0;
    assert forall|c: int| 0 <= c < 64 implies (#[trigger] read.columns[c]).len() == 1 && holds(
        read.columns[c][0],
        data,
        cells + 2 * c,
    ) by {
        lemma_packed(data, cells + 2 * c);
    }
}

/// The columns of a multilayer block one after the other, each behind its number
/// of layers: one byte, or two in a `_conv.dat` file.
pub open spec fn holds_columns(
    columns: Seq<Seq<Layer>>,
    starts: Seq<int>,
    data: Seq<u8>,
    wide: bool,
) -> bool {
    let size: int = if wide {
        2
    } else {
        1
    };
    &&& starts.len() == columns.len() + 1
    &&& forall|c: int|
        0 <= c < columns.len() ==> (#[trigger] columns[c]).len() == if wide {
            number_at(data, starts[c])
        } else {
            data[starts[c]] as int
        }
    &&& forall|c: int|
        0 <= c < columns.len() ==> starts[c + 1] == starts[c] + size + 2 * (
        #[trigger] columns[c]).len()
    &&& forall|c: int, l: int|
        0 <= c < columns.len() && 0 <= l < columns[c].len() ==> holds(
            #[trigger] columns[c][l],
            data,
            starts[c] + size + 2 * l,
        )
}

proof fn lemma_columns(data: Seq<u8>, at: int, wide: bool, index: int, count: nat) -> (starts: Seq<
    int,
>)
    requires
        0 <= at,
        codec::columns_at(data, at, wide, index, count) is Ok,
    ensures
        ({
            let (columns, end) = codec::columns_at(data, at, wide, index, count)->Ok_0;
            &&& columns.len() == count
            &&& starts.len() == count + 1
            &&& starts[0] == at
            &&& starts[count as int] == end
            &&& end >= at
            &&& holds_columns(columns, starts, data, wide)
            &&& forall|c: int| 0 <= c < count ==> (#[trigger] columns[c]).len() >= 1
        }),
    decreases count,
{
    if count == 0 {
        seq![at]
    } else {
        let fewer = (count - 1) as nat;
        let before = lemma_columns(data, at, wide, index, fewer);
        let (done, next) = codec::columns_at(data, at, wide, index, fewer)->Ok_0;
        let (columns, end) = codec::columns_at(data, at, wide, index, count)->Ok_0;
        let starts = before.push(end);
        let size: int = if wide {
            2
        } else {
            1
        };
        let last = columns[count - 1];
        assert(before[fewer as int] == next);
        assert(codec::signed(codec::word(data, next)) == number_at(data, next));
        assert forall|l: int| 0 <= l < last.len() implies holds(
            #[trigger] last[l],
            data,
            next + size + 2 * l,
        ) by {
            lemma_packed(data, next + size + 2 * l);
        }
        assert forall|c: int| 0 <= c < count implies (#[trigger] columns[c]).len() == if wide {
            number_at(data, starts[c])
        } else {
            data[starts[c]] as int
        } && starts[c + 1] == starts[c] + size + 2 * columns[c].len() && columns[c].len() >= 1 by {
            if c < fewer {
                assert(columns[c] == done[c]);
                assert(starts[c] == before[c] && starts[c + 1] == before[c + 1]);
            }
        }
        assert forall|c: int, l: int| 0 <= c < count && 0 <= l < columns[c].len() implies holds(
            #[trigger] columns[c][l],
            data,
            starts[c] + size + 2 * l,
        ) by {
            if c < fewer {
                assert(columns[c] == done[c]);
                assert(holds(done[c][l], data, before[c] + size + 2 * l));
            } else {
                assert(holds(last[l], data, next + size + 2 * l));
            }
        }
        starts
    }
}

/// A block that starts with neither a zero nor the sign of a complex block is
/// multilayer, if it is one at all: 64 columns with at least one layer each,
/// which follow one another to its end. An `.l2j` or `.l2g` file announces it by
/// a two.
pub proof fn multilayer_block(data: Seq<u8>, at: int, wide: bool, index: int) -> (starts: Seq<int>)
    requires
        0 <= at,
        !wide ==> at < data.len() && data[at] > 1,
        wide ==> at + 2 <= data.len() && !(data[at] == 0 && data[at + 1] == 0) && !(data[at] == 64
            && data[at + 1] == 0),
    ensures
        codec::block_at(data, at, wide, index) is Ok ==> {
            let (read, end) = codec::block_at(data, at, wide, index)->Ok_0;
            &&& !wide ==> data[at] == 2
            &&& read.kind == EditableBlockType::Multilayer
            &&& read.columns.len() == 64
            &&& holds_columns(read.columns, starts, data, wide)
            &&& starts[0] == at + if wide {
                2int
            } else {
                1int
            }
            &&& starts[64] == end
            &&& forall|c: int| 0 <= c < 64 ==> (#[trigger] read.columns[c]).len() >= 1
        },
{
    reveal(codec::block_at);
    let start = at + if wide {
        2int
    } else {
        1int
    };
    if codec::block_at(data, at, wide, index) is Ok {
        lemma_columns(data, start, wide, index, 64)
    } else {
        Seq::empty()
    }
}

/// The parts of a multilayer block that cannot be read: a column without layers,
/// or one that the bytes end in.
pub proof fn broken_columns_are_refused(data: Seq<u8>, at: int, wide: bool, index: int, count: nat)
    requires
        0 <= at,
        codec::columns_at(data, at, wide, index, count) is Ok,
    ensures
        ({
            let (columns, end) = codec::columns_at(data, at, wide, index, count)->Ok_0;
            let behind = end + if wide {
                2int
            } else {
                1int
            };
            let layers = if wide {
                number_at(data, end)
            } else {
                data[end] as int
            };
            codec::columns_at(data, at, wide, index, count + 1) is Ok <==> behind <= data.len()
                && layers > 0 && behind + 2 * layers <= data.len() && block::layer_total(columns)
                + layers <= 65_535
        }),
{
    let (columns, end) = codec::columns_at(data, at, wide, index, count)->Ok_0;
    codec::lemma_columns_end(data, at, wide, index, count);
    if wide && end + 2 <= data.len() {
        assert(codec::signed(codec::word(data, end)) == number_at(data, end));
    }
}

/// A block is written flat as its height without the low four bits, and in a
/// `_conv.dat` file with the same number as its minimum height.
pub proof fn flat_block_is_written(block: BlockModel, wide: bool)
    requires
        block.valid(),
        block.kind == EditableBlockType::Simple,
    ensures
        ({
            let written = encode::block_bytes(block, wide);
            let height = block.columns[0][0].height as int;
            &&& written is Ok
            &&& !wide ==> written->Ok_0.len() == 3 && written->Ok_0[0] == 0 && number_at(
                written->Ok_0,
                1,
            ) == height - height % 16
            &&& wide ==> written->Ok_0.len() == 6 && number_at(written->Ok_0, 0) == 0 && number_at(
                written->Ok_0,
                2,
            ) == height - height % 16 && number_at(written->Ok_0, 4) == height - height % 16
        }),
{
    let height = block.columns[0][0].height as int;
    let word = encode::flat_word(block.columns[0][0]);
    let low = height - height % 16;
    assert(low == height / 16 * 16);
    assert(word == if low < 0 {
        low + 65_536
    } else {
        low
    });
    assert(word / 256 % 256 == word / 256);
}

/// A complex block is written as its sign and 64 packed layers.
pub proof fn complex_block_is_written(block: BlockModel, wide: bool, column: int)
    requires
        block.valid(),
        block.kind == EditableBlockType::Complex,
        0 <= column < 64,
        -16_384 <= block.columns[column][0].height <= 16_376,
    ensures
        ({
            let written = encode::block_bytes(block, wide);
            let cells: int = if wide {
                2
            } else {
                1
            };
            &&& written is Ok
            &&& written->Ok_0.len() == cells + 128
            &&& wide ==> number_at(written->Ok_0, 0) == 64
            &&& !wide ==> written->Ok_0[0] == 1
            &&& holds(block.columns[column][0], written->Ok_0, cells + 2 * column)
        }),
{
    let cells = encode::cells(block.columns);
    let opening: int = if wide {
        2
    } else {
        1
    };
    let written = encode::block_bytes(block, wide)->Ok_0;
    let layer = block.columns[column][0];
    assert(cells[column] == layer);
    assert(layer.storable());
    lemma_layers_written(cells, column);
    let bytes = encode::layers_bytes(cells);
    assert(written[opening + 2 * column] == bytes[2 * column]);
    assert(written[opening + 2 * column + 1] == bytes[2 * column + 1]);
    lemma_word_written(layer);
}

proof fn lemma_word_written(layer: Layer)
    requires
        layer.storable(),
        -16_384 <= layer.height <= 16_376,
    ensures
        holds(layer, encode::word_bytes(encode::packed(layer)), 0),
{
    let value = 2 * layer.height + layer.nswe;
    let word = encode::packed(layer);
    assert(-32_768 <= value <= 32_767);
    assert(word == if value < 0 {
        value + 65_536
    } else {
        value
    });
    assert(word % 16 == layer.nswe);
    assert(word / 256 % 256 == word / 256);
    let bytes = encode::word_bytes(word);
    assert(bytes[0] % 16 == word % 16);
}

proof fn lemma_layers_written(layers: Seq<Layer>, place: int)
    requires
        0 <= place < layers.len(),
    ensures
        encode::layers_bytes(layers).len() == 2 * layers.len(),
        encode::layers_bytes(layers)[2 * place] == encode::word_bytes(
            encode::packed(layers[place]),
        )[0],
        encode::layers_bytes(layers)[2 * place + 1] == encode::word_bytes(
            encode::packed(layers[place]),
        )[1],
    decreases layers.len(),
{
    let front = layers.drop_last();
    lemma_layers_length(layers);
    lemma_layers_length(front);
    if place < layers.len() - 1 {
        lemma_layers_written(front, place);
    }
}

proof fn lemma_layers_length(layers: Seq<Layer>)
    ensures
        encode::layers_bytes(layers).len() == 2 * layers.len(),
    decreases layers.len(),
{
    if layers.len() > 0 {
        lemma_layers_length(layers.drop_last());
    }
}

proof fn lemma_columns_length(columns: Seq<Seq<Layer>>)
    ensures
        encode::columns_bytes(columns, true).len() == 2 * columns.len() + 2 * block::layer_total(
            columns,
        ),
    decreases columns.len(),
{
    if columns.len() > 0 {
        lemma_columns_length(columns.drop_last());
        lemma_layers_length(columns.last());
    }
}

/// A `_conv.dat` file announces a multilayer block by twice its number of layers
/// and 64; it is refused where that is no positive number of two bytes.
pub proof fn wide_multilayer_is_announced(block: BlockModel)
    requires
        block.valid(),
        block.kind == EditableBlockType::Multilayer,
        forall|c: int| 0 <= c < 64 ==> (#[trigger] block.columns[c]).len() <= 32_767,
    ensures
        ({
            let written = encode::block_bytes(block, true);
            let announced = 2 * block::layer_total(block.columns) + 64;
            &&& written is Ok <==> announced <= 32_767
            &&& written is Ok ==> number_at(written->Ok_0, 0) == announced && written->Ok_0.len()
                == announced + 66
        }),
{
    lemma_columns_length(block.columns);
    let payload = encode::columns_bytes(block.columns, true);
    let kind = payload.len() - 64;
    if kind <= 32_767 {
        assert(kind / 256 % 256 == kind / 256);
    }
}

} // verus!
