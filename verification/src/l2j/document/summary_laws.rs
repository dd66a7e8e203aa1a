//! What a save reports and writes in front of the blocks, told by what changed.

use vstd::prelude::*;

use crate::l2j::block::{BlockModel, EditableBlockType, Layer};
use crate::l2j::document::export;
use crate::l2j::document::DocumentModel;
use crate::l2j::{block, document, encode, storage};

verus! {

/// How many of the four sides two masks differ in.
pub open spec fn differing_sides(a: u8, b: u8) -> nat {
    let north: nat = if a & 8 == b & 8 {
        0
    } else {
        1
    };
    let south: nat = if a & 4 == b & 4 {
        0
    } else {
        1
    };
    let west: nat = if a & 2 == b & 2 {
        0
    } else {
        1
    };
    let east: nat = if a & 1 == b & 1 {
        0
    } else {
        1
    };
    north + south + west + east
}

proof fn lemma_sides(a: u8, b: u8)
    requires
        a < 16,
        b < 16,
    ensures
        export::ones(a ^ b) == differing_sides(a, b),
{
    let c = a ^ b;
    assert(c < 16 && c % 2 == (if a & 1 == b & 1 {
        0u8
    } else {
        1u8
    }) && c / 2 % 2 == (if a & 2 == b & 2 {
        0u8
    } else {
        1u8
    }) && c / 4 % 2 == (if a & 4 == b & 4 {
        0u8
    } else {
        1u8
    }) && c / 8 % 2 == (if a & 8 == b & 8 {
        0u8
    } else {
        1u8
    })) by (bit_vector)
        requires
            a < 16,
            b < 16,
            c == a ^ b,
    ;
}

proof fn lemma_same_layers(column: Seq<Layer>)
    ensures
        export::layer_changes(column, column) == (0nat, 0nat),
    decreases column.len(),
{
    if column.len() > 0 {
        lemma_same_layers(column.drop_last());
    }
}

proof fn lemma_layer_changed(before: Seq<Layer>, place: int, layer: Layer)
    requires
        0 <= place < before.len(),
        before[place] != layer,
        before[place].nswe < 16,
        layer.nswe < 16,
    ensures
        export::layer_changes(before, before.update(place, layer)) == (
            1nat,
            differing_sides(before[place].nswe, layer.nswe),
        ),
    decreases before.len(),
{
    let after = before.update(place, layer);
    let last = before.len() - 1;
    lemma_sides(before[place].nswe, layer.nswe);
    if place == last {
        assert(after.drop_last() =~= before.drop_last());
        lemma_same_layers(before.drop_last());
    } else {
        assert(after.drop_last() =~= before.drop_last().update(place, layer));
        lemma_layer_changed(before.drop_last(), place, layer);
    }
}

proof fn lemma_columns_changed(before: BlockModel, after: BlockModel, columns: nat, changed: int)
    requires
        columns <= 64,
        forall|c: int|
            0 <= c < columns && c != changed ==> #[trigger] before.columns[c] == after.columns[c],
    ensures
        export::block_changes(before, after, columns) == if 0 <= changed < columns {
            export::column_changes(before.columns[changed], after.columns[changed])
        } else {
            (0nat, 0nat)
        },
    decreases columns,
{
    if columns > 0 {
        lemma_columns_changed(before, after, (columns - 1) as nat, changed);
        if columns - 1 != changed {
            assert(before.columns[columns - 1] == after.columns[columns - 1]);
            lemma_same_layers(before.columns[columns - 1]);
        }
    }
}

proof fn lemma_blocks_changed(model: DocumentModel, count: nat, changed: int)
    requires
        forall|i: int|
            0 <= i < count && i != changed ==> (#[trigger] model.blocks[i])
                == model.placed[i].block,
    ensures
        export::document_changes(model, count) == if 0 <= changed < count {
            export::block_changes(model.placed[changed].block, model.blocks[changed], 64)
        } else {
            (0nat, 0nat)
        },
        document::dirty_count(model, count) == if 0 <= changed < count && model.dirty(changed) {
            1nat
        } else {
            0nat
        },
        export::conversion_count(model, count) == if 0 <= changed < count && model.dirty(changed)
            && model.blocks[changed].kind != model.placed[changed].block.kind {
            1nat
        } else {
            0nat
        },
    decreases count,
{
    if count > 0 {
        lemma_blocks_changed(model, (count - 1) as nat, changed);
        if count - 1 != changed {
            let same = model.blocks[count - 1];
            lemma_columns_changed(model.placed[count - 1].block, same, 64, -1);
        }
    }
}

/// A save with one changed layer reports one block, one cell, and each side that
/// was opened or closed; and one conversion where the kind of the block changed
/// with it. A save without changes reports none.
pub proof fn changes_are_reported(
    model: DocumentModel,
    index: int,
    column: int,
    place: int,
    layer: Layer,
)
    requires
        0 <= index < 65_536,
        0 <= column < 64,
        model.placed[index].block.columns.len() == 64,
        0 <= place < model.placed[index].block.columns[column].len(),
        layer.nswe < 16,
        model.placed[index].block.columns[column][place].nswe < 16,
        forall|i: int|
            0 <= i < 65_536 && i != index ==> (#[trigger] model.blocks[i])
                == model.placed[i].block,
        model.blocks[index].columns == model.placed[index].block.columns.update(
            column,
            model.placed[index].block.columns[column].update(place, layer),
        ),
    ensures
        ({
            let old = model.placed[index].block.columns[column][place];
            let kinds_differ = model.blocks[index].kind != model.placed[index].block.kind;
            &&& old != layer ==> {
                &&& document::dirty_count(model, 65_536) == 1
                &&& export::document_changes(model, 65_536) == (
                    1nat,
                    differing_sides(old.nswe, layer.nswe),
                )
                &&& export::conversion_count(model, 65_536) == if kinds_differ {
                    1nat
                } else {
                    0nat
                }
            }
            &&& old == layer && !kinds_differ ==> {
                &&& document::dirty_count(model, 65_536) == 0
                &&& export::document_changes(model, 65_536) == (0nat, 0nat)
                &&& export::conversion_count(model, 65_536) == 0
            }
        }),
{
    let before = model.placed[index].block;
    let after = model.blocks[index];
    let old = before.columns[column][place];
    lemma_blocks_changed(model, 65_536, index);
    lemma_columns_changed(before, after, 64, column);
    assert(after.columns[column] == before.columns[column].update(place, layer));
    if old != layer {
        lemma_layer_changed(before.columns[column], place, layer);
        assert(after.columns[column][place] == layer);
        assert(after != before);
    } else {
        assert(before.columns[column].update(place, layer) =~= before.columns[column]);
        assert(after.columns =~= before.columns);
        lemma_same_layers(before.columns[column]);
        if after.kind == before.kind {
            assert(after == before);
        }
    }
}

/// Four bytes from a place on, the low one first.
pub open spec fn total_at(bytes: Seq<u8>, at: int) -> int {
    bytes[at] + 256 * bytes[at + 1] + 65_536 * bytes[at + 2] + 16_777_216 * bytes[at + 3]
}

proof fn lemma_total(front: Seq<u8>, value: int, back: Seq<u8>)
    requires
        0 <= value < 4_294_967_296,
    ensures
        total_at(front + storage::dword_bytes(value) + back, front.len() as int) == value,
        storage::dword_bytes(value).len() == 4,
{
    let low = value % 65_536;
    let high = value / 65_536 % 65_536;
    let bytes = storage::dword_bytes(value);
    let whole = front + bytes + back;
    assert(whole[front.len() as int] == bytes[0]);
    assert(whole[front.len() as int + 1] == bytes[1]);
    assert(whole[front.len() as int + 2] == bytes[2]);
    assert(whole[front.len() as int + 3] == bytes[3]);
    assert(high == value / 65_536);
    assert(bytes[0] == low % 256 && bytes[1] == low / 256);
    assert(bytes[2] == high % 256 && bytes[3] == high / 256);
}

/// The cells that a block stores one by one.
pub open spec fn cells_of(block: BlockModel) -> nat {
    match block.kind {
        EditableBlockType::Simple => 0,
        EditableBlockType::Complex => 64,
        EditableBlockType::Multilayer => block::layer_total(block.columns),
    }
}

/// The header of a changed `_conv.dat` file is eighteen bytes long and keeps the
/// first two. The numbers 128 and 16 follow, and then three totals: one more
/// block adds its stored cells to the first, one to the second unless it is
/// multilayer, and one to the third if it is simple. Without blocks all are zero.
pub proof fn conv_header_counts_blocks(
    header: Seq<u8>,
    blocks: Seq<BlockModel>,
    more: BlockModel,
)
    requires
        header.len() == 18,
        blocks.len() < 65_536,
        storage::stored_cells(blocks.push(more)) < 4_294_967_296,
    ensures
        ({
            let few = storage::conv_header(header, blocks);
            let many = storage::conv_header(header, blocks.push(more));
            &&& few.len() == 18
            &&& few[0] == header[0] && few[1] == header[1]
            &&& few[2] == 128 && few[3] == 0 && few[4] == 16 && few[5] == 0
            &&& blocks.len() == 0 ==> total_at(few, 6) == 0 && total_at(few, 10) == 0 && total_at(
                few,
                14,
            ) == 0
            &&& total_at(many, 6) == total_at(few, 6) + cells_of(more)
            &&& total_at(many, 10) == total_at(few, 10) + if more.kind
                == EditableBlockType::Multilayer {
                0int
            } else {
                1int
            }
            &&& total_at(many, 14) == total_at(few, 14) + if more.kind
                == EditableBlockType::Simple {
                1int
            } else {
                0int
            }
        }),
{
    assert(blocks.push(more).drop_last() =~= blocks);
    lemma_header(header, blocks);
    lemma_header(header, blocks.push(more));
}

proof fn lemma_kinds(blocks: Seq<BlockModel>)
    ensures
        storage::kind_count(blocks, EditableBlockType::Simple) + storage::kind_count(
            blocks,
            EditableBlockType::Complex,
        ) <= blocks.len(),
    decreases blocks.len(),
{
    if blocks.len() > 0 {
        lemma_kinds(blocks.drop_last());
    }
}

proof fn lemma_header(header: Seq<u8>, blocks: Seq<BlockModel>)
    requires
        header.len() == 18,
        blocks.len() <= 65_536,
        storage::stored_cells(blocks) < 4_294_967_296,
    ensures
        ({
            let written = storage::conv_header(header, blocks);
            let flat = storage::kind_count(blocks, EditableBlockType::Simple);
            let complex = storage::kind_count(blocks, EditableBlockType::Complex);
            &&& written.len() == 18
            &&& written[0] == header[0] && written[1] == header[1]
            &&& written[2] == 128 && written[3] == 0 && written[4] == 16 && written[5] == 0
            &&& total_at(written, 6) == storage::stored_cells(blocks)
            &&& total_at(written, 10) == flat + complex
            &&& total_at(written, 14) == flat
        }),
{
    let written = storage::conv_header(header, blocks);
    let flat = storage::kind_count(blocks, EditableBlockType::Simple) as int;
    let both = flat + storage::kind_count(blocks, EditableBlockType::Complex);
    let cells = storage::stored_cells(blocks) as int;
    lemma_kinds(blocks);
    let start = header.take(2) + encode::word_bytes(128) + encode::word_bytes(16);
    assert(start.len() == 6);
    lemma_total(
        start,
        cells,
        storage::dword_bytes(both) + storage::dword_bytes(flat),
    );
    assert(written =~= start + storage::dword_bytes(cells) + (storage::dword_bytes(both)
        + storage::dword_bytes(flat)));
    let middle = start + storage::dword_bytes(cells);
    lemma_total(middle, both, storage::dword_bytes(flat));
    let last = middle + storage::dword_bytes(both);
    lemma_total(last, flat, Seq::empty());
    assert(written =~= last + storage::dword_bytes(flat) + Seq::<u8>::empty());
}

} // verus!
