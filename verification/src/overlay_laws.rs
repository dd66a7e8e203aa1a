//! Why chunks that are left alone still show the map.

use vstd::prelude::*;

use crate::chunks;
use crate::l2j::block::{EditableBlockType, LayerAddress, NULL_HEIGHT};
use crate::l2j::document::DocumentModel;
use crate::l2j::grid;
use crate::overlay;
use crate::overlay_cells;
use crate::overlay_cells::{GeodataCell, NsweIconCell, SnapshotModel};
use crate::selection;

verus! {

proof fn lemma_same_strip(
    model: DocumentModel,
    snapshot: SnapshotModel,
    other: DocumentModel,
    next: SnapshotModel,
    x: int,
    start: int,
    end: int,
)
    requires
        forall|y: int|
            start <= y < end ==> #[trigger] overlay_cells::block_cells(model, snapshot, x, y)
                == overlay_cells::block_cells(other, next, x, y),
    ensures
        overlay_cells::strip_cells(model, snapshot, x, start, end) == overlay_cells::strip_cells(
            other,
            next,
            x,
            start,
            end,
        ),
    decreases end - start,
{
    if start < end {
        lemma_same_strip(model, snapshot, other, next, x, start, end - 1);
        assert(overlay_cells::block_cells(model, snapshot, x, end - 1)
            == overlay_cells::block_cells(other, next, x, end - 1));
    }
}

proof fn lemma_same_area(
    model: DocumentModel,
    snapshot: SnapshotModel,
    other: DocumentModel,
    next: SnapshotModel,
    start_x: int,
    end_x: int,
    start_y: int,
    end_y: int,
)
    requires
        forall|x: int, y: int|
            start_x <= x < end_x && start_y <= y < end_y ==> #[trigger] overlay_cells::block_cells(
                model,
                snapshot,
                x,
                y,
            ) == overlay_cells::block_cells(other, next, x, y),
    ensures
        overlay_cells::area_cells(model, snapshot, start_x, end_x, start_y, end_y)
            == overlay_cells::area_cells(other, next, start_x, end_x, start_y, end_y),
    decreases end_x - start_x,
{
    if start_x < end_x {
        lemma_same_area(model, snapshot, other, next, start_x, end_x - 1, start_y, end_y);
        lemma_same_strip(model, snapshot, other, next, end_x - 1, start_y, end_y);
    }
}

proof fn lemma_same_column(
    model: DocumentModel,
    snapshot: SnapshotModel,
    other: DocumentModel,
    next: SnapshotModel,
    x: int,
    y: int,
    layers: nat,
)
    requires
        forall|l: int|
            0 <= l < layers ==> #[trigger] overlay_cells::layer_cells(model, snapshot, x, y, l)
                == overlay_cells::layer_cells(other, next, x, y, l),
    ensures
        overlay_cells::column_cells(model, snapshot, x, y, layers) == overlay_cells::column_cells(
            other,
            next,
            x,
            y,
            layers,
        ),
    decreases layers,
{
    if layers > 0 {
        lemma_same_column(model, snapshot, other, next, x, y, (layers - 1) as nat);
        assert(overlay_cells::layer_cells(model, snapshot, x, y, layers - 1)
            == overlay_cells::layer_cells(other, next, x, y, layers - 1));
    }
}

proof fn lemma_same_part(
    model: DocumentModel,
    snapshot: SnapshotModel,
    other: DocumentModel,
    next: SnapshotModel,
    start_x: int,
    start_y: int,
    count: nat,
)
    requires
        count <= 64,
        forall|x: int, y: int|
            start_x <= x < start_x + 8 && start_y <= y < start_y + 8 ==> #[trigger] model.column(x, y)
                == other.column(x, y),
        forall|x: int, y: int, l: int|
            start_x <= x < start_x + 8 && start_y <= y < start_y + 8 && 0 <= l < model.column(
                x,
                y,
            ).len() ==> #[trigger] overlay_cells::layer_cells(model, snapshot, x, y, l)
                == overlay_cells::layer_cells(other, next, x, y, l),
    ensures
        overlay_cells::part_cells(model, snapshot, start_x, start_y, count)
            == overlay_cells::part_cells(other, next, start_x, start_y, count),
    decreases count,
{
    if count > 0 {
        lemma_same_part(model, snapshot, other, next, start_x, start_y, (count - 1) as nat);
        let x = start_x + (count - 1) / 8;
        let y = start_y + (count - 1) % 8;
        assert(model.column(x, y) == other.column(x, y));
        lemma_same_column(model, snapshot, other, next, x, y, model.column(x, y).len());
    }
}

/// Everything of two snapshots that what is drawn of a block depends on is the
/// same.
spec fn agree_on_block(
    model: DocumentModel,
    before: SnapshotModel,
    next: SnapshotModel,
    block_x: int,
    block_y: int,
) -> bool {
    let sx = 8 * block_x;
    let sy = 8 * block_y;
    &&& !before.filters_differ(next)
    &&& before.lookup.simple_blocks.contains(grid::block_number(block_x, block_y))
        == next.lookup.simple_blocks.contains(grid::block_number(block_x, block_y))
    &&& before.visibility.hide_fully_open_blocks || (before.visibility.open_block_shown(sx, sy)
        == next.visibility.open_block_shown(sx, sy) && forall|x: int, y: int|
        sx <= x < sx + 8 && sy <= y < sy + 8 ==> #[trigger] before.visibility.open_cell_shown(x, y)
            == next.visibility.open_cell_shown(x, y))
    &&& forall|x: int, y: int, l: int|
        sx <= x < sx + 8 && sy <= y < sy + 8 && 0 <= l < model.column(x, y).len() ==> {
            &&& before.lookup.cells.contains(#[trigger] selection::address(x, y, l))
                == next.lookup.cells.contains(selection::address(x, y, l))
            &&& before.lookup.area_selected(x, y, l, before.stride) == next.lookup.area_selected(
                x,
                y,
                l,
                next.stride,
            )
        }
}

proof fn lemma_same_block(
    model: DocumentModel,
    before: SnapshotModel,
    other: DocumentModel,
    next: SnapshotModel,
    block_x: int,
    block_y: int,
)
    requires
        model.valid(),
        grid::block_on_map(block_x, block_y),
        model.blocks[grid::block_number(block_x, block_y)] == other.blocks[grid::block_number(
            block_x,
            block_y,
        )],
        agree_on_block(model, before, next, block_x, block_y),
    ensures
        overlay_cells::block_cells(model, before, block_x, block_y) == overlay_cells::block_cells(
            other,
            next,
            block_x,
            block_y,
        ),
{
    let number = grid::block_number(block_x, block_y);
    let sx = 8 * block_x;
    let sy = 8 * block_y;
    assert forall|x: int, y: int|
        sx <= x < sx + 8 && sy <= y < sy + 8 implies #[trigger] model.column(x, y) == other.column(
        x,
        y,
    ) by {
        assert(x / 8 == block_x && y / 8 == block_y);
    }
    if model.blocks[number].kind == EditableBlockType::Simple {
        assert(model.column(sx, sy) == other.column(sx, sy));
        assert(model.blocks[number].valid());
        let cell = model.column(sx, sy)[0];
        assert(grid::block_of(sx, sy) == number);
        if before.visibility.hide_fully_open_blocks && cell.height != NULL_HEIGHT {
            let block = model.blocks[number];
            let c = grid::column_of(sx, sy);
            assert(block.uniform_open());
            assert(block.columns[c] == block.columns[0]);
            assert(block.columns[c][0].height != NULL_HEIGHT);
            assert(15u8 & 15 == 15u8) by (bit_vector);
            assert forall|i: int, l: int|
                0 <= i < 64 && 0 <= l < block.columns[i].len() && (
                #[trigger] block.columns[i][l]).height != NULL_HEIGHT implies selection::fully_open(
                block.columns[i][l],
            ) by {
                assert(block.columns[i] == block.columns[0]);
            }
            assert(overlay::all_open(block));
        }
    } else {
        assert forall|x: int, y: int, l: int|
            sx <= x < sx + 8 && sy <= y < sy + 8 && 0 <= l < model.column(x, y).len() implies (
        #[trigger] overlay_cells::layer_cells(model, before, x, y, l))
            == overlay_cells::layer_cells(other, next, x, y, l) by {
            assert(model.column(x, y) == other.column(x, y));
            assert(before.lookup.cells.contains(selection::address(x, y, l))
                == next.lookup.cells.contains(selection::address(x, y, l)));
            if !before.visibility.hide_fully_open_blocks {
                assert(before.visibility.open_cell_shown(x, y) == next.visibility.open_cell_shown(
                    x,
                    y,
                ));
            }
        }
        lemma_same_part(model, before, other, next, sx, sy, 64);
    }
}

/// What is drawn of an area depends on the blocks of the map and the snapshot
/// alone.
pub proof fn area_depends_on_blocks(
    model: DocumentModel,
    snapshot: SnapshotModel,
    other: DocumentModel,
    next: SnapshotModel,
    start_x: int,
    end_x: int,
    start_y: int,
    end_y: int,
)
    requires
        model.blocks == other.blocks,
        snapshot == next,
    ensures
        overlay_cells::area_cells(model, snapshot, start_x, end_x, start_y, end_y)
            == overlay_cells::area_cells(other, next, start_x, end_x, start_y, end_y),
{
    assert forall|x: int, y: int|
        start_x <= x < end_x && start_y <= y < end_y implies #[trigger] overlay_cells::block_cells(
        model,
        snapshot,
        x,
        y,
    ) == overlay_cells::block_cells(other, next, x, y) by {
        assert forall|u: int, v: int, l: int|
            8 * x <= u < 8 * x + 8 && 8 * y <= v < 8 * y + 8 && 0 <= l < model.column(
                u,
                v,
            ).len() implies #[trigger] overlay_cells::layer_cells(model, snapshot, u, v, l)
            == overlay_cells::layer_cells(other, next, u, v, l) by {}
        lemma_same_part(model, snapshot, other, next, 8 * x, 8 * y, 64);
    }
    lemma_same_area(model, snapshot, other, next, start_x, end_x, start_y, end_y);
}

/// Every block lies in one chunk, and in no other.
pub proof fn chunks_partition_the_map(x: int, y: int, chunk: int)
    requires
        grid::block_on_map(x, y),
        0 <= chunk < 256,
    ensures
        0 <= chunks::chunk_of(grid::block_number(x, y)) < 256,
        ({
            let (start_x, start_y) = chunks::chunk_area(chunk);
            (start_x <= x < start_x + 16 && start_y <= y < start_y + 16) == (chunks::chunk_of(
                grid::block_number(x, y),
            ) == chunk)
        }),
{
}

proof fn lemma_area_selected(
    before: SnapshotModel,
    next: SnapshotModel,
    repaint: Set<int>,
    chunk: int,
    x: int,
    y: int,
    l: int,
)
    requires
        0 <= chunk < 256,
        before.stride == next.stride,
        next.stride >= 1,
        !chunks::stale(Some(before), next, repaint, chunk),
        chunk / 16 * 128 <= x < chunk / 16 * 128 + 128,
        chunk % 16 * 128 <= y < chunk % 16 * 128 + 128,
    ensures
        before.lookup.area_selected(x, y, l, before.stride) == next.lookup.area_selected(
            x,
            y,
            l,
            next.stride,
        ),
{
    let stride = next.stride;
    assert forall|u: int, v: int|
        x <= u < x + stride && u < 2_048 && y <= v < y + stride && v < 2_048 implies (
    #[trigger] before.lookup.cells.contains(selection::address(u, v, l)))
        == next.lookup.cells.contains(selection::address(u, v, l)) by {
        let address = selection::address(u, v, l);
        assert(address.x == u && address.y == v);
        if before.lookup.cells.contains(address) != next.lookup.cells.contains(address) {
            assert(chunks::reselected(before, next, address, chunk));
        }
    }
    if before.lookup.area_selected(x, y, l, stride) {
        let (u, v) = choose|u: int, v: int|
            x <= u < x + stride && u < 2_048 && y <= v < y + stride && v < 2_048
                && #[trigger] before.lookup.cells.contains(selection::address(u, v, l));
        assert(next.lookup.cells.contains(selection::address(u, v, l)));
    }
    if next.lookup.area_selected(x, y, l, stride) {
        let (u, v) = choose|u: int, v: int|
            x <= u < x + stride && u < 2_048 && y <= v < y + stride && v < 2_048
                && #[trigger] next.lookup.cells.contains(selection::address(u, v, l));
        assert(before.lookup.cells.contains(selection::address(u, v, l)));
    }
}

/// A chunk that is not drawn again needs no drawing: with the blocks and the
/// snapshot of before it shows what it would show now. Blocks that changed in
/// between are those to be drawn again.
pub proof fn untouched_chunk_is_current(
    old_model: DocumentModel,
    before: SnapshotModel,
    model: DocumentModel,
    next: SnapshotModel,
    chunk: int,
)
    requires
        old_model.valid(),
        model.valid(),
        0 <= chunk < 256,
        before.stride >= 1,
        forall|number: int|
            0 <= number < 65_536 && !model.repaint.contains(number) ==> (
            #[trigger] model.blocks[number]) == old_model.blocks[number],
        !chunks::stale(Some(before), next, model.repaint, chunk),
    ensures
        chunks::chunk_cells(old_model, before, chunk) == chunks::chunk_cells(model, next, chunk),
{
    let (area_x, area_y) = chunks::chunk_area(chunk);
    assert forall|x: int, y: int|
        area_x <= x < area_x + 16 && area_y <= y < area_y + 16 implies (
    #[trigger] overlay_cells::block_cells(old_model, before, x, y)) == overlay_cells::block_cells(
        model,
        next,
        x,
        y,
    ) by {
        let number = grid::block_number(x, y);
        assert(chunks::chunk_of(number) == chunk);
        assert(!model.repaint.contains(number));
        assert(model.blocks[number] == old_model.blocks[number]);
        assert(!chunks::reselected_block(before, next, number, chunk));
        let sx = 8 * x;
        let sy = 8 * y;
        if !before.visibility.hide_fully_open_blocks && before.context() != next.context() {
            assert(!chunks::surrounds(before.context(), chunk));
            assert(!chunks::surrounds(next.context(), chunk));
        }
        assert forall|u: int, v: int, l: int|
            sx <= u < sx + 8 && sy <= v < sy + 8 && 0 <= l < old_model.column(u, v).len() implies
            before.lookup.cells.contains(#[trigger] selection::address(u, v, l))
            == next.lookup.cells.contains(selection::address(u, v, l))
            && before.lookup.area_selected(u, v, l, before.stride) == next.lookup.area_selected(
            u,
            v,
            l,
            next.stride,
        ) by {
            lemma_area_selected(before, next, model.repaint, chunk, u, v, l);
            let address = selection::address(u, v, l);
            if before.lookup.cells.contains(address) != next.lookup.cells.contains(address) {
                assert(chunks::reselected(before, next, address, chunk));
            }
        }
        assert(agree_on_block(old_model, before, next, x, y));
        lemma_same_block(old_model, before, model, next, x, y);
    }
    lemma_same_area(old_model, before, model, next, area_x, area_x + 16, area_y, area_y + 16);
}

/// A block that an edit, an undo or a redo changes is one to be drawn again.
pub proof fn changes_are_repainted(
    model: DocumentModel,
    blocks: Seq<crate::l2j::block::BlockModel>,
    label: Seq<char>,
    number: int,
)
    requires
        model.blocks.len() == 65_536,
        blocks.len() == 65_536,
        0 <= number < 65_536,
    ensures
        model.edited(blocks, label).blocks[number] != model.blocks[number] ==> model.edited(
            blocks,
            label,
        ).repaint.contains(number),
        model.undone().blocks[number] != model.blocks[number]
            ==> model.undone().repaint.contains(number),
        model.redone().blocks[number] != model.blocks[number]
            ==> model.redone().repaint.contains(number),
{
}

/// A chunk that is not out of date shows the map as it is: the quads and the
/// glyphs that were shown before stay right for every chunk that marking leaves
/// alone.
pub proof fn clean_chunks_show_the_map(
    old_model: DocumentModel,
    model: DocumentModel,
    updates: chunks::UpdatesModel,
    next: SnapshotModel,
    quads: Seq<GeodataCell>,
    glyphs: Seq<NsweIconCell>,
    chunk: int,
)
    requires
        old_model.valid(),
        model.valid(),
        0 <= chunk < 256,
        updates.snapshot is Some ==> updates.snapshot->0.stride >= 1,
        forall|number: int|
            0 <= number < 65_536 && !model.repaint.contains(number) ==> (
            #[trigger] model.blocks[number]) == old_model.blocks[number],
        updates.snapshot is Some && !updates.geodata_dirty[chunk] ==> overlay_cells::all_coloured(
            quads,
            chunks::chunk_cells(old_model, updates.snapshot->0, chunk),
        ),
        updates.snapshot is Some && !updates.icons_dirty[chunk] ==> overlay_cells::all_labelled(
            glyphs,
            chunks::chunk_cells(old_model, updates.snapshot->0, chunk),
        ),
    ensures
        !updates.marked(next, model.repaint).geodata_dirty[chunk] ==> overlay_cells::all_coloured(
            quads,
            chunks::chunk_cells(model, next, chunk),
        ),
        !updates.marked(next, model.repaint).icons_dirty[chunk] ==> overlay_cells::all_labelled(
            glyphs,
            chunks::chunk_cells(model, next, chunk),
        ),
{
    let marked = updates.marked(next, model.repaint);
    if !marked.geodata_dirty[chunk] || !marked.icons_dirty[chunk] {
        assert(!chunks::stale(updates.snapshot, next, model.repaint, chunk));
        untouched_chunk_is_current(old_model, updates.snapshot->0, model, next, chunk);
    }
}

/// A cell of the map that lies in a chunk: chunks are squares of 128 cells, counted
/// along columns.
pub open spec fn lies_in(x: int, y: int, chunk: int) -> bool {
    128 * (chunk / 16) <= x < 128 * (chunk / 16) + 128 && 128 * (chunk % 16) <= y < 128 * (chunk
        % 16) + 128
}

/// A rectangle of cells reaches into exactly the chunks that hold one of them.
pub proof fn rectangles_reach_their_chunks(
    min_x: int,
    min_y: int,
    max_x: int,
    max_y: int,
    chunk: int,
)
    requires
        min_x <= max_x,
        min_y <= max_y,
        0 <= chunk < 256,
    ensures
        chunks::reaches(min_x, min_y, max_x, max_y, chunk) == exists|x: int, y: int|
            min_x <= x <= max_x && min_y <= y <= max_y && #[trigger] lies_in(x, y, chunk),
{
    let left = 128 * (chunk / 16);
    let top = 128 * (chunk % 16);
    if chunks::reaches(min_x, min_y, max_x, max_y, chunk) {
        let x = if min_x > left {
            min_x
        } else {
            left
        };
        let y = if min_y > top {
            min_y
        } else {
            top
        };
        assert(lies_in(x, y, chunk));
    }
}

/// A layer that is newly selected, or no longer so, is drawn again in exactly the
/// chunks with a cell that stands for it: one at most a step away in front of it.
pub proof fn selecting_redraws_what_stands_for_a_layer(
    before: SnapshotModel,
    next: SnapshotModel,
    address: LayerAddress,
    chunk: int,
)
    requires
        next.stride >= 1,
        0 <= chunk < 256,
    ensures
        chunks::reselected(before, next, address, chunk) == (before.lookup.cells.contains(address)
            != next.lookup.cells.contains(address) && exists|x: int, y: int|
            x <= address.x < x + next.stride && y <= address.y < y + next.stride
                && #[trigger] lies_in(x, y, chunk)),
{
    rectangles_reach_their_chunks(
        address.x - (next.stride - 1),
        address.y - (next.stride - 1),
        address.x as int,
        address.y as int,
        chunk,
    );
}

/// The surroundings of the selected cell are all cells at most the radius away.
pub proof fn surroundings_have_their_radius(x: usize, y: usize, radius: usize, chunk: int)
    requires
        0 <= chunk < 256,
    ensures
        chunks::surrounds(Some((x, y, radius)), chunk) == exists|u: int, v: int|
            -radius <= u - x <= radius && -radius <= v - y <= radius && #[trigger] lies_in(
                u,
                v,
                chunk,
            ),
        !chunks::surrounds(None, chunk),
{
    rectangles_reach_their_chunks(x - radius, y - radius, x + radius, y + radius, chunk);
}

} // verus!
