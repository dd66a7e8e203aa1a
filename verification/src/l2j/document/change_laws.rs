//! What edits of heights and conversions of blocks do, told by the layers of a
//! cell, and what an edit counts.

use vstd::prelude::*;

use crate::l2j::block::{BlockModel, Direction, EditableBlockType, Layer, LayerAddress};
use crate::l2j::document::edits;
use crate::l2j::document::edits::EditModel;
use crate::l2j::document::{edit_laws, link_laws};
use crate::l2j::{grid, height_order};

verus! {

/// Layers from the lowest to the highest.
pub open spec fn ascends(column: Seq<Layer>) -> bool {
    forall|i: int, j: int|
        0 <= i < j < column.len() ==> (#[trigger] column[i]).height <= (#[trigger] column[j]).height
}

proof fn lemma_insert_multiset(sorted: Seq<Layer>, layer: Layer)
    ensures
        height_order::insert_by_height(sorted, layer).to_multiset() == sorted.to_multiset().insert(
            layer,
        ),
    decreases sorted.len(),
{
    sorted.to_multiset_ensures();
    let inserted = height_order::insert_by_height(sorted, layer);
    if sorted.len() > 0 && sorted.last().height > layer.height {
        lemma_insert_multiset(sorted.drop_last(), layer);
        let shorter = height_order::insert_by_height(sorted.drop_last(), layer);
        shorter.to_multiset_ensures();
        sorted.drop_last().to_multiset_ensures();
        assert(sorted.drop_last().push(sorted.last()) =~= sorted);
        assert(inserted =~= shorter.push(sorted.last()));
        assert(inserted.to_multiset() =~= sorted.to_multiset().insert(layer));
    } else {
        assert(inserted =~= sorted.push(layer));
    }
}

proof fn lemma_order_multiset(layers: Seq<Layer>)
    ensures
        height_order::by_height(layers).to_multiset() == layers.to_multiset(),
    decreases layers.len(),
{
    layers.to_multiset_ensures();
    if layers.len() > 0 {
        let front = layers.drop_last();
        lemma_order_multiset(front);
        front.to_multiset_ensures();
        lemma_insert_multiset(height_order::by_height(front), layers.last());
        assert(front.push(layers.last()) =~= layers);
    } else {
        assert(height_order::by_height(layers) =~= layers);
    }
}

/// A height edit gives a layer another height and leaves it its mask. The cell
/// keeps all its other layers as they were, and its layers ascend. Sentinels
/// stay as they are, and so does a layer that is at that height already.
pub proof fn raised_layer_keeps_its_mask(edit: EditModel, target: LayerAddress, height: i16)
    requires
        edit.sound(),
        target.x < 2_048,
        target.y < 2_048,
        target.layer < edit.column(target.x as int, target.y as int).len(),
    ensures
        ({
            let x = target.x as int;
            let y = target.y as int;
            let before = edit.column(x, y);
            let after = edit.raising(target, height).column(x, y);
            let old = before[target.layer as int];
            if old.height == -16_384 || old.height == height {
                after == before
            } else {
                &&& ascends(after)
                &&& after.len() == before.len()
                &&& after.to_multiset() == before.to_multiset().remove(old).insert(
                    Layer { height, nswe: old.nswe },
                )
            }
        }),
{
    let x = target.x as int;
    let y = target.y as int;
    grid::lemma_location(x, y);
    let before = edit.column(x, y);
    let layer = target.layer as int;
    let old = before[layer];
    if old.height != -16_384 && old.height != height {
        let changed = before.update(layer, Layer { height, nswe: old.nswe });
        let after = edit.raising(target, height).column(x, y);
        assert(after == height_order::by_height(changed));
        height_order::height_order_is_sorted(changed);
        lemma_order_multiset(changed);
        before.to_multiset_ensures();
        changed.to_multiset_ensures();
        vstd::seq_lib::to_multiset_update(before, layer, Layer { height, nswe: old.nswe });
        assert(after.to_multiset() =~= before.to_multiset().remove(old).insert(
            Layer { height, nswe: old.nswe },
        ));
    }
}

/// Heights between two steps of eight are stored as the one nearer to zero.
/// Those farther from zero than 16,383 are refused.
pub proof fn heights_are_stored_in_steps(value: int, step: int)
    requires
        0 <= value,
        0 <= step,
        8 * step <= value < 8 * step + 8,
    ensures
        edits::normalized(value) == 8 * step,
        edits::normalized(-value) == -(8 * step),
        edits::editable(value) == (value <= 16_383),
        edits::editable(-value) == (value <= 16_383),
{
}

/// Every column has one layer.
pub open spec fn one_layer_each(block: BlockModel) -> bool {
    forall|c: int| 0 <= c < 64 ==> (#[trigger] block.columns[c]).len() == 1
}

/// A block becomes simple exactly if all its columns have one layer of one height
/// that is open to all sides; complex exactly if all have one layer; multilayer
/// always.
pub proof fn kinds_hold_what_they_can(block: BlockModel)
    requires
        block.valid(),
    ensures
        edits::converted(block, EditableBlockType::Simple) is Ok == (one_layer_each(block)
            && forall|c: int|
            0 <= c < 64 ==> (#[trigger] block.columns[c])[0].nswe == 15 && block.columns[c][0].height
                == block.columns[0][0].height),
        edits::converted(block, EditableBlockType::Complex) is Ok == one_layer_each(block),
        edits::converted(block, EditableBlockType::Multilayer) is Ok,
        edits::as_simple(block) is Ok == edits::converted(block, EditableBlockType::Simple) is Ok,
        edits::complex_as_multilayer(block) is Ok == (block.kind == EditableBlockType::Complex),
        edits::multilayer_as_complex(block) is Ok == (block.kind == EditableBlockType::Multilayer
            && one_layer_each(block)),
        edits::as_promoted(block) is Ok,
{
    let flat = one_layer_each(block) && forall|c: int|
        0 <= c < 64 ==> (#[trigger] block.columns[c])[0].nswe == 15 && block.columns[c][0].height
            == block.columns[0][0].height;
    if block.uniform_open() {
        assert forall|c: int| 0 <= c < 64 implies (#[trigger] block.columns[c]).len() == 1
            && block.columns[c][0].nswe == 15 && block.columns[c][0].height
            == block.columns[0][0].height by {
            assert(block.columns[c] == block.columns[0]);
        }
        assert(flat);
    }
    if flat {
        assert forall|c: int| 0 <= c < 64 implies #[trigger] block.columns[c] == block.columns[0] by {
            assert(block.columns[c][0].nswe == 15 && block.columns[0][0].nswe == 15);
            assert(block.columns[c][0].height == block.columns[0][0].height);
            assert(block.columns[c] =~= block.columns[0]);
        }
        assert(block.uniform_open());
    }
}

/// How many of the first layers of a column differ.
pub open spec fn differing(before: Seq<Layer>, after: Seq<Layer>, count: nat) -> nat
    decreases count,
{
    if count == 0 {
        0
    } else {
        differing(before, after, (count - 1) as nat) + if before[count - 1] == after[count - 1] {
            0nat
        } else {
            1nat
        }
    }
}

proof fn lemma_none_differ(column: Seq<Layer>, count: nat)
    ensures
        differing(column, column, count) == 0,
    decreases count,
{
    if count > 0 {
        lemma_none_differ(column, (count - 1) as nat);
    }
}

proof fn lemma_one_differs(column: Seq<Layer>, place: int, layer: Layer, count: nat)
    requires
        0 <= place < column.len(),
        count <= column.len(),
    ensures
        differing(column, column.update(place, layer), count) == if place < count
            && column[place] != layer {
            1nat
        } else {
            0nat
        },
    decreases count,
{
    if count > 0 {
        lemma_one_differs(column, place, layer, (count - 1) as nat);
    }
}

proof fn lemma_closing_counts(edit: EditModel, x: int, y: int, bit: u8, layers: nat)
    requires
        edit.sound(),
        grid::on_map(x, y),
        layers <= edit.column(x, y).len(),
    ensures
        edit.closing(x, y, bit, layers).result.changed_links == edit.result.changed_links
            + differing(edit.column(x, y), edit.closing(x, y, bit, layers).column(x, y), layers),
        edit.closing(x, y, bit, layers).result.changed_cells == edit.result.changed_cells,
    decreases layers,
{
    if layers > 0 {
        let fewer = (layers - 1) as nat;
        lemma_closing_counts(edit, x, y, bit, fewer);
        link_laws::lemma_closed(edit, x, y, bit, fewer);
        link_laws::lemma_closed(edit, x, y, bit, layers);
        let middle = edit.closing(x, y, bit, fewer);
        link_laws::lemma_mirrored(middle, x, y, layers - 1, bit, false);
        let after = edit.closing(x, y, bit, layers);
        lemma_differing_prefix(
            edit.column(x, y),
            middle.column(x, y),
            after.column(x, y),
            fewer,
        );
        let old = edit.column(x, y)[layers - 1];
        assert(middle.column(x, y)[layers - 1] == old);
    }
}

proof fn lemma_differing_prefix(
    before: Seq<Layer>,
    one: Seq<Layer>,
    two: Seq<Layer>,
    count: nat,
)
    requires
        forall|i: int| 0 <= i < count ==> one[i] == two[i],
    ensures
        differing(before, one, count) == differing(before, two, count),
    decreases count,
{
    if count > 0 {
        lemma_differing_prefix(before, one, two, (count - 1) as nat);
    }
}

/// How many layers behind a side differ.
pub open spec fn changed_behind(
    before: EditModel,
    after: EditModel,
    x: int,
    y: int,
    direction: Direction,
) -> nat {
    let (u, v) = link_laws::behind(x, y, direction);
    if link_laws::on_the_map((u, v)) {
        differing(before.column(u, v), after.column(u, v), before.column(u, v).len())
    } else {
        0
    }
}

proof fn lemma_link_counts(
    edit: EditModel,
    mask: u8,
    x: int,
    y: int,
    height: i16,
    requested: u8,
    direction: Direction,
)
    requires
        edit.sound(),
        grid::on_map(x, y),
    ensures
        ({
            let after = edit.linking(mask, x, y, height, requested, direction).0;
            &&& after.result.changed_links == edit.result.changed_links + changed_behind(
                edit,
                after,
                x,
                y,
                direction,
            )
            &&& after.result.changed_cells == edit.result.changed_cells
        }),
{
    reveal(EditModel::linking);
    link_laws::lemma_sides(direction);
    link_laws::lemma_neighbour(x, y, direction);
    let (u, v) = link_laws::behind(x, y, direction);
    let wants_open = requested & direction.mask() != 0;
    if link_laws::on_the_map((u, v)) {
        let column = edit.column(u, v);
        lemma_none_differ(column, column.len());
        link_laws::lemma_chosen(column, height);
        match edits::compatible(column, height) {
            Some(layer) => {
                let bit = direction.reverse().mask();
                link_laws::lemma_mirrored(edit, u, v, layer, bit, wants_open);
                lemma_one_differs(
                    column,
                    layer,
                    Layer {
                        height: column[layer].height,
                        nswe: link_laws::turned(column[layer].nswe, bit, wants_open),
                    },
                    column.len(),
                );
            },
            None => {
                if !wants_open {
                    lemma_closing_counts(
                        edit,
                        u,
                        v,
                        direction.reverse().mask(),
                        column.len(),
                    );
                }
            },
        }
    }
}

/// A mask edit counts one cell where it changes the mask of its layer, and one
/// link for each layer next to it whose mask it changes.
#[verifier::spinoff_prover]
#[verifier::rlimit(80)]
pub proof fn mask_edit_counts_what_changes(edit: EditModel, target: LayerAddress, requested: u8)
    requires
        edit.sound(),
        target.x < 2_048,
        target.y < 2_048,
        target.layer < edit.column(target.x as int, target.y as int).len(),
    ensures
        ({
            let after = edit.setting(target, requested);
            let x = target.x as int;
            let y = target.y as int;
            let layer = target.layer as int;
            &&& after.result.changed_cells == edit.result.changed_cells + if after.column(
                x,
                y,
            )[layer].nswe == edit.column(x, y)[layer].nswe {
                0nat
            } else {
                1nat
            }
            &&& after.result.changed_links == edit.result.changed_links + changed_behind(
                edit,
                after,
                x,
                y,
                Direction::North,
            ) + changed_behind(edit, after, x, y, Direction::South) + changed_behind(
                edit,
                after,
                x,
                y,
                Direction::West,
            ) + changed_behind(edit, after, x, y, Direction::East)
        }),
{
    let x = target.x as int;
    let y = target.y as int;
    let layer = target.layer as int;
    let height = edit.column(x, y)[layer].height;
    let after = edit.setting(target, requested);
    grid::lemma_location(x, y);
    let start = edit.touching(grid::block_of(x, y));
    assert(start.sound());
    assert forall|s: int, t: int| grid::on_map(s, t) implies #[trigger] start.column(s, t)
        == edit.column(s, t) by {
        grid::lemma_location(s, t);
    }
    let north = start.linking(requested, x, y, height, requested, Direction::North);
    link_laws::lemma_one_link(start, requested, x, y, height, requested, Direction::North);
    lemma_link_counts(start, requested, x, y, height, requested, Direction::North);
    let south = north.0.linking(north.1, x, y, height, requested, Direction::South);
    link_laws::lemma_one_link(north.0, north.1, x, y, height, requested, Direction::South);
    lemma_link_counts(north.0, north.1, x, y, height, requested, Direction::South);
    let west = south.0.linking(south.1, x, y, height, requested, Direction::West);
    link_laws::lemma_one_link(south.0, south.1, x, y, height, requested, Direction::West);
    lemma_link_counts(south.0, south.1, x, y, height, requested, Direction::West);
    let east = west.0.linking(west.1, x, y, height, requested, Direction::East);
    link_laws::lemma_one_link(west.0, west.1, x, y, height, requested, Direction::East);
    lemma_link_counts(west.0, west.1, x, y, height, requested, Direction::East);
    assert(east.0.column(x, y) == edit.column(x, y)) by {
        assert(north.0.column(x, y) == start.column(x, y));
        assert(south.0.column(x, y) == north.0.column(x, y));
        assert(west.0.column(x, y) == south.0.column(x, y));
        assert(east.0.column(x, y) == west.0.column(x, y));
    }
    if east.0.column(x, y)[layer].nswe != east.1 {
        edit_laws::lemma_masking_elsewhere(east.0, x, y, layer, east.1);
    }
    assert forall|u: int, v: int| grid::on_map(u, v) && !(u == x && v == y) implies
        #[trigger] after.column(u, v) == east.0.column(u, v) by {}
    if y > 0 {
        assert(south.0.column(x, y - 1) == north.0.column(x, y - 1));
        assert(west.0.column(x, y - 1) == south.0.column(x, y - 1));
        assert(east.0.column(x, y - 1) == west.0.column(x, y - 1));
        assert(after.column(x, y - 1) == north.0.column(x, y - 1));
        assert(start.column(x, y - 1) == edit.column(x, y - 1));
    }
    if y < 2_047 {
        assert(north.0.column(x, y + 1) == start.column(x, y + 1));
        assert(west.0.column(x, y + 1) == south.0.column(x, y + 1));
        assert(east.0.column(x, y + 1) == west.0.column(x, y + 1));
        assert(after.column(x, y + 1) == south.0.column(x, y + 1));
        assert(start.column(x, y + 1) == edit.column(x, y + 1));
    }
    if x > 0 {
        assert(north.0.column(x - 1, y) == start.column(x - 1, y));
        assert(south.0.column(x - 1, y) == north.0.column(x - 1, y));
        assert(east.0.column(x - 1, y) == west.0.column(x - 1, y));
        assert(after.column(x - 1, y) == west.0.column(x - 1, y));
        assert(start.column(x - 1, y) == edit.column(x - 1, y));
    }
    if x < 2_047 {
        assert(north.0.column(x + 1, y) == start.column(x + 1, y));
        assert(south.0.column(x + 1, y) == north.0.column(x + 1, y));
        assert(west.0.column(x + 1, y) == south.0.column(x + 1, y));
        assert(after.column(x + 1, y) == east.0.column(x + 1, y));
        assert(start.column(x + 1, y) == edit.column(x + 1, y));
    }
    assert(changed_behind(start, north.0, x, y, Direction::North) == changed_behind(
        edit,
        after,
        x,
        y,
        Direction::North,
    ));
    assert(changed_behind(north.0, south.0, x, y, Direction::South) == changed_behind(
        edit,
        after,
        x,
        y,
        Direction::South,
    ));
    assert(changed_behind(south.0, west.0, x, y, Direction::West) == changed_behind(
        edit,
        after,
        x,
        y,
        Direction::West,
    ));
    assert(changed_behind(west.0, east.0, x, y, Direction::East) == changed_behind(
        edit,
        after,
        x,
        y,
        Direction::East,
    ));
}

/// The map is stored column by column: behind the blocks of lower columns and
/// rows, and in a block the cells likewise.
pub proof fn cells_have_their_place(x: int, y: int)
    requires
        0 <= x < 2_048,
        0 <= y < 2_048,
    ensures
        grid::block_of(x, y) == 256 * (x / 8) + y / 8,
        grid::column_of(x, y) == 8 * (x % 8) + y % 8,
        y < 2_047 && y % 8 != 7 ==> grid::block_of(x, y + 1) == grid::block_of(x, y)
            && grid::column_of(x, y + 1) == grid::column_of(x, y) + 1,
        x < 2_047 && x % 8 != 7 ==> grid::block_of(x + 1, y) == grid::block_of(x, y)
            && grid::column_of(x + 1, y) == grid::column_of(x, y) + 8,
        y < 2_040 ==> grid::block_of(x, y + 8) == grid::block_of(x, y) + 1,
        x < 2_040 ==> grid::block_of(x + 8, y) == grid::block_of(x, y) + 256,
{
}

/// An edit starts with nothing counted. Moving a layer turns its block complex if
/// it was simple, which is counted, and changes the kind of no other block. A cell
/// is counted if its height changes. What cannot be moved is refused, one reason
/// for each.
pub proof fn moving_layers_is_counted(
    edit: EditModel,
    blocks: Seq<BlockModel>,
    target: LayerAddress,
    height: i16,
    other: int,
)
    requires
        edit.sound(),
        0 <= other < 65_536,
    ensures
        ({
            let nothing = EditModel::start(blocks).result;
            &&& nothing.changed_cells == 0
            &&& nothing.changed_links == 0
            &&& nothing.promoted_blocks == 0
            &&& nothing.rejected.len() == 0
        }),
        ({
            let x = target.x as int;
            let y = target.y as int;
            let layer = target.layer as int;
            let here = 256 * (x / 8) + y / 8;
            let after = edit.raising(target, height);
            let there = x < 2_048 && y < 2_048 && layer < edit.column(x, y).len()
                && edit.column(x, y)[layer].height != -16_384;
            let moves = there && edit.column(x, y)[layer].height != height;
            let was_simple = edit.blocks[here].kind == EditableBlockType::Simple;
            &&& moves && was_simple ==> after.blocks[here].kind == EditableBlockType::Complex
            &&& moves && !was_simple ==> after.blocks[here].kind == edit.blocks[here].kind
            &&& other != here || !moves ==> after.blocks[other] == edit.blocks[other]
            &&& after.result.promoted_blocks == edit.result.promoted_blocks + if moves
                && was_simple {
                1nat
            } else {
                0
            }
            &&& after.result.changed_cells == edit.result.changed_cells + if moves {
                1nat
            } else {
                0
            }
            &&& after.result.changed_links == edit.result.changed_links
            &&& after.result.rejected.len() == edit.result.rejected.len() + if there {
                0nat
            } else {
                1
            }
        }),
{
    let x = target.x as int;
    let y = target.y as int;
    if x < 2_048 && y < 2_048 {
        grid::lemma_location(x, y);
        cells_have_their_place(x, y);
    }
}

} // verus!
