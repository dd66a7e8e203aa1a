//! What edits promise: links are symmetric, the rest of the map stays, and
//! conversions keep the cells.

use vstd::prelude::*;

use crate::l2j::block::{
    BlockModel, Direction, EditableBlockType, Layer, LayerAddress, NULL_HEIGHT,
};
use crate::l2j::document::edits;
use crate::l2j::document::edits::{Converted, EditModel};
use crate::l2j::document::DocumentModel;
use crate::l2j::{block, grid};

verus! {

/// Whether a mask has a side open.
pub open spec fn is_open(mask: u8, direction: Direction) -> bool {
    mask & direction.mask() != 0
}

proof fn lemma_side(mask: u8, bit: u8, other: u8)
    requires
        bit == 1 || bit == 2 || bit == 4 || bit == 8,
        other == 1 || other == 2 || other == 4 || other == 8,
    ensures
        (mask | bit) & bit != 0,
        (mask & !bit) & bit == 0,
        bit != other ==> (mask & !bit) & other == mask & other,
        bit != other ==> (mask | bit) & other == mask & other,
{
    assert((mask | bit) & bit != 0) by (bit_vector)
        requires
            bit == 1 || bit == 2 || bit == 4 || bit == 8,
    ;
    assert((mask & !bit) & bit == 0) by (bit_vector);
    assert(bit != other ==> (mask & !bit) & other == mask & other) by (bit_vector)
        requires
            bit == 1 || bit == 2 || bit == 4 || bit == 8,
            other == 1 || other == 2 || other == 4 || other == 8,
    ;
    assert(bit != other ==> (mask | bit) & other == mask & other) by (bit_vector)
        requires
            bit == 1 || bit == 2 || bit == 4 || bit == 8,
            other == 1 || other == 2 || other == 4 || other == 8,
    ;
}

/// Turning round twice leads the old way, and back where one came from.
pub proof fn opposite_is_an_involution(direction: Direction)
    ensures
        direction.reverse().reverse() == direction,
        direction.reverse() != direction,
        direction.delta().0 + direction.reverse().delta().0 == 0,
        direction.delta().1 + direction.reverse().delta().1 == 0,
{
}

/// The nearest layer depends on the heights of a column alone.
proof fn lemma_nearest_by_height(left: Seq<Layer>, right: Seq<Layer>, height: i16)
    requires
        left.len() == right.len(),
        forall|l: int| 0 <= l < left.len() ==> (#[trigger] left[l]).height == right[l].height,
    ensures
        edits::nearest(left, height) == edits::nearest(right, height),
        edits::compatible(left, height) == edits::compatible(right, height),
        edits::nearest(left, height) is Some ==> 0 <= edits::nearest(left, height)->0 < left.len(),
{
    assert forall|l: int| #[trigger] edits::is_nearest(left, height, l) == edits::is_nearest(
        right,
        height,
        l,
    ) by {
        if 0 <= l < left.len() {
            assert(left[l].height == right[l].height);
            if edits::is_nearest(left, height, l) {
                assert forall|j: int|
                    0 <= j < right.len() && (#[trigger] right[j]).height
                        != NULL_HEIGHT implies edits::distance(right[l].height, height)
                    <= edits::distance(right[j].height, height) && (j < l ==> edits::distance(
                    right[l].height,
                    height,
                ) < edits::distance(right[j].height, height)) by {
                    assert(left[j].height == right[j].height);
                }
            }
            if edits::is_nearest(right, height, l) {
                assert forall|j: int|
                    0 <= j < left.len() && (#[trigger] left[j]).height
                        != NULL_HEIGHT implies edits::distance(left[l].height, height)
                    <= edits::distance(left[j].height, height) && (j < l ==> edits::distance(
                    left[l].height,
                    height,
                ) < edits::distance(left[j].height, height)) by {
                    assert(left[j].height == right[j].height);
                }
            }
        }
    }
    if exists|l: int| edits::is_nearest(left, height, l) {
        let l = choose|l: int| edits::is_nearest(left, height, l);
        assert(edits::is_nearest(right, height, l));
        edits::lemma_nearest(left, height, l);
        edits::lemma_nearest(right, height, l);
    } else {
        assert(!exists|l: int| edits::is_nearest(right, height, l)) by {
            if exists|l: int| edits::is_nearest(right, height, l) {
                let l = choose|l: int| edits::is_nearest(right, height, l);
                assert(edits::is_nearest(left, height, l));
            }
        }
    }
}

/// Everything on the map but one cell is the same.
pub open spec fn same_elsewhere(before: EditModel, after: EditModel, x: int, y: int) -> bool {
    forall|u: int, v: int|
        grid::on_map(u, v) && !(u == x && v == y) ==> #[trigger] after.column(u, v)
            == before.column(u, v)
}

pub proof fn lemma_masking_elsewhere(edit: EditModel, x: int, y: int, layer: int, nswe: u8)
    requires
        edit.sound(),
        grid::on_map(x, y),
        0 <= layer < edit.column(x, y).len(),
    ensures
        ({
            let after = edit.masking(grid::block_of(x, y), grid::column_of(x, y), layer, nswe);
            &&& after.sound()
            &&& edit.same_shape(after)
            &&& same_elsewhere(edit, after, x, y)
            &&& after.column(x, y) == edit.column(x, y).update(
                layer,
                Layer { height: edit.column(x, y)[layer].height, nswe },
            )
        }),
{
    grid::lemma_location(x, y);
    edit.lemma_masking_keeps(grid::block_of(x, y), grid::column_of(x, y), layer, nswe);
    let after = edit.masking(grid::block_of(x, y), grid::column_of(x, y), layer, nswe);
    assert forall|u: int, v: int|
        grid::on_map(u, v) && !(u == x && v == y) implies #[trigger] after.column(u, v)
        == edit.column(u, v) by {
        grid::lemma_location(u, v);
        if grid::block_of(u, v) == grid::block_of(x, y) && grid::column_of(u, v)
            == grid::column_of(x, y) {
            grid::lemma_location_is_unique(x, y, u, v);
        }
    }
}

proof fn lemma_mirroring(edit: EditModel, x: int, y: int, layer: int, bit: u8, open: bool)
    requires
        edit.sound(),
        grid::on_map(x, y),
        0 <= layer < edit.column(x, y).len(),
        bit == 1 || bit == 2 || bit == 4 || bit == 8,
    ensures
        ({
            let after = edit.mirroring(x, y, layer, bit, open);
            &&& after.sound()
            &&& edit.same_shape(after)
            &&& same_elsewhere(edit, after, x, y)
            &&& after.column(x, y).len() == edit.column(x, y).len()
            &&& (after.column(x, y)[layer].nswe & bit != 0) == open
            &&& forall|l: int|
                0 <= l < edit.column(x, y).len() && l != layer ==> #[trigger] after.column(x, y)[l]
                    == edit.column(x, y)[l]
        }),
{
    let old = edit.column(x, y)[layer].nswe;
    lemma_side(old, bit, bit);
    let new = if open {
        old | bit
    } else {
        old & !bit
    };
    lemma_masking_elsewhere(edit, x, y, layer, new);
}

proof fn lemma_closing(edit: EditModel, x: int, y: int, bit: u8, layers: nat)
    requires
        edit.sound(),
        grid::on_map(x, y),
        layers <= edit.column(x, y).len(),
        bit == 1 || bit == 2 || bit == 4 || bit == 8,
    ensures
        ({
            let after = edit.closing(x, y, bit, layers);
            &&& after.sound()
            &&& edit.same_shape(after)
            &&& same_elsewhere(edit, after, x, y)
            &&& after.column(x, y).len() == edit.column(x, y).len()
            &&& forall|l: int|
                0 <= l < layers ==> (#[trigger] after.column(x, y)[l]).nswe & bit == 0
        }),
    decreases layers,
{
    if layers > 0 {
        let fewer = (layers - 1) as nat;
        lemma_closing(edit, x, y, bit, fewer);
        let middle = edit.closing(x, y, bit, fewer);
        let after = edit.closing(x, y, bit, layers);
        lemma_mirroring(middle, x, y, layers - 1, bit, false);
        edit.lemma_shape_chain(middle, after);
        assert forall|l: int| 0 <= l < layers implies (#[trigger] after.column(x, y)[l]).nswe & bit
            == 0 by {
            if l < fewer {
                assert(after.column(x, y)[l] == middle.column(x, y)[l]);
            }
        }
        assert forall|u: int, v: int|
            grid::on_map(u, v) && !(u == x && v == y) implies #[trigger] after.column(u, v)
            == edit.column(u, v) by {
            assert(middle.column(u, v) == edit.column(u, v));
        }
    }
}

/// Whether the side of a cell may stay open: the map goes on there, with a
/// layer that can be climbed to.
pub open spec fn passable(edit: EditModel, x: int, y: int, height: i16, direction: Direction) -> bool {
    match grid::next_cell(x, y, direction) {
        None => false,
        Some((nx, ny)) => edits::compatible(edit.column(nx, ny), height) is Some,
    }
}

/// The neighbour agrees with what was asked: the layer behind the side faces
/// back as asked, or, without such a layer, every layer there is closed where
/// closing was asked for.
pub open spec fn agrees(
    before: EditModel,
    after: EditModel,
    x: int,
    y: int,
    height: i16,
    requested: u8,
    direction: Direction,
) -> bool {
    match grid::next_cell(x, y, direction) {
        None => true,
        Some((nx, ny)) => match edits::compatible(before.column(nx, ny), height) {
            Some(layer) => is_open(after.column(nx, ny)[layer].nswe, direction.reverse())
                == is_open(requested, direction),
            None => !is_open(requested, direction) ==> forall|l: int|
                0 <= l < after.column(nx, ny).len() ==> !is_open(
                    (#[trigger] after.column(nx, ny)[l]).nswe,
                    direction.reverse(),
                ),
        },
    }
}

proof fn lemma_link(
    start: EditModel,
    edit: EditModel,
    mask: u8,
    x: int,
    y: int,
    height: i16,
    requested: u8,
    direction: Direction,
)
    requires
        start.sound(),
        edit.sound(),
        start.same_shape(edit),
        grid::on_map(x, y),
    ensures
        ({
            let after = edit.linking(mask, x, y, height, requested, direction);
            &&& after.0.sound()
            &&& start.same_shape(after.0)
            &&& forall|u: int, v: int|
                grid::on_map(u, v) && grid::next_cell(x, y, direction) != Some((u, v)) ==> (
                #[trigger] after.0.column(u, v)) == edit.column(u, v)
            &&& forall|other: Direction|
                other != direction ==> #[trigger] is_open(after.1, other) == is_open(mask, other)
            &&& is_open(mask, direction) == is_open(requested, direction) ==> is_open(
                after.1,
                direction,
            ) == (is_open(requested, direction) && passable(start, x, y, height, direction))
            &&& agrees(start, after.0, x, y, height, requested, direction)
        }),
{
    reveal(EditModel::linking);
    let bit = direction.reverse().mask();
    let after = edit.linking(mask, x, y, height, requested, direction);
    assert forall|other: Direction| other != direction implies #[trigger] is_open(after.1, other)
        == is_open(mask, other) by {
        lemma_side(mask, direction.mask(), other.mask());
    }
    lemma_side(mask, direction.mask(), direction.mask());
    edit.lemma_linking_shape(mask, x, y, height, requested, direction);
    start.lemma_shape_chain(edit, after.0);
    if let Some((nx, ny)) = grid::next_cell(x, y, direction) {
        grid::lemma_location(nx, ny);
        let there = edit.column(nx, ny);
        let first = start.column(nx, ny);
        assert(there.len() == first.len());
        assert forall|l: int| 0 <= l < first.len() implies (#[trigger] first[l]).height
            == there[l].height by {
            let b = grid::block_of(nx, ny);
            let c = grid::column_of(nx, ny);
            assert(edit.blocks[b].columns[c][l].height == start.blocks[b].columns[c][l].height);
        }
        lemma_nearest_by_height(first, there, height);
        match edits::compatible(there, height) {
            Some(layer) => {
                lemma_mirroring(edit, nx, ny, layer, bit, requested & direction.mask() != 0);
            },
            None => {
                if !is_open(requested, direction) {
                    lemma_closing(edit, nx, ny, bit, there.len());
                }
            },
        }
    }
}

/// The steps of a mask edit of one layer that exists.
#[verifier::rlimit(40)]
pub proof fn lemma_setting(edit: EditModel, target: LayerAddress, requested: u8)
    requires
        edit.sound(),
        grid::on_map(target.x as int, target.y as int),
        target.layer < edit.column(target.x as int, target.y as int).len(),
    ensures
        ({
            let x = target.x as int;
            let y = target.y as int;
            let layer = target.layer as int;
            let height = edit.column(x, y)[layer].height;
            let after = edit.setting(target, requested);
            &&& after.sound()
            &&& edit.same_shape(after)
            &&& forall|direction: Direction| #[trigger]
                agrees(edit, after, x, y, height, requested, direction)
            &&& forall|direction: Direction| #[trigger]
                is_open(after.column(x, y)[layer].nswe, direction) == (is_open(
                    requested,
                    direction,
                ) && passable(edit, x, y, height, direction))
            &&& forall|u: int, v: int|
                grid::on_map(u, v) && !(u == x && v == y) && (forall|direction: Direction|
                    #[trigger] grid::next_cell(x, y, direction) != Some((u, v))) ==> (
                #[trigger] after.column(u, v)) == edit.column(u, v)
            &&& forall|l: int|
                0 <= l < edit.column(x, y).len() && l != layer ==> #[trigger] after.column(x, y)[l]
                    == edit.column(x, y)[l]
        }),
{
    let x = target.x as int;
    let y = target.y as int;
    let layer = target.layer as int;
    let height = edit.column(x, y)[layer].height;
    grid::lemma_location(x, y);
    let start = edit.touching(grid::block_of(x, y));
    assert(start.sound());
    assert(edit.same_shape(start));
    assert forall|u: int, v: int| grid::on_map(u, v) implies #[trigger] start.column(u, v)
        == edit.column(u, v) by {
        grid::lemma_location(u, v);
    }
    let north = start.linking(requested, x, y, height, requested, Direction::North);
    lemma_link(edit, start, requested, x, y, height, requested, Direction::North);
    let south = north.0.linking(north.1, x, y, height, requested, Direction::South);
    lemma_link(edit, north.0, north.1, x, y, height, requested, Direction::South);
    let west = south.0.linking(south.1, x, y, height, requested, Direction::West);
    lemma_link(edit, south.0, south.1, x, y, height, requested, Direction::West);
    let east = west.0.linking(west.1, x, y, height, requested, Direction::East);
    lemma_link(edit, west.0, west.1, x, y, height, requested, Direction::East);
    assert(east.0.column(x, y) == edit.column(x, y)) by {
        assert(north.0.column(x, y) == start.column(x, y));
        assert(south.0.column(x, y) == north.0.column(x, y));
        assert(west.0.column(x, y) == south.0.column(x, y));
        assert(east.0.column(x, y) == west.0.column(x, y));
    }
    let after = edit.setting(target, requested);
    if east.0.column(x, y)[layer].nswe != east.1 {
        lemma_masking_elsewhere(east.0, x, y, layer, east.1);
        edit.lemma_shape_chain(east.0, after);
    }
    assert(after.column(x, y)[layer].nswe == east.1);
    assert forall|direction: Direction| #[trigger]
        is_open(after.column(x, y)[layer].nswe, direction) == (is_open(requested, direction)
        && passable(edit, x, y, height, direction)) by {
        match direction {
            Direction::North => {
                assert(is_open(east.1, direction) == is_open(west.1, direction));
                assert(is_open(west.1, direction) == is_open(south.1, direction));
                assert(is_open(south.1, direction) == is_open(north.1, direction));
            },
            Direction::South => {
                assert(is_open(north.1, direction) == is_open(requested, direction));
                assert(is_open(east.1, direction) == is_open(west.1, direction));
                assert(is_open(west.1, direction) == is_open(south.1, direction));
            },
            Direction::West => {
                assert(is_open(north.1, direction) == is_open(requested, direction));
                assert(is_open(south.1, direction) == is_open(north.1, direction));
                assert(is_open(east.1, direction) == is_open(west.1, direction));
            },
            Direction::East => {
                assert(is_open(north.1, direction) == is_open(requested, direction));
                assert(is_open(south.1, direction) == is_open(north.1, direction));
                assert(is_open(west.1, direction) == is_open(south.1, direction));
            },
        }
    }
    assert forall|direction: Direction| #[trigger]
        agrees(edit, after, x, y, height, requested, direction) by {
        if let Some((u, v)) = grid::next_cell(x, y, direction) {
            assert(after.column(u, v) == east.0.column(u, v));
            match direction {
                Direction::North => {
                    assert(agrees(edit, north.0, x, y, height, requested, direction));
                    assert(south.0.column(u, v) == north.0.column(u, v));
                    assert(west.0.column(u, v) == south.0.column(u, v));
                    assert(east.0.column(u, v) == west.0.column(u, v));
                },
                Direction::South => {
                    assert(agrees(edit, south.0, x, y, height, requested, direction));
                    assert(west.0.column(u, v) == south.0.column(u, v));
                    assert(east.0.column(u, v) == west.0.column(u, v));
                },
                Direction::West => {
                    assert(agrees(edit, west.0, x, y, height, requested, direction));
                    assert(east.0.column(u, v) == west.0.column(u, v));
                },
                Direction::East => {
                    assert(agrees(edit, east.0, x, y, height, requested, direction));
                },
            }
        }
    }
    assert forall|u: int, v: int|
        grid::on_map(u, v) && !(u == x && v == y) && (forall|direction: Direction|
            #[trigger] grid::next_cell(x, y, direction) != Some((u, v))) implies (
    #[trigger] after.column(u, v)) == edit.column(u, v) by {
        assert(grid::next_cell(x, y, Direction::North) != Some((u, v)));
        assert(grid::next_cell(x, y, Direction::South) != Some((u, v)));
        assert(grid::next_cell(x, y, Direction::West) != Some((u, v)));
        assert(grid::next_cell(x, y, Direction::East) != Some((u, v)));
        assert(after.column(u, v) == east.0.column(u, v));
        assert(east.0.column(u, v) == west.0.column(u, v));
        assert(west.0.column(u, v) == south.0.column(u, v));
        assert(south.0.column(u, v) == north.0.column(u, v));
        assert(north.0.column(u, v) == start.column(u, v));
    }
}

/// Links are symmetric: after a mask edit of a layer, each of its sides is open
/// exactly where that was asked for and leads to a layer within the climb limit,
/// and then the side of that layer that faces back is open too. A side that was
/// closed is closed from the other side as well.
pub proof fn mask_edit_is_symmetric(
    edit: EditModel,
    target: LayerAddress,
    requested: u8,
    direction: Direction,
)
    requires
        edit.sound(),
        grid::on_map(target.x as int, target.y as int),
        target.layer < edit.column(target.x as int, target.y as int).len(),
    ensures
        ({
            let x = target.x as int;
            let y = target.y as int;
            let height = edit.column(x, y)[target.layer as int].height;
            let after = edit.setting(target, requested);
            &&& is_open(after.column(x, y)[target.layer as int].nswe, direction) == (is_open(
                requested,
                direction,
            ) && passable(edit, x, y, height, direction))
            &&& agrees(edit, after, x, y, height, requested, direction)
        }),
{
    lemma_setting(edit, target, requested);
    let x = target.x as int;
    let y = target.y as int;
    let height = edit.column(x, y)[target.layer as int].height;
    let after = edit.setting(target, requested);
    assert(agrees(edit, after, x, y, height, requested, direction));
    assert(is_open(after.column(x, y)[target.layer as int].nswe, direction) == (is_open(
        requested,
        direction,
    ) && passable(edit, x, y, height, direction)));
}

/// A mask edit of a layer changes nothing but masks, and only those of the
/// layer itself and of the four cells around it.
pub proof fn mask_edit_is_local(edit: EditModel, target: LayerAddress, requested: u8, u: int, v: int)
    requires
        edit.sound(),
        grid::on_map(u, v),
        !(target.x == u && target.y == v),
        forall|direction: Direction|
            #[trigger] grid::next_cell(target.x as int, target.y as int, direction) != Some((u, v)),
    ensures
        edit.setting(target, requested).column(u, v) == edit.column(u, v),
{
    if grid::on_map(target.x as int, target.y as int) && target.layer < edit.column(
        target.x as int,
        target.y as int,
    ).len() {
        lemma_setting(edit, target, requested);
        assert(edit.setting(target, requested).column(u, v) == edit.column(u, v));
    }
}

/// Mask edits change no height and no number of layers, anywhere.
pub proof fn mask_edits_keep_heights(
    edit: EditModel,
    targets: Seq<LayerAddress>,
    requested: u8,
    count: nat,
)
    requires
        edit.sound(),
        count <= targets.len(),
    ensures
        edit.setting_all(targets, requested, count).sound(),
        edit.same_shape(edit.setting_all(targets, requested, count)),
    decreases count,
{
    if count > 0 {
        let fewer = (count - 1) as nat;
        mask_edits_keep_heights(edit, targets, requested, fewer);
        let middle = edit.setting_all(targets, requested, fewer);
        let target = targets[count - 1];
        if grid::on_map(target.x as int, target.y as int) && target.layer < middle.column(
            target.x as int,
            target.y as int,
        ).len() {
            lemma_setting(middle, target, requested);
        }
        edit.lemma_shape_chain(middle, middle.setting(target, requested));
    }
}

proof fn lemma_facing(
    start: EditModel,
    edit: EditModel,
    x: int,
    y: int,
    height: i16,
    requested: u8,
    direction: Direction,
)
    requires
        start.sound(),
        edit.sound(),
        start.same_shape(edit),
        grid::on_map(x, y),
    ensures
        ({
            let after = edit.facing(x, y, height, requested, direction);
            &&& after.sound()
            &&& start.same_shape(after)
            &&& forall|u: int, v: int|
                grid::on_map(u, v) && grid::next_cell(x, y, direction) != Some((u, v)) ==> (
                #[trigger] after.column(u, v)) == edit.column(u, v)
            &&& mirrors(start, after, x, y, height, requested, direction)
        }),
{
    let after = edit.facing(x, y, height, requested, direction);
    if let Some((nx, ny)) = grid::next_cell(x, y, direction) {
        grid::lemma_location(nx, ny);
        let there = edit.column(nx, ny);
        let first = start.column(nx, ny);
        assert(there.len() == first.len());
        assert forall|l: int| 0 <= l < first.len() implies (#[trigger] first[l]).height
            == there[l].height by {
            let b = grid::block_of(nx, ny);
            let c = grid::column_of(nx, ny);
            assert(edit.blocks[b].columns[c][l].height == start.blocks[b].columns[c][l].height);
        }
        lemma_nearest_by_height(first, there, height);
        if let Some(layer) = edits::nearest(there, height) {
            lemma_mirroring(
                edit,
                nx,
                ny,
                layer,
                direction.reverse().mask(),
                requested & direction.mask() != 0,
            );
        }
    }
    start.lemma_shape_chain(edit, after);
}

/// The nearest layer next to a cell faces back as asked.
pub open spec fn mirrors(
    before: EditModel,
    after: EditModel,
    x: int,
    y: int,
    height: i16,
    requested: u8,
    direction: Direction,
) -> bool {
    match grid::next_cell(x, y, direction) {
        None => true,
        Some((nx, ny)) => match edits::nearest(before.column(nx, ny), height) {
            None => true,
            Some(layer) => is_open(after.column(nx, ny)[layer].nswe, direction.reverse())
                == is_open(requested, direction),
        },
    }
}

/// An override keeps the mask exactly as asked, at the edge of the map and
/// beside steps beyond the climb limit too, and mirrors each side in the
/// nearest layer next to it.
pub proof fn override_keeps_all_sides(
    edit: EditModel,
    target: LayerAddress,
    requested: u8,
    direction: Direction,
)
    requires
        edit.sound(),
        grid::on_map(target.x as int, target.y as int),
        target.layer < edit.column(target.x as int, target.y as int).len(),
        edit.column(target.x as int, target.y as int)[target.layer as int].height != NULL_HEIGHT,
    ensures
        ({
            let x = target.x as int;
            let y = target.y as int;
            let height = edit.column(x, y)[target.layer as int].height;
            let after = edit.forcing(target, requested);
            &&& after.column(x, y)[target.layer as int].nswe == requested
            &&& mirrors(edit, after, x, y, height, requested, direction)
            &&& edit.same_shape(after)
        }),
{
    let x = target.x as int;
    let y = target.y as int;
    let layer = target.layer as int;
    let height = edit.column(x, y)[layer].height;
    grid::lemma_location(x, y);
    let set = edit.finishing(x, y, layer, requested);
    if edit.column(x, y)[layer].nswe != requested {
        lemma_masking_elsewhere(edit, x, y, layer, requested);
    }
    assert(edit.same_shape(set));
    let north = set.facing(x, y, height, requested, Direction::North);
    lemma_facing(edit, set, x, y, height, requested, Direction::North);
    let south = north.facing(x, y, height, requested, Direction::South);
    lemma_facing(edit, north, x, y, height, requested, Direction::South);
    let west = south.facing(x, y, height, requested, Direction::West);
    lemma_facing(edit, south, x, y, height, requested, Direction::West);
    let east = west.facing(x, y, height, requested, Direction::East);
    lemma_facing(edit, west, x, y, height, requested, Direction::East);
    assert(north.column(x, y) == set.column(x, y));
    assert(south.column(x, y) == north.column(x, y));
    assert(west.column(x, y) == south.column(x, y));
    assert(east.column(x, y) == west.column(x, y));
    if let Some((u, v)) = grid::next_cell(x, y, direction) {
        match direction {
            Direction::North => {
                assert(south.column(u, v) == north.column(u, v));
                assert(west.column(u, v) == south.column(u, v));
                assert(east.column(u, v) == west.column(u, v));
            },
            Direction::South => {
                assert(west.column(u, v) == south.column(u, v));
                assert(east.column(u, v) == west.column(u, v));
            },
            Direction::West => {
                assert(east.column(u, v) == west.column(u, v));
            },
            Direction::East => {},
        }
    }
}

/// Height edits leave every cell alone that was not asked for.
pub proof fn height_edit_is_local(edit: EditModel, target: LayerAddress, height: i16, u: int, v: int)
    requires
        edit.sound(),
        grid::on_map(u, v),
        !(target.x == u && target.y == v),
    ensures
        edit.raising(target, height).column(u, v) == edit.column(u, v),
{
    let x = target.x as int;
    let y = target.y as int;
    grid::lemma_location(u, v);
    if grid::on_map(x, y) {
        grid::lemma_location(x, y);
        if grid::block_of(u, v) == grid::block_of(x, y) && grid::column_of(u, v)
            == grid::column_of(x, y) {
            grid::lemma_location_is_unique(x, y, u, v);
        }
    }
}

/// A normalized height is a whole number of steps, no farther from zero than
/// the value asked for and less than a step away from it.
pub proof fn normalized_height_is_stored(value: int)
    ensures
        edits::normalized(value) % 8 == 0,
        value >= 0 ==> 0 <= edits::normalized(value) <= value < edits::normalized(value) + 8,
        value <= 0 ==> edits::normalized(value) - 8 < value <= edits::normalized(value) <= 0,
        edits::normalized(edits::normalized(value)) == edits::normalized(value),
{
}

/// A conversion changes the kind of a block and none of its cells, and where
/// it succeeded, converting back gives the block that it started from.
pub proof fn conversion_keeps_cells(block: BlockModel, target: EditableBlockType)
    requires
        block.valid(),
        edits::converted(block, target) is Ok,
    ensures
        edits::converted(block, target)->Ok_0.columns == block.columns,
        edits::converted(block, target)->Ok_0.kind == target,
        edits::converted(edits::converted(block, target)->Ok_0, block.kind) == Converted::Ok(block),
{
    let there = edits::converted(block, target)->Ok_0;
    assert(there.columns == block.columns);
    if block.kind == EditableBlockType::Complex && target == EditableBlockType::Simple {
        assert(there.with_kind(EditableBlockType::Complex) =~= block);
    }
    assert(there.with_kind(block.kind) =~= block);
    if block.kind == EditableBlockType::Multilayer && target == EditableBlockType::Simple {
        assert(edits::converted(there, EditableBlockType::Multilayer) == Converted::Ok(
            there.with_kind(EditableBlockType::Multilayer),
        ));
    }
}

/// A restored block is the opened one again.
pub proof fn restored_block_is_clean(model: DocumentModel, index: int)
    requires
        model.valid(),
        0 <= index < 65_536,
    ensures
        !model.edited(
            model.blocks.update(index, model.placed[index].block),
            "Restaurar bloco"@,
        ).dirty(index),
{
}

} // verus!
