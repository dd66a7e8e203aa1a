//! Links between cells, told by heights and sides: where an edit of masks opens
//! a way, and what it does to the layers on the other side.

use vstd::prelude::*;

use crate::l2j::block::{Direction, Layer, LayerAddress};
use crate::l2j::document::edit_laws;
use crate::l2j::document::edits;
use crate::l2j::document::edits::EditModel;
use crate::l2j::grid;

verus! {

/// The bit of a side: north 8, south 4, west 2, east 1.
pub open spec fn side(direction: Direction) -> u8 {
    match direction {
        Direction::North => 8,
        Direction::South => 4,
        Direction::West => 2,
        Direction::East => 1,
    }
}

/// The bit of the side that faces back.
pub open spec fn facing_side(direction: Direction) -> u8 {
    match direction {
        Direction::North => 4,
        Direction::South => 8,
        Direction::West => 1,
        Direction::East => 2,
    }
}

/// The cell behind a side. North is towards lower rows, west towards lower
/// columns.
pub open spec fn behind(x: int, y: int, direction: Direction) -> (int, int) {
    match direction {
        Direction::North => (x, y - 1),
        Direction::South => (x, y + 1),
        Direction::West => (x - 1, y),
        Direction::East => (x + 1, y),
    }
}

pub open spec fn on_the_map(cell: (int, int)) -> bool {
    0 <= cell.0 <= 2_047 && 0 <= cell.1 <= 2_047
}

/// A layer that is no sentinel lies at most 16 units above or below a height.
pub open spec fn in_climb(layer: Layer, height: i16) -> bool {
    layer.height != -16_384 && -16 <= layer.height - height <= 16
}

/// Some layer of a column can be climbed to.
pub open spec fn climbable(column: Seq<Layer>, height: i16) -> bool {
    exists|l: int| 0 <= l < column.len() && in_climb(#[trigger] column[l], height)
}

/// Of the layers that are no sentinels none is nearer to a height, and none
/// before this one as near.
pub open spec fn closest(column: Seq<Layer>, height: i16, l: int) -> bool {
    &&& 0 <= l < column.len()
    &&& column[l].height != -16_384
    &&& forall|j: int|
        0 <= j < column.len() && (#[trigger] column[j]).height != -16_384 && column[j].height
            - height >= 0 ==> if j < l {
            -(column[j].height - height) < column[l].height - height < column[j].height - height
        } else {
            -(column[j].height - height) <= column[l].height - height <= column[j].height - height
        }
    &&& forall|j: int|
        0 <= j < column.len() && (#[trigger] column[j]).height != -16_384 && column[j].height
            - height < 0 ==> if j < l {
            column[j].height - height < column[l].height - height < -(column[j].height - height)
        } else {
            column[j].height - height <= column[l].height - height <= -(column[j].height - height)
        }
}

/// A mask with one side opened or closed.
pub open spec fn turned(mask: u8, bit: u8, open: bool) -> u8 {
    if open {
        mask | bit
    } else {
        mask & !bit
    }
}

/// What a linking edit does to the column behind a side: the closest layer, if
/// it can be climbed to, faces back as asked. If none can, closing closes all.
/// Everything else stays.
pub open spec fn linked(
    before: Seq<Layer>,
    after: Seq<Layer>,
    height: i16,
    bit: u8,
    open: bool,
) -> bool {
    &&& after.len() == before.len()
    &&& forall|l: int|
        0 <= l < before.len() ==> (#[trigger] after[l]).height == before[l].height && after[l].nswe
            == if (closest(before, height, l) && in_climb(before[l], height)) || (!open
            && !climbable(before, height)) {
            turned(before[l].nswe, bit, open)
        } else {
            before[l].nswe
        }
}

/// What an override does to the column behind a side: the closest layer faces
/// back as asked, however far it is. Everything else stays.
pub open spec fn forced(
    before: Seq<Layer>,
    after: Seq<Layer>,
    height: i16,
    bit: u8,
    open: bool,
) -> bool {
    &&& after.len() == before.len()
    &&& forall|l: int|
        0 <= l < before.len() ==> (#[trigger] after[l]).height == before[l].height && after[l].nswe
            == if closest(before, height, l) {
            turned(before[l].nswe, bit, open)
        } else {
            before[l].nswe
        }
}

proof fn lemma_closest(column: Seq<Layer>, height: i16, l: int)
    ensures
        closest(column, height, l) == edits::is_nearest(column, height, l),
{
    if edits::is_nearest(column, height, l) {
        assert(closest(column, height, l));
    }
    if closest(column, height, l) {
        assert forall|j: int|
            0 <= j < column.len() && (#[trigger] column[j]).height
                != crate::l2j::block::NULL_HEIGHT implies edits::distance(column[l].height, height)
            <= edits::distance(column[j].height, height) && (j < l ==> edits::distance(
            column[l].height,
            height,
        ) < edits::distance(column[j].height, height)) by {}
        assert(edits::is_nearest(column, height, l));
    }
}

/// The closest of the first layers, where one of them is no sentinel.
proof fn lemma_closest_exists(column: Seq<Layer>, height: i16, count: int) -> (l: int)
    requires
        0 <= count <= column.len(),
        exists|j: int| 0 <= j < count && (#[trigger] column[j]).height != -16_384,
    ensures
        closest(column.take(count), height, l),
    decreases count,
{
    let fewer = column.take(count - 1);
    let all = column.take(count);
    let last = count - 1;
    if exists|j: int| 0 <= j < count - 1 && (#[trigger] column[j]).height != -16_384 {
        let best = lemma_closest_exists(column, height, count - 1);
        if column[last].height != -16_384 && edits::distance(column[last].height, height)
            < edits::distance(column[best].height, height) {
            assert forall|j: int| 0 <= j < fewer.len() && (#[trigger] all[j]).height
                != -16_384 implies edits::distance(all[last].height, height) < edits::distance(
                all[j].height,
                height,
            ) by {
                assert(fewer[j] == all[j]);
            }
            assert(edits::is_nearest(all, height, last));
            lemma_closest(all, height, last);
            last
        } else {
            lemma_closest(fewer, height, best);
            assert forall|j: int| 0 <= j < all.len() && (#[trigger] all[j]).height
                != -16_384 implies edits::distance(all[best].height, height) <= edits::distance(
                all[j].height,
                height,
            ) && (j < best ==> edits::distance(all[best].height, height) < edits::distance(
                all[j].height,
                height,
            )) by {
                if j < last {
                    assert(fewer[j] == all[j]);
                }
            }
            assert(edits::is_nearest(all, height, best));
            lemma_closest(all, height, best);
            best
        }
    } else {
        assert(edits::is_nearest(all, height, last));
        lemma_closest(all, height, last);
        last
    }
}

/// The layer that is chosen, told by heights.
pub proof fn lemma_chosen(column: Seq<Layer>, height: i16)
    ensures
        match edits::compatible(column, height) {
            Some(l) => closest(column, height, l) && in_climb(column[l], height) && climbable(
                column,
                height,
            ) && forall|k: int| #[trigger] closest(column, height, k) ==> k == l,
            None => !climbable(column, height),
        },
        match edits::nearest(column, height) {
            Some(l) => closest(column, height, l) && forall|k: int| #[trigger]
                closest(column, height, k) ==> k == l,
            None => forall|k: int| !#[trigger] closest(column, height, k),
        },
{
    assert forall|k: int| #[trigger] closest(column, height, k) implies edits::nearest(
        column,
        height,
    ) == Some(k) by {
        lemma_closest(column, height, k);
        edits::lemma_nearest(column, height, k);
    }
    if let Some(l) = edits::nearest(column, height) {
        assert(edits::is_nearest(column, height, l));
        lemma_closest(column, height, l);
    }
    if climbable(column, height) {
        let l = choose|l: int| 0 <= l < column.len() && in_climb(#[trigger] column[l], height);
        let best = lemma_closest_exists(column, height, column.len() as int);
        assert(column.take(column.len() as int) =~= column);
        assert(closest(column, height, best));
        lemma_closest(column, height, best);
        assert(edits::distance(column[best].height, height) <= edits::distance(
            column[l].height,
            height,
        ));
    }
}

pub proof fn lemma_sides(direction: Direction)
    ensures
        direction.mask() == side(direction),
        direction.reverse().mask() == facing_side(direction),
        side(direction) == 1 || side(direction) == 2 || side(direction) == 4 || side(direction)
            == 8,
        facing_side(direction) == 1 || facing_side(direction) == 2 || facing_side(direction) == 4
            || facing_side(direction) == 8,
{
}

pub proof fn lemma_neighbour(x: int, y: int, direction: Direction)
    requires
        grid::on_map(x, y),
    ensures
        grid::next_cell(x, y, direction) == if on_the_map(behind(x, y, direction)) {
            Some(behind(x, y, direction))
        } else {
            None
        },
{
}

pub proof fn lemma_mirrored(edit: EditModel, x: int, y: int, layer: int, bit: u8, open: bool)
    requires
        edit.sound(),
        grid::on_map(x, y),
        0 <= layer < edit.column(x, y).len(),
    ensures
        ({
            let after = edit.mirroring(x, y, layer, bit, open);
            let old = edit.column(x, y)[layer];
            &&& after.sound()
            &&& edit_laws::same_elsewhere(edit, after, x, y)
            &&& after.column(x, y) == edit.column(x, y).update(
                layer,
                Layer { height: old.height, nswe: turned(old.nswe, bit, open) },
            )
        }),
{
    let old = edit.column(x, y)[layer];
    let new = turned(old.nswe, bit, open);
    if old.nswe == new {
        assert(edit.column(x, y).update(layer, Layer { height: old.height, nswe: new })
            =~= edit.column(x, y));
    } else {
        edit_laws::lemma_masking_elsewhere(edit, x, y, layer, new);
    }
}

pub proof fn lemma_closed(edit: EditModel, x: int, y: int, bit: u8, layers: nat)
    requires
        edit.sound(),
        grid::on_map(x, y),
        layers <= edit.column(x, y).len(),
    ensures
        ({
            let after = edit.closing(x, y, bit, layers);
            &&& after.sound()
            &&& edit_laws::same_elsewhere(edit, after, x, y)
            &&& after.column(x, y).len() == edit.column(x, y).len()
            &&& forall|l: int|
                0 <= l < edit.column(x, y).len() ==> (#[trigger] after.column(x, y)[l]).height
                    == edit.column(x, y)[l].height && after.column(x, y)[l].nswe == if l < layers {
                    edit.column(x, y)[l].nswe & !bit
                } else {
                    edit.column(x, y)[l].nswe
                }
        }),
    decreases layers,
{
    if layers > 0 {
        let fewer = (layers - 1) as nat;
        lemma_closed(edit, x, y, bit, fewer);
        let middle = edit.closing(x, y, bit, fewer);
        lemma_mirrored(middle, x, y, layers - 1, bit, false);
        let after = edit.closing(x, y, bit, layers);
        assert forall|u: int, v: int|
            grid::on_map(u, v) && !(u == x && v == y) implies #[trigger] after.column(u, v)
            == edit.column(u, v) by {
            assert(middle.column(u, v) == edit.column(u, v));
        }
    }
}

/// What one side of a linking edit does.
pub open spec fn side_linked(
    before: EditModel,
    after: EditModel,
    x: int,
    y: int,
    height: i16,
    requested: u8,
    direction: Direction,
) -> bool {
    let (u, v) = behind(x, y, direction);
    on_the_map((u, v)) ==> linked(
        before.column(u, v),
        after.column(u, v),
        height,
        facing_side(direction),
        requested & side(direction) != 0,
    )
}

pub proof fn lemma_one_link(
    edit: EditModel,
    mask: u8,
    x: int,
    y: int,
    height: i16,
    requested: u8,
    direction: Direction,
)
    requires
        edit.sound(),
        grid::on_map(x, y),
    ensures
        ({
            let after = edit.linking(mask, x, y, height, requested, direction).0;
            &&& after.sound()
            &&& side_linked(edit, after, x, y, height, requested, direction)
            &&& forall|u: int, v: int|
                grid::on_map(u, v) && behind(x, y, direction) != (u, v) ==> #[trigger] after.column(
                    u,
                    v,
                ) == edit.column(u, v)
        }),
{
    reveal(EditModel::linking);
    lemma_sides(direction);
    lemma_neighbour(x, y, direction);
    let (u, v) = behind(x, y, direction);
    let wants_open = requested & direction.mask() != 0;
    if on_the_map((u, v)) {
        let column = edit.column(u, v);
        lemma_chosen(column, height);
        match edits::compatible(column, height) {
            Some(layer) => {
                lemma_mirrored(edit, u, v, layer, facing_side(direction), wants_open);
            },
            None => {
                if !wants_open {
                    lemma_closed(edit, u, v, facing_side(direction), column.len());
                }
                assert forall|l: int| 0 <= l < column.len() implies !in_climb(
                    #[trigger] column[l],
                    height,
                ) by {}
            },
        }
    }
}

/// A mask edit opens a side exactly where that was asked for and the cell behind
/// it, on the map, has a layer at most 16 units above or below. The layer closest
/// in height, if it is that close, then faces back as asked. A side that is
/// closed where no layer is that close is closed in every layer behind it.
/// Nothing else changes behind the sides.
pub proof fn links_lead_to_climbable_layers(
    edit: EditModel,
    target: LayerAddress,
    requested: u8,
    direction: Direction,
)
    requires
        edit.sound(),
        target.x < 2_048,
        target.y < 2_048,
        target.layer < edit.column(target.x as int, target.y as int).len(),
    ensures
        ({
            let after = edit.setting(target, requested);
            let x = target.x as int;
            let y = target.y as int;
            let layer = target.layer as int;
            let height = edit.column(x, y)[layer].height;
            let (u, v) = behind(x, y, direction);
            &&& (after.column(x, y)[layer].nswe & side(direction) != 0) == (requested & side(
                direction,
            ) != 0 && on_the_map((u, v)) && climbable(edit.column(u, v), height))
            &&& after.column(x, y)[layer].height == height
            &&& on_the_map((u, v)) ==> linked(
                edit.column(u, v),
                after.column(u, v),
                height,
                facing_side(direction),
                requested & side(direction) != 0,
            )
        }),
{
    let x = target.x as int;
    let y = target.y as int;
    let layer = target.layer as int;
    let height = edit.column(x, y)[layer].height;
    let after = edit.setting(target, requested);
    grid::lemma_location(x, y);
    edit_laws::lemma_setting(edit, target, requested);
    lemma_sides(direction);
    lemma_neighbour(x, y, direction);
    assert(edit_laws::is_open(after.column(x, y)[layer].nswe, direction) == (edit_laws::is_open(
        requested,
        direction,
    ) && edit_laws::passable(edit, x, y, height, direction)));
    let (u, v) = behind(x, y, direction);
    if on_the_map((u, v)) {
        lemma_chosen(edit.column(u, v), height);
    }
    let start = edit.touching(grid::block_of(x, y));
    assert(start.sound());
    assert forall|s: int, t: int| grid::on_map(s, t) implies #[trigger] start.column(s, t)
        == edit.column(s, t) by {
        grid::lemma_location(s, t);
    }
    let north = start.linking(requested, x, y, height, requested, Direction::North);
    lemma_one_link(start, requested, x, y, height, requested, Direction::North);
    let south = north.0.linking(north.1, x, y, height, requested, Direction::South);
    lemma_one_link(north.0, north.1, x, y, height, requested, Direction::South);
    let west = south.0.linking(south.1, x, y, height, requested, Direction::West);
    lemma_one_link(south.0, south.1, x, y, height, requested, Direction::West);
    let east = west.0.linking(west.1, x, y, height, requested, Direction::East);
    lemma_one_link(west.0, west.1, x, y, height, requested, Direction::East);
    assert(east.0.column(x, y) == edit.column(x, y)) by {
        assert(north.0.column(x, y) == start.column(x, y));
        assert(south.0.column(x, y) == north.0.column(x, y));
        assert(west.0.column(x, y) == south.0.column(x, y));
        assert(east.0.column(x, y) == west.0.column(x, y));
    }
    if east.0.column(x, y)[layer].nswe != east.1 {
        edit_laws::lemma_masking_elsewhere(east.0, x, y, layer, east.1);
    }
    if on_the_map((u, v)) {
        assert(after.column(u, v) == east.0.column(u, v));
        assert(start.column(u, v) == edit.column(u, v));
        match direction {
            Direction::North => {
                assert(south.0.column(u, v) == north.0.column(u, v));
                assert(west.0.column(u, v) == south.0.column(u, v));
                assert(east.0.column(u, v) == west.0.column(u, v));
            },
            Direction::South => {
                assert(north.0.column(u, v) == start.column(u, v));
                assert(west.0.column(u, v) == south.0.column(u, v));
                assert(east.0.column(u, v) == west.0.column(u, v));
            },
            Direction::West => {
                assert(north.0.column(u, v) == start.column(u, v));
                assert(south.0.column(u, v) == north.0.column(u, v));
                assert(east.0.column(u, v) == west.0.column(u, v));
            },
            Direction::East => {
                assert(north.0.column(u, v) == start.column(u, v));
                assert(south.0.column(u, v) == north.0.column(u, v));
                assert(west.0.column(u, v) == south.0.column(u, v));
            },
        }
    }
}

/// After mask edits of some layers, every open side of the last of them leads to
/// a layer at most 16 units above or below it, and a side behind which every
/// layer is farther up or down is closed, whatever was asked for.
pub proof fn open_sides_can_be_climbed(
    edit: EditModel,
    targets: Seq<LayerAddress>,
    requested: u8,
    direction: Direction,
)
    requires
        edit.sound(),
        targets.len() > 0,
        targets.last().x < 2_048,
        targets.last().y < 2_048,
        targets.last().layer < edit.column(
            targets.last().x as int,
            targets.last().y as int,
        ).len(),
    ensures
        ({
            let after = edit.setting_all(targets, requested, targets.len());
            let target = targets.last();
            let layer = after.column(target.x as int, target.y as int)[target.layer as int];
            let (u, v) = behind(target.x as int, target.y as int, direction);
            &&& layer.nswe & side(direction) != 0 ==> requested & side(direction) != 0
                && on_the_map((u, v)) && exists|l: int|
                0 <= l < after.column(u, v).len() && in_climb(
                    #[trigger] after.column(u, v)[l],
                    layer.height,
                )
            &&& on_the_map((u, v)) && (forall|l: int|
                0 <= l < after.column(u, v).len() ==> (#[trigger] after.column(u, v)[l]).height
                    == -16_384 || after.column(u, v)[l].height > layer.height + 16
                    || after.column(u, v)[l].height < layer.height - 16) ==> layer.nswe & side(
                direction,
            ) == 0
        }),
{
    let fewer = (targets.len() - 1) as nat;
    let middle = edit.setting_all(targets, requested, fewer);
    edit_laws::mask_edits_keep_heights(edit, targets, requested, fewer);
    let target = targets.last();
    let x = target.x as int;
    let y = target.y as int;
    grid::lemma_location(x, y);
    assert(middle.blocks[grid::block_of(x, y)].columns[grid::column_of(x, y)].len()
        == edit.blocks[grid::block_of(x, y)].columns[grid::column_of(x, y)].len());
    links_lead_to_climbable_layers(middle, target, requested, direction);
    let after = edit.setting_all(targets, requested, targets.len());
    let (u, v) = behind(x, y, direction);
    if on_the_map((u, v)) && after.column(x, y)[target.layer as int].nswe & side(direction) != 0 {
        let height = after.column(x, y)[target.layer as int].height;
        let l = choose|l: int|
            0 <= l < middle.column(u, v).len() && in_climb(
                #[trigger] middle.column(u, v)[l],
                height,
            );
        assert(in_climb(after.column(u, v)[l], height));
    }
}

proof fn lemma_one_face(
    edit: EditModel,
    x: int,
    y: int,
    height: i16,
    requested: u8,
    direction: Direction,
)
    requires
        edit.sound(),
        grid::on_map(x, y),
    ensures
        ({
            let after = edit.facing(x, y, height, requested, direction);
            let (s, t) = behind(x, y, direction);
            &&& after.sound()
            &&& on_the_map((s, t)) ==> forced(
                edit.column(s, t),
                after.column(s, t),
                height,
                facing_side(direction),
                requested & side(direction) != 0,
            )
            &&& forall|u: int, v: int|
                grid::on_map(u, v) && behind(x, y, direction) != (u, v) ==> #[trigger] after.column(
                    u,
                    v,
                ) == edit.column(u, v)
        }),
{
    lemma_sides(direction);
    lemma_neighbour(x, y, direction);
    let (u, v) = behind(x, y, direction);
    if on_the_map((u, v)) {
        let column = edit.column(u, v);
        lemma_chosen(column, height);
        if let Some(layer) = edits::nearest(column, height) {
            lemma_mirrored(
                edit,
                u,
                v,
                layer,
                facing_side(direction),
                requested & direction.mask() != 0,
            );
        }
    }
}

/// An override gives a layer the very mask that was asked for, and on each side
/// the layer closest in height faces back as asked, however far up or down it
/// is. Sentinels stay as they are, and nothing else changes behind the sides.
pub proof fn overrides_face_the_closest_layer(
    edit: EditModel,
    target: LayerAddress,
    requested: u8,
    direction: Direction,
)
    requires
        edit.sound(),
        target.x < 2_048,
        target.y < 2_048,
        target.layer < edit.column(target.x as int, target.y as int).len(),
    ensures
        ({
            let after = edit.forcing(target, requested);
            let x = target.x as int;
            let y = target.y as int;
            let old = edit.column(x, y)[target.layer as int];
            let (u, v) = behind(x, y, direction);
            if old.height == -16_384 {
                after.blocks == edit.blocks
            } else {
                &&& after.column(x, y) == edit.column(x, y).update(
                    target.layer as int,
                    Layer { height: old.height, nswe: requested },
                )
                &&& on_the_map((u, v)) ==> forced(
                    edit.column(u, v),
                    after.column(u, v),
                    old.height,
                    facing_side(direction),
                    requested & side(direction) != 0,
                )
            }
        }),
{
    let x = target.x as int;
    let y = target.y as int;
    let layer = target.layer as int;
    let old = edit.column(x, y)[layer];
    let height = old.height;
    grid::lemma_location(x, y);
    if height != -16_384 {
        let set = edit.finishing(x, y, layer, requested);
        if old.nswe != requested {
            edit_laws::lemma_masking_elsewhere(edit, x, y, layer, requested);
        } else {
            assert(edit.column(x, y).update(layer, Layer { height, nswe: requested })
                =~= edit.column(x, y));
        }
        assert(set.sound());
        let north = set.facing(x, y, height, requested, Direction::North);
        lemma_one_face(set, x, y, height, requested, Direction::North);
        let south = north.facing(x, y, height, requested, Direction::South);
        lemma_one_face(north, x, y, height, requested, Direction::South);
        let west = south.facing(x, y, height, requested, Direction::West);
        lemma_one_face(south, x, y, height, requested, Direction::West);
        let east = west.facing(x, y, height, requested, Direction::East);
        lemma_one_face(west, x, y, height, requested, Direction::East);
        assert(north.column(x, y) == set.column(x, y));
        assert(south.column(x, y) == north.column(x, y));
        assert(west.column(x, y) == south.column(x, y));
        assert(east.column(x, y) == west.column(x, y));
        let (u, v) = behind(x, y, direction);
        if on_the_map((u, v)) {
            assert(set.column(u, v) == edit.column(u, v));
            match direction {
                Direction::North => {
                    assert(south.column(u, v) == north.column(u, v));
                    assert(west.column(u, v) == south.column(u, v));
                    assert(east.column(u, v) == west.column(u, v));
                },
                Direction::South => {
                    assert(north.column(u, v) == set.column(u, v));
                    assert(west.column(u, v) == south.column(u, v));
                    assert(east.column(u, v) == west.column(u, v));
                },
                Direction::West => {
                    assert(north.column(u, v) == set.column(u, v));
                    assert(south.column(u, v) == north.column(u, v));
                    assert(east.column(u, v) == west.column(u, v));
                },
                Direction::East => {
                    assert(north.column(u, v) == set.column(u, v));
                    assert(south.column(u, v) == north.column(u, v));
                    assert(west.column(u, v) == south.column(u, v));
                },
            }
        }
    }
}

} // verus!
