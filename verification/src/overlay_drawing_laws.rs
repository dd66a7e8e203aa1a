//! What is seen of the map: which layers are drawn, where, and in which colour.

use vstd::prelude::*;

use crate::l2j::block::{EditableBlockType, Layer, LayerAddress};
use crate::l2j::document::DocumentModel;
use crate::l2j::grid;
use crate::overlay;
use crate::overlay::LookupModel;
use crate::overlay_cells;
use crate::overlay_cells::{Footprint, GeodataCell, NsweIconCell, OverlayCell, SnapshotModel};
use crate::selection;
use crate::ui::UiModel;

verus! {

/// Every side of a layer is open.
pub open spec fn wide_open(layer: Layer) -> bool {
    layer.nswe & 15 == 15
}

/// No side of a layer is open.
pub open spec fn shut(layer: Layer) -> bool {
    layer.nswe & 15 == 0
}

/// Colours tell cells apart: layers that are not selected have the same colour
/// exactly if both are open to all sides, both to none, or both to some. The
/// three colours, and that of selected layers, are four.
pub proof fn colours_tell_passability(a: Layer, b: Layer)
    ensures
        (overlay_cells::cell_color(a, false) == overlay_cells::cell_color(b, false)) == (wide_open(
            a,
        ) == wide_open(b) && shut(a) == shut(b)),
        overlay_cells::cell_color(a, true) == overlay_cells::cell_color(b, true),
        overlay_cells::cell_color(a, true) != overlay_cells::cell_color(b, false),
        wide_open(a) ==> overlay_cells::cell_color(a, false) == seq![0u8, 205u8, 230u8, 165u8],
        shut(a) ==> overlay_cells::cell_color(a, false) == seq![235u8, 45u8, 45u8, 230u8],
        !wide_open(a) && !shut(a) ==> overlay_cells::cell_color(a, false) == seq![
            255u8,
            150u8,
            0u8,
            220u8,
        ],
        overlay_cells::cell_color(a, true) == seq![255u8, 235u8, 0u8, 255u8],
{
    let open = seq![0u8, 205u8, 230u8, 165u8];
    let closed = seq![235u8, 45u8, 45u8, 230u8];
    let between = seq![255u8, 150u8, 0u8, 220u8];
    let chosen = seq![255u8, 235u8, 0u8, 255u8];
    assert(open[0] == 0 && closed[0] == 235 && between[0] == 255 && chosen[0] == 255);
    assert(between[1] == 150 && chosen[1] == 235);
}

/// The quad and the glyph of a layer stand at its cell and height. The quad has
/// the colour that [`colours_tell_passability`] speaks of, and the glyph shows
/// the open sides, all of them and no more.
pub proof fn quads_and_glyphs_show_the_layer(
    quad: GeodataCell,
    glyph: NsweIconCell,
    shown: OverlayCell,
)
    requires
        overlay_cells::colours(quad, shown),
        overlay_cells::labels(glyph, shown),
    ensures
        quad.x == shown.x && quad.y == shown.y && quad.height == shown.cell.height,
        glyph.x == quad.x && glyph.y == quad.y && glyph.height == quad.height,
        quad.footprint == shown.footprint && glyph.footprint == shown.footprint,
        glyph.mask == shown.cell.nswe & 15,
        shown.selected ==> quad.color@ == seq![255u8, 235u8, 0u8, 255u8],
        !shown.selected && wide_open(shown.cell) ==> quad.color@ == seq![0u8, 205u8, 230u8, 165u8],
        !shown.selected && shut(shown.cell) ==> quad.color@ == seq![235u8, 45u8, 45u8, 230u8],
        !shown.selected && !wide_open(shown.cell) && !shut(shown.cell) ==> quad.color@ == seq![
            255u8,
            150u8,
            0u8,
            220u8,
        ],
{
    colours_tell_passability(shown.cell, shown.cell);
}

/// Whether a layer is among those that the user chose.
pub open spec fn chosen(ui: UiModel, a: LayerAddress) -> bool {
    !ui.selection_hidden && if ui.selection.len() == 0 {
        a == ui.selected
    } else {
        ui.selection.contains(a)
    }
}

/// The kind of the block that a cell lies in.
pub open spec fn in_kind(model: DocumentModel, x: int, y: int, kind: EditableBlockType) -> bool {
    0 <= x < 2_048 && 0 <= y < 2_048 && model.blocks[y / 8 + 256 * (x / 8)].kind == kind
}

/// How far two numbers are apart at most.
pub open spec fn within(a: int, b: int, distance: int) -> bool {
    a - b <= distance && b - a <= distance
}

/// How coarse open cells are sampled.
pub open spec fn coarseness(ui: UiModel) -> int {
    if ui.visual_stride == 0 {
        1
    } else {
        ui.visual_stride as int
    }
}

/// Whether a chosen layer lies in the square that a sample stands for. Those in
/// simple blocks do not count.
pub open spec fn covers_chosen(model: DocumentModel, ui: UiModel, x: int, y: int, l: int) -> bool {
    exists|a: LayerAddress| #[trigger]
        chosen(ui, a) && x <= a.x < x + coarseness(ui) && a.x < 2_048 && y <= a.y < y + coarseness(
            ui,
        ) && a.y < 2_048 && a.layer == l && !in_kind(
            model,
            a.x as int,
            a.y as int,
            EditableBlockType::Simple,
        )
}

/// Whether a layer outside simple blocks is drawn. Sentinels never are, nor
/// layers other than the visible one if only that is shown. A layer that is open
/// to all sides is drawn only if open ones are not hidden, and then if it was
/// chosen, or if it is a sample near the current cell that stands for no chosen
/// one.
pub open spec fn layer_is_seen(model: DocumentModel, ui: UiModel, a: LayerAddress) -> bool {
    let x = a.x as int;
    let y = a.y as int;
    let layer = model.column(x, y)[a.layer as int];
    &&& layer.height != -16_384
    &&& ui.show_selected_layer_only ==> a.layer == ui.visible_layer
    &&& wide_open(layer) ==> !ui.hide_fully_open_blocks && (chosen(ui, a) || (
    (ui.show_all_open_cells || (within(x, ui.selected.x as int, ui.open_context_radius as int)
        && within(y, ui.selected.y as int, ui.open_context_radius as int))) && x % coarseness(ui)
        == 0 && y % coarseness(ui) == 0 && !covers_chosen(model, ui, x, y, a.layer as int)))
}

/// Whether a simple block is drawn: not if it is a sentinel, if open ones are
/// hidden, or if only another layer is shown; and else if a cell of it was
/// chosen, or if it touches the square around the current cell.
pub open spec fn block_is_seen(model: DocumentModel, ui: UiModel, block_x: int, block_y: int) -> bool {
    &&& model.column(8 * block_x, 8 * block_y)[0].height != -16_384
    &&& !ui.hide_fully_open_blocks
    &&& ui.show_selected_layer_only ==> ui.visible_layer == 0
    &&& block_is_chosen(ui, block_x, block_y) || ui.show_all_open_cells || exists|x: int, y: int|
        8 * block_x <= x < 8 * block_x + 8 && 8 * block_y <= y < 8 * block_y + 8
            && #[trigger] touched(ui, x, y)
}

pub open spec fn touched(ui: UiModel, x: int, y: int) -> bool {
    within(x, ui.selected.x as int, ui.open_context_radius as int) && within(
        y,
        ui.selected.y as int,
        ui.open_context_radius as int,
    )
}

pub open spec fn block_is_chosen(ui: UiModel, block_x: int, block_y: int) -> bool {
    exists|a: LayerAddress| #[trigger]
        chosen(ui, a) && 8 * block_x <= a.x < 8 * block_x + 8 && 8 * block_y <= a.y < 8 * block_y
            + 8
}

/// What is drawn of one block.
pub open spec fn is_seen(
    model: DocumentModel,
    ui: UiModel,
    block_x: int,
    block_y: int,
    shown: OverlayCell,
) -> bool {
    if in_kind(model, 8 * block_x, 8 * block_y, EditableBlockType::Simple) {
        &&& block_is_seen(model, ui, block_x, block_y)
        &&& shown.x == 8 * block_x
        &&& shown.y == 8 * block_y
        &&& shown.cell == model.column(8 * block_x, 8 * block_y)[0]
        &&& shown.footprint == Footprint::Block
        &&& shown.selected == block_is_chosen(ui, block_x, block_y)
    } else {
        exists|a: LayerAddress| #[trigger]
            shows_layer(model, ui, a, shown) && 8 * block_x <= a.x < 8 * block_x + 8 && 8 * block_y
                <= a.y < 8 * block_y + 8
    }
}

/// Whether something drawn is a layer outside simple blocks.
pub open spec fn shows_layer(
    model: DocumentModel,
    ui: UiModel,
    a: LayerAddress,
    shown: OverlayCell,
) -> bool {
    let layer = model.column(a.x as int, a.y as int)[a.layer as int];
    &&& a.layer < model.column(a.x as int, a.y as int).len()
    &&& layer_is_seen(model, ui, a)
    &&& shown.x == a.x
    &&& shown.y == a.y
    &&& shown.cell == layer
    &&& shown.selected == chosen(ui, a)
    &&& shown.footprint == if wide_open(layer) && !chosen(ui, a) {
        Footprint::Sample(coarseness(ui) as usize)
    } else {
        Footprint::Cell
    }
}

proof fn lemma_lookup(
    model: DocumentModel,
    selection: Seq<LayerAddress>,
    count: nat,
    a: LayerAddress,
    number: int,
)
    requires
        count <= selection.len(),
    ensures
        LookupModel::of(model, selection, count).cells.contains(a) == (selection.take(
            count as int,
        ).contains(a) && !overlay::in_simple_block(model, a)),
        LookupModel::of(model, selection, count).simple_blocks.contains(number) == exists|k: int|
            0 <= k < count && overlay::in_simple_block(model, #[trigger] selection[k])
                && grid::block_of(selection[k].x as int, selection[k].y as int) == number,
    decreases count,
{
    if count > 0 {
        let fewer = (count - 1) as nat;
        lemma_lookup(model, selection, fewer, a, number);
        let front = selection.take(fewer as int);
        let whole = selection.take(count as int);
        assert(whole =~= front.push(selection[count - 1]));
        if whole.contains(a) && !front.contains(a) {
            let k = choose|k: int| 0 <= k < whole.len() && whole[k] == a;
            assert(k == count - 1) by {
                if k < fewer {
                    assert(front[k] == a);
                }
            }
        }
        if front.contains(a) {
            let k = choose|k: int| 0 <= k < front.len() && front[k] == a;
            assert(whole[k] == a);
        }
        assert(whole[count - 1] == selection[count - 1]);
        let before = LookupModel::of(model, selection, fewer).simple_blocks;
        if before.contains(number) {
            let k = choose|k: int|
                0 <= k < fewer && overlay::in_simple_block(model, #[trigger] selection[k])
                    && grid::block_of(selection[k].x as int, selection[k].y as int) == number;
            assert(overlay::in_simple_block(model, selection[k]));
        }
        if exists|k: int|
            0 <= k < count && overlay::in_simple_block(model, #[trigger] selection[k])
                && grid::block_of(selection[k].x as int, selection[k].y as int) == number {
            let k = choose|k: int|
                0 <= k < count && overlay::in_simple_block(model, #[trigger] selection[k])
                    && grid::block_of(selection[k].x as int, selection[k].y as int) == number;
            if k < fewer {
                assert(overlay::in_simple_block(model, selection[k]));
                assert(before.contains(number));
            }
        }
    }
}

spec fn chosen_list(ui: UiModel) -> Seq<LayerAddress> {
    if ui.selection_hidden {
        Seq::empty()
    } else if ui.selection.len() == 0 {
        seq![ui.selected]
    } else {
        ui.selection
    }
}

proof fn lemma_chosen(model: DocumentModel, ui: UiModel, a: LayerAddress)
    ensures
        chosen_list(ui).contains(a) == chosen(ui, a),
        SnapshotModel::of(model, ui).lookup.cells.contains(a) == (chosen(ui, a)
            && !overlay::in_simple_block(model, a)),
{
    let list = chosen_list(ui);
    lemma_lookup(model, list, list.len(), a, 0);
    assert(list.take(list.len() as int) =~= list);
    if !ui.selection_hidden && ui.selection.len() == 0 {
        assert(list[0] == ui.selected);
    }
}

proof fn lemma_chosen_block(model: DocumentModel, ui: UiModel, block_x: int, block_y: int)
    requires
        grid::block_on_map(block_x, block_y),
        in_kind(model, 8 * block_x, 8 * block_y, EditableBlockType::Simple),
    ensures
        SnapshotModel::of(model, ui).lookup.simple_blocks.contains(
            grid::block_number(block_x, block_y),
        ) == block_is_chosen(ui, block_x, block_y),
{
    let list = chosen_list(ui);
    let number = grid::block_number(block_x, block_y);
    lemma_lookup(model, list, list.len(), ui.selected, number);
    if exists|k: int|
        0 <= k < list.len() && overlay::in_simple_block(model, #[trigger] list[k])
            && grid::block_of(list[k].x as int, list[k].y as int) == number {
        let k = choose|k: int|
            0 <= k < list.len() && overlay::in_simple_block(model, #[trigger] list[k])
                && grid::block_of(list[k].x as int, list[k].y as int) == number;
        lemma_chosen(model, ui, list[k]);
        assert(chosen(ui, list[k]));
    }
    if block_is_chosen(ui, block_x, block_y) {
        let a = choose|a: LayerAddress| #[trigger]
            chosen(ui, a) && 8 * block_x <= a.x < 8 * block_x + 8 && 8 * block_y <= a.y < 8
                * block_y + 8;
        lemma_chosen(model, ui, a);
        let k = choose|k: int| 0 <= k < list.len() && list[k] == a;
        assert(grid::block_of(a.x as int, a.y as int) == number);
        assert(overlay::in_simple_block(model, list[k]));
    }
}

proof fn lemma_covers(model: DocumentModel, ui: UiModel, x: int, y: int, l: int)
    requires
        0 <= x < 2_048,
        0 <= y < 2_048,
        0 <= l <= usize::MAX,
    ensures
        SnapshotModel::of(model, ui).lookup.area_selected(x, y, l, coarseness(ui)) == covers_chosen(
            model,
            ui,
            x,
            y,
            l,
        ),
{
    let lookup = SnapshotModel::of(model, ui).lookup;
    if lookup.area_selected(x, y, l, coarseness(ui)) {
        let (u, v) = choose|u: int, v: int|
            x <= u < x + coarseness(ui) && u < 2_048 && y <= v < y + coarseness(ui) && v < 2_048
                && #[trigger] lookup.cells.contains(selection::address(u, v, l));
        let a = selection::address(u, v, l);
        lemma_chosen(model, ui, a);
        assert(chosen(ui, a));
    }
    if covers_chosen(model, ui, x, y, l) {
        let a = choose|a: LayerAddress| #[trigger]
            chosen(ui, a) && x <= a.x < x + coarseness(ui) && a.x < 2_048 && y <= a.y < y
                + coarseness(ui) && a.y < 2_048 && a.layer == l && !in_kind(
                model,
                a.x as int,
                a.y as int,
                EditableBlockType::Simple,
            );
        lemma_chosen(model, ui, a);
        assert(selection::address(a.x as int, a.y as int, l) == a);
    }
}

proof fn lemma_layer(model: DocumentModel, ui: UiModel, a: LayerAddress, shown: OverlayCell)
    requires
        a.x < 2_048,
        a.y < 2_048,
        a.layer < model.column(a.x as int, a.y as int).len(),
        !in_kind(model, a.x as int, a.y as int, EditableBlockType::Simple),
    ensures
        overlay_cells::layer_cells(
            model,
            SnapshotModel::of(model, ui),
            a.x as int,
            a.y as int,
            a.layer as int,
        ).contains(shown) == shows_layer(model, ui, a, shown),
{
    let snapshot = SnapshotModel::of(model, ui);
    let x = a.x as int;
    let y = a.y as int;
    lemma_chosen(model, ui, a);
    lemma_covers(model, ui, x, y, a.layer as int);
    assert(selection::address(x, y, a.layer as int) == a);
    assert(snapshot.stride == coarseness(ui));
    let cells = overlay_cells::layer_cells(model, snapshot, x, y, a.layer as int);
    if shows_layer(model, ui, a, shown) {
        assert(cells[0] == shown);
    }
}

proof fn lemma_joined<T>(left: Seq<T>, right: Seq<T>, item: T)
    ensures
        (left + right).contains(item) == (left.contains(item) || right.contains(item)),
{
    let both = left + right;
    if left.contains(item) {
        let i = choose|i: int| 0 <= i < left.len() && left[i] == item;
        assert(both[i] == item);
    }
    if right.contains(item) {
        let i = choose|i: int| 0 <= i < right.len() && right[i] == item;
        assert(both[left.len() + i] == item);
    }
    if both.contains(item) {
        let i = choose|i: int| 0 <= i < both.len() && both[i] == item;
        if i < left.len() {
            assert(left[i] == item);
        } else {
            assert(right[i - left.len()] == item);
        }
    }
}

proof fn lemma_column(
    model: DocumentModel,
    ui: UiModel,
    x: int,
    y: int,
    layers: nat,
    shown: OverlayCell,
)
    requires
        0 <= x < 2_048,
        0 <= y < 2_048,
        layers <= model.column(x, y).len() <= usize::MAX,
        !in_kind(model, x, y, EditableBlockType::Simple),
    ensures
        overlay_cells::column_cells(model, SnapshotModel::of(model, ui), x, y, layers).contains(
            shown,
        ) == exists|a: LayerAddress| #[trigger]
            shows_layer(model, ui, a, shown) && a.x == x && a.y == y && a.layer < layers,
    decreases layers,
{
    if layers > 0 {
        let snapshot = SnapshotModel::of(model, ui);
        let fewer = (layers - 1) as nat;
        lemma_column(model, ui, x, y, fewer, shown);
        let last = LayerAddress { x: x as usize, y: y as usize, layer: fewer as usize };
        lemma_layer(model, ui, last, shown);
        let front = overlay_cells::column_cells(model, snapshot, x, y, fewer);
        lemma_joined(
            front,
            overlay_cells::layer_cells(model, snapshot, x, y, layers - 1),
            shown,
        );
        if exists|a: LayerAddress| #[trigger]
            shows_layer(model, ui, a, shown) && a.x == x && a.y == y && a.layer < layers {
            let a = choose|a: LayerAddress| #[trigger]
                shows_layer(model, ui, a, shown) && a.x == x && a.y == y && a.layer < layers;
            if a.layer == fewer {
                assert(a == last);
            }
        }
    }
}

proof fn lemma_part(
    model: DocumentModel,
    ui: UiModel,
    start_x: int,
    start_y: int,
    count: nat,
    shown: OverlayCell,
)
    requires
        0 <= start_x <= 2_040,
        0 <= start_y <= 2_040,
        count <= 64,
        forall|x: int, y: int|
            start_x <= x < start_x + 8 && start_y <= y < start_y + 8 ==> (#[trigger] model.column(
                x,
                y,
            )).len() <= usize::MAX && !in_kind(model, x, y, EditableBlockType::Simple),
    ensures
        overlay_cells::part_cells(
            model,
            SnapshotModel::of(model, ui),
            start_x,
            start_y,
            count,
        ).contains(shown) == exists|a: LayerAddress| #[trigger]
            shows_layer(model, ui, a, shown) && start_x <= a.x < start_x + 8 && start_y <= a.y
                < start_y + 8 && (a.x - start_x) * 8 + (a.y - start_y) < count,
    decreases count,
{
    if count > 0 {
        let snapshot = SnapshotModel::of(model, ui);
        let fewer = (count - 1) as nat;
        lemma_part(model, ui, start_x, start_y, fewer, shown);
        let x = start_x + fewer / 8;
        let y = start_y + fewer % 8;
        assert(model.column(x, y).len() <= usize::MAX);
        lemma_column(model, ui, x, y, model.column(x, y).len(), shown);
        lemma_joined(
            overlay_cells::part_cells(model, snapshot, start_x, start_y, fewer),
            overlay_cells::column_cells(model, snapshot, x, y, model.column(x, y).len()),
            shown,
        );
        if exists|a: LayerAddress| #[trigger]
            shows_layer(model, ui, a, shown) && start_x <= a.x < start_x + 8 && start_y <= a.y
                < start_y + 8 && (a.x - start_x) * 8 + (a.y - start_y) < count {
            let a = choose|a: LayerAddress| #[trigger]
                shows_layer(model, ui, a, shown) && start_x <= a.x < start_x + 8 && start_y <= a.y
                    < start_y + 8 && (a.x - start_x) * 8 + (a.y - start_y) < count;
            if (a.x - start_x) * 8 + (a.y - start_y) == fewer {
                assert(a.x == x && a.y == y);
            }
        }
    }
}

/// What is drawn of a block is what [`is_seen`] of it, all of it and nothing else.
pub proof fn blocks_show_what_is_seen(
    model: DocumentModel,
    ui: UiModel,
    block_x: int,
    block_y: int,
    shown: OverlayCell,
)
    requires
        model.valid(),
        0 <= block_x < 256,
        0 <= block_y < 256,
        forall|x: int, y: int|
            8 * block_x <= x < 8 * block_x + 8 && 8 * block_y <= y < 8 * block_y + 8 ==> (
            #[trigger] model.column(x, y)).len() <= usize::MAX,
    ensures
        overlay_cells::block_cells(
            model,
            SnapshotModel::of(model, ui),
            block_x,
            block_y,
        ).contains(shown) == is_seen(model, ui, block_x, block_y, shown),
{
    let snapshot = SnapshotModel::of(model, ui);
    let number = grid::block_number(block_x, block_y);
    let sx = 8 * block_x;
    let sy = 8 * block_y;
    let block = model.blocks[number];
    assert(block.valid());
    assert(sy / 8 + 256 * (sx / 8) == number);
    assert forall|x: int, y: int|
        sx <= x < sx + 8 && sy <= y < sy + 8 implies #[trigger] model.column(x, y)
        == block.columns[y % 8 + (x % 8) * 8] && y / 8 + 256 * (x / 8) == number by {
        assert(x / 8 == block_x && y / 8 == block_y);
    }
    if block.kind == EditableBlockType::Simple {
        lemma_chosen_block(model, ui, block_x, block_y);
        let cell = model.column(sx, sy)[0];
        assert(sx % 8 == 0 && sy % 8 == 0);
        assert(block.uniform_open());
        assert(block.columns[0] == model.column(sx, sy));
        assert(cell.nswe == 15);
        assert(15u8 & 15 == 15u8) by (bit_vector);
        if cell.height != -16_384 {
            assert forall|c: int, l: int|
                0 <= c < 64 && 0 <= l < block.columns[c].len() && (
                #[trigger] block.columns[c][l]).height
                    != crate::l2j::block::NULL_HEIGHT implies selection::fully_open(
                block.columns[c][l],
            ) by {
                assert(block.columns[c] == block.columns[0]);
            }
            assert(block.columns[0][0] == cell);
            assert(overlay::all_open(block));
        }
        let near = snapshot.visibility.open_block_shown(sx, sy);
        lemma_near_block(ui, sx, sy);
        let cells = overlay_cells::block_cells(model, snapshot, block_x, block_y);
        if is_seen(model, ui, block_x, block_y, shown) {
            assert(cells[0] == shown);
        }
    } else {
        assert forall|x: int, y: int|
            sx <= x < sx + 8 && sy <= y < sy + 8 implies (#[trigger] model.column(x, y)).len()
            <= usize::MAX && !in_kind(model, x, y, EditableBlockType::Simple) by {
            assert(model.column(x, y) == block.columns[y % 8 + (x % 8) * 8]);
        }
        lemma_part(model, ui, sx, sy, 64, shown);
        if ui.hide_fully_open_blocks && overlay::all_open(block) {
            assert forall|a: LayerAddress|
                sx <= a.x < sx + 8 && sy <= a.y < sy + 8 implies !#[trigger] shows_layer(
                model,
                ui,
                a,
                shown,
            ) by {
                if shows_layer(model, ui, a, shown) {
                    let c = a.y as int % 8 + (a.x as int % 8) * 8;
                    assert(model.column(a.x as int, a.y as int) == block.columns[c]);
                    assert(block.columns[c][a.layer as int].height
                        != crate::l2j::block::NULL_HEIGHT);
                    assert(selection::fully_open(block.columns[c][a.layer as int]));
                }
            }
        }
        if exists|a: LayerAddress| #[trigger]
            shows_layer(model, ui, a, shown) && sx <= a.x < sx + 8 && sy <= a.y < sy + 8 {
            let a = choose|a: LayerAddress| #[trigger]
                shows_layer(model, ui, a, shown) && sx <= a.x < sx + 8 && sy <= a.y < sy + 8;
            assert((a.x - sx) * 8 + (a.y - sy) < 64);
        }
    }
}

proof fn lemma_near_block(ui: UiModel, sx: int, sy: int)
    requires
        0 <= sx,
        0 <= sy,
    ensures
        (sx <= ui.selected.x + ui.open_context_radius && sx + 7 >= ui.selected.x
            - ui.open_context_radius && sy <= ui.selected.y + ui.open_context_radius && sy + 7
            >= ui.selected.y - ui.open_context_radius) == exists|x: int, y: int|
            sx <= x < sx + 8 && sy <= y < sy + 8 && #[trigger] touched(ui, x, y),
{
    let cx = ui.selected.x as int;
    let cy = ui.selected.y as int;
    let x = if cx < sx {
        sx
    } else if cx > sx + 7 {
        sx + 7
    } else {
        cx
    };
    let y = if cy < sy {
        sy
    } else if cy > sy + 7 {
        sy + 7
    } else {
        cy
    };
    if sx <= cx + ui.open_context_radius && sx + 7 >= cx - ui.open_context_radius && sy <= cy
        + ui.open_context_radius && sy + 7 >= cy - ui.open_context_radius {
        assert(touched(ui, x, y));
    }
}

proof fn lemma_strip(
    model: DocumentModel,
    snapshot: SnapshotModel,
    x: int,
    start: int,
    end: int,
    shown: OverlayCell,
)
    ensures
        overlay_cells::strip_cells(model, snapshot, x, start, end).contains(shown) == exists|y: int|
            start <= y < end && #[trigger] overlay_cells::block_cells(
                model,
                snapshot,
                x,
                y,
            ).contains(shown),
    decreases end - start,
{
    if start < end {
        lemma_strip(model, snapshot, x, start, end - 1, shown);
        lemma_joined(
            overlay_cells::strip_cells(model, snapshot, x, start, end - 1),
            overlay_cells::block_cells(model, snapshot, x, end - 1),
            shown,
        );
    }
}

/// What is drawn of a rectangle of blocks is what is drawn of each of them.
pub proof fn rectangles_show_their_blocks(
    model: DocumentModel,
    snapshot: SnapshotModel,
    start_x: int,
    end_x: int,
    start_y: int,
    end_y: int,
    shown: OverlayCell,
)
    ensures
        overlay_cells::area_cells(model, snapshot, start_x, end_x, start_y, end_y).contains(shown)
            == exists|x: int, y: int|
            start_x <= x < end_x && start_y <= y < end_y && #[trigger] overlay_cells::block_cells(
                model,
                snapshot,
                x,
                y,
            ).contains(shown),
    decreases end_x - start_x,
{
    if start_x < end_x {
        rectangles_show_their_blocks(model, snapshot, start_x, end_x - 1, start_y, end_y, shown);
        lemma_strip(model, snapshot, end_x - 1, start_y, end_y, shown);
        lemma_joined(
            overlay_cells::area_cells(model, snapshot, start_x, end_x - 1, start_y, end_y),
            overlay_cells::strip_cells(model, snapshot, end_x - 1, start_y, end_y),
            shown,
        );
    }
}

} // verus!
