//! What a user gets: which cells clicks select, and what keys and presets do to
//! the map.

use vstd::prelude::*;

use crate::area_laws;
use crate::input;
use crate::input::{Held, InputEvent, Key};
use crate::l2j::block::{Layer, LayerAddress};
use crate::l2j::document::edits;
use crate::l2j::document::edits::EditModel;
use crate::l2j::document::{change_laws, link_laws, DocumentModel};
use crate::l2j::{document, grid};
use crate::line;
use crate::picking;
use crate::picking::{Growing, Request};
use crate::route;
use crate::selection;
use crate::session::{EditorAction, SessionModel, Slot};
use crate::ui::UiModel;

verus! {

/// A cell of the rectangle between two others, in the layer that stands for the
/// last one's.
pub open spec fn in_rectangle(
    model: DocumentModel,
    start: LayerAddress,
    end: LayerAddress,
    a: LayerAddress,
) -> bool {
    &&& (start.x <= a.x <= end.x || end.x <= a.x <= start.x)
    &&& (start.y <= a.y <= end.y || end.y <= a.y <= start.y)
    &&& a.layer < model.column(a.x as int, a.y as int).len()
    &&& area_laws::stands_for(
        model.column(a.x as int, a.y as int),
        a.layer as int,
        end.layer as int,
    )
}

/// What a rectangle did to a selection so far: the old cells stand in front as
/// they were, and each new one was not there before.
spec fn grows(before: Growing, after: Growing) -> bool {
    &&& before.cells.len() <= after.cells.len()
    &&& after.cells.take(before.cells.len() as int) == before.cells
    &&& before.limited ==> after == before
    &&& after.limited && !before.limited ==> after.cells.len() == 65_536
    &&& forall|i: int, j: int|
        0 <= i < j < after.cells.len() && before.cells.len() <= j ==> (#[trigger] after.cells[i])
            != (#[trigger] after.cells[j])
    &&& before.cells.len() <= 65_536 ==> after.cells.len() <= 65_536
}

proof fn lemma_grows_twice(one: Growing, two: Growing, three: Growing)
    requires
        grows(one, two),
        grows(two, three),
    ensures
        grows(one, three),
{
    assert(three.cells.take(one.cells.len() as int) =~= two.cells.take(one.cells.len() as int)) by {
        assert forall|i: int| 0 <= i < one.cells.len() implies three.cells[i] == two.cells[i] by {
            assert(three.cells.take(two.cells.len() as int)[i] == two.cells[i]);
        }
    }
    assert forall|i: int, j: int|
        0 <= i < j < three.cells.len() && one.cells.len() <= j implies (#[trigger] three.cells[i])
        != (#[trigger] three.cells[j]) by {
        if j < two.cells.len() {
            assert(three.cells.take(two.cells.len() as int)[i] == two.cells[i]);
            assert(three.cells.take(two.cells.len() as int)[j] == two.cells[j]);
        }
    }
}

proof fn lemma_adding(growing: Growing, cell: LayerAddress)
    ensures
        grows(growing, growing.adding(cell)),
        !growing.adding(cell).limited ==> growing.adding(cell).cells.contains(cell),
        forall|a: LayerAddress|
            growing.cells.contains(a) ==> #[trigger] growing.adding(cell).cells.contains(a),
        forall|a: LayerAddress| #[trigger]
            growing.adding(cell).cells.contains(a) ==> growing.cells.contains(a) || a == cell,
{
    let after = growing.adding(cell);
    assert(growing.cells.take(growing.cells.len() as int) =~= growing.cells);
    if !growing.limited && !growing.cells.contains(cell) && growing.cells.len() != 65_536 {
        assert(after.cells.take(growing.cells.len() as int) =~= growing.cells);
        assert(after.cells[growing.cells.len() as int] == cell);
        assert forall|a: LayerAddress| growing.cells.contains(a) implies
            #[trigger] after.cells.contains(a) by {
            let i = choose|i: int| 0 <= i < growing.cells.len() && growing.cells[i] == a;
            assert(after.cells[i] == a);
        }
        assert forall|a: LayerAddress| #[trigger] after.cells.contains(a) implies
            growing.cells.contains(a) || a == cell by {
            let i = choose|i: int| 0 <= i < after.cells.len() && after.cells[i] == a;
            if i < growing.cells.len() {
                assert(growing.cells[i] == a);
            }
        }
    }
}

/// What adding a part of the map did.
spec fn took(
    model: DocumentModel,
    before: Growing,
    after: Growing,
    start_x: int,
    end_x: int,
    start_y: int,
    end_y: int,
    layer: int,
) -> bool {
    &&& grows(before, after)
    &&& forall|a: LayerAddress|
        before.cells.contains(a) ==> #[trigger] after.cells.contains(a)
    &&& forall|a: LayerAddress| #[trigger]
        after.cells.contains(a) ==> before.cells.contains(a) || (start_x <= a.x < end_x && start_y
            <= a.y < end_y && a.layer == selection::layer_in(
            model,
            a.x as int,
            a.y as int,
            layer,
        ))
    &&& !after.limited ==> forall|x: int, y: int|
        start_x <= x < end_x && start_y <= y < end_y ==> #[trigger] after.cells.contains(
            selection::address(x, y, selection::layer_in(model, x, y, layer)),
        )
}

proof fn lemma_row(
    model: DocumentModel,
    growing: Growing,
    x: int,
    start: int,
    end: int,
    layer: int,
)
    requires
        0 <= x < 2_048,
        0 <= start,
        end <= 2_048,
        start <= end,
        0 <= layer <= usize::MAX,
        model.valid(),
        forall|u: int, v: int|
            grid::on_map(u, v) ==> (#[trigger] model.column(u, v)).len() <= usize::MAX,
    ensures
        took(
            model,
            growing,
            growing.adding_row(model, x, start, end, layer),
            x,
            x + 1,
            start,
            end,
            layer,
        ),
    decreases end - start,
{
    assert(growing.cells.take(growing.cells.len() as int) =~= growing.cells);
    if start < end {
        lemma_row(model, growing, x, start, end - 1, layer);
        let middle = growing.adding_row(model, x, start, end - 1, layer);
        let y = end - 1;
        document::lemma_column(model, x, y);
        assert(model.column(x, y).len() <= usize::MAX);
        let cell = selection::address(x, y, selection::layer_in(model, x, y, layer));
        lemma_adding(middle, cell);
        let after = middle.adding(cell);
        lemma_grows_twice(growing, middle, after);
        assert(!after.limited ==> !middle.limited);
        assert forall|u: int, v: int|
            !after.limited && x <= u < x + 1 && start <= v < end implies #[trigger] after.cells.contains(
            selection::address(u, v, selection::layer_in(model, u, v, layer)),
        ) by {
            if v < end - 1 {
                assert(middle.cells.contains(
                    selection::address(u, v, selection::layer_in(model, u, v, layer)),
                ));
            }
        }
    }
}

proof fn lemma_rows(
    model: DocumentModel,
    growing: Growing,
    start_x: int,
    end_x: int,
    start_y: int,
    end_y: int,
    layer: int,
)
    requires
        0 <= start_x <= end_x <= 2_048,
        0 <= start_y <= end_y <= 2_048,
        0 <= layer <= usize::MAX,
        model.valid(),
        forall|u: int, v: int|
            grid::on_map(u, v) ==> (#[trigger] model.column(u, v)).len() <= usize::MAX,
    ensures
        took(
            model,
            growing,
            growing.adding_rows(model, start_x, end_x, start_y, end_y, layer),
            start_x,
            end_x,
            start_y,
            end_y,
            layer,
        ),
    decreases end_x - start_x,
{
    assert(growing.cells.take(growing.cells.len() as int) =~= growing.cells);
    if start_x < end_x {
        lemma_rows(model, growing, start_x, end_x - 1, start_y, end_y, layer);
        let middle = growing.adding_rows(model, start_x, end_x - 1, start_y, end_y, layer);
        lemma_row(model, middle, end_x - 1, start_y, end_y, layer);
        let after = middle.adding_row(model, end_x - 1, start_y, end_y, layer);
        lemma_grows_twice(growing, middle, after);
        assert forall|u: int, v: int|
            !after.limited && start_x <= u < end_x && start_y <= v < end_y implies
            #[trigger] after.cells.contains(
            selection::address(u, v, selection::layer_in(model, u, v, layer)),
        ) by {
            if u < end_x - 1 {
                assert(middle.cells.contains(
                    selection::address(u, v, selection::layer_in(model, u, v, layer)),
                ));
            }
        }
    }
}

/// A rectangle adds its cells to a selection, each once, in the layer that stands
/// for that of its last corner. What was selected stays in front as it was. All
/// cells of the rectangle are selected then, unless 65,536 cells stopped it.
pub proof fn rectangles_add_their_cells(
    model: DocumentModel,
    cells: Seq<LayerAddress>,
    start: LayerAddress,
    end: LayerAddress,
    a: LayerAddress,
)
    requires
        model.valid(),
        start.x < 2_048,
        start.y < 2_048,
        end.x < 2_048,
        end.y < 2_048,
        forall|u: int, v: int|
            grid::on_map(u, v) ==> (#[trigger] model.column(u, v)).len() <= usize::MAX,
    ensures
        ({
            let grown = picking::with_rectangle(model, cells, start, end);
            &&& cells.len() <= grown.cells.len()
            &&& grown.cells.take(cells.len() as int) == cells
            &&& grown.cells.contains(a) ==> cells.contains(a) || in_rectangle(model, start, end, a)
            &&& !grown.limited && in_rectangle(model, start, end, a) ==> grown.cells.contains(a)
            &&& grown.limited ==> grown.cells.len() == 65_536
            &&& forall|i: int, j: int|
                0 <= i < j < grown.cells.len() && cells.len() <= j ==> (#[trigger] grown.cells[i])
                    != (#[trigger] grown.cells[j])
        }),
{
    let before = Growing { cells, limited: false };
    lemma_rows(
        model,
        before,
        picking::lesser(start.x, end.x),
        picking::behind_greater(start.x, end.x),
        picking::lesser(start.y, end.y),
        picking::behind_greater(start.y, end.y),
        end.layer as int,
    );
    let grown = picking::with_rectangle(model, cells, start, end);
    let x = a.x as int;
    let y = a.y as int;
    if grid::on_map(x, y) {
        document::lemma_column(model, x, y);
        assert(model.column(x, y).len() <= usize::MAX);
        let layer = selection::layer_in(model, x, y, end.layer as int);
        if a.layer == layer {
            assert(selection::address(x, y, layer) == a);
        }
    }
}

/// Switching a cell adds it or takes it out, and leaves the others in their
/// order. The last cell stays.
pub proof fn switching_changes_one_cell(cells: Seq<LayerAddress>, cell: LayerAddress)
    requires
        cells.no_duplicates(),
    ensures
        ({
            let after = picking::switched(cells, cell);
            &&& after.no_duplicates()
            &&& after.contains(cell) == (!cells.contains(cell) || cells.len() == 1)
            &&& forall|a: LayerAddress|
                a != cell ==> #[trigger] after.contains(a) == cells.contains(a)
            &&& !cells.contains(cell) ==> after.len() == cells.len() + 1 && after.last() == cell
        }),
{
    let after = picking::switched(cells, cell);
    if !cells.contains(cell) {
        assert(after == cells.push(cell));
        assert(after[cells.len() as int] == cell);
        assert forall|a: LayerAddress| a != cell implies #[trigger] after.contains(a)
            == cells.contains(a) by {
            if cells.contains(a) {
                let i = choose|i: int| 0 <= i < cells.len() && cells[i] == a;
                assert(after[i] == a);
            }
            if after.contains(a) {
                let i = choose|i: int| 0 <= i < after.len() && after[i] == a;
                assert(cells[i] == a);
            }
        }
    } else if cells.len() > 1 {
        cells.index_of_first_ensures(cell);
        let place = cells.index_of_first(cell)->0;
        assert(after == cells.remove(place));
        assert forall|a: LayerAddress| a != cell implies #[trigger] after.contains(a)
            == cells.contains(a) by {
            if cells.contains(a) {
                let i = choose|i: int| 0 <= i < cells.len() && cells[i] == a;
                if i < place {
                    assert(after[i] == a);
                } else {
                    assert(after[i - 1] == a);
                }
            }
            if after.contains(a) {
                let i = choose|i: int| 0 <= i < after.len() && after[i] == a;
                if i < place {
                    assert(cells[i] == a);
                } else {
                    assert(cells[i + 1] == a);
                }
            }
        }
        if after.contains(cell) {
            let i = choose|i: int| 0 <= i < after.len() && after[i] == cell;
            if i < place {
                assert(cells[i] == cell && cells[place] == cell);
            } else {
                assert(cells[i + 1] == cell && cells[place] == cell);
            }
        }
    }
}

/// A session in which a map can be edited.
pub open spec fn can_edit(session: SessionModel) -> bool {
    session.loaded && session.has_context && session.slot != Slot::Project
        && !session.ui.selection_hidden
}

/// The one cell that edits apply to when nothing is selected: the current cell in
/// the visible layer.
pub open spec fn current_cell(ui: UiModel) -> LayerAddress {
    LayerAddress { x: ui.selected.x, y: ui.selected.y, layer: ui.visible_layer }
}

/// A preset gives the current cell exactly its mask, whatever lies around it.
pub proof fn presets_set_the_mask(session: SessionModel, mask: u8)
    requires
        can_edit(session),
        session.document.valid(),
        session.ui.selection.len() == 0,
        session.ui.selected.x < 2_048,
        session.ui.selected.y < 2_048,
        session.ui.visible_layer < session.document.column(
            session.ui.selected.x as int,
            session.ui.selected.y as int,
        ).len(),
    ensures
        ({
            let after = session.applied(EditorAction::ApplyPreset(mask)).0;
            let x = session.ui.selected.x as int;
            let y = session.ui.selected.y as int;
            let layer = session.ui.visible_layer as int;
            let old = session.document.column(x, y)[layer];
            let new = after.document.column(x, y)[layer];
            &&& new.height == old.height
            &&& new.nswe == if old.height == -16_384 {
                old.nswe
            } else {
                mask & 15
            }
        }),
{
    let cell = current_cell(session.ui);
    let start = EditModel::start(session.document.blocks);
    assert forall|b: int| 0 <= b < 65_536 implies (
    #[trigger] start.blocks[b]).columns.len() == 64 by {
        assert(session.document.blocks[b].valid());
    }
    link_laws::overrides_face_the_closest_layer(
        start,
        cell,
        mask & 15,
        crate::l2j::block::Direction::North,
    );
    let cells = picking::targets(session.ui);
    assert(cells =~= seq![cell]);
    reveal_with_fuel(EditModel::forcing_all, 2);
    let edit = start.forcing_all(cells, mask & 15, 1);
    assert(edit == start.forcing(cell, mask & 15));
    let after = session.applied(EditorAction::ApplyPreset(mask)).0;
    assert(after.document.blocks == edit.blocks);
}

/// Undoing right after an action that edits the map brings its blocks back.
pub proof fn undo_takes_an_action_back(session: SessionModel, action: EditorAction)
    requires
        can_edit(session),
        session.document.valid(),
        session.applied(action).0.document.valid(),
        action is ApplyPreset || action is SetHeight || action is Convert
            || action is RestoreBlock,
        session.applied(action).0.document != session.document,
    ensures
        session.applied(action).0.applied(EditorAction::Undo).0.document.blocks
            == session.document.blocks,
{
    let edited = session.applied(action).0;
    assert(can_edit(edited));
    let undone = edited.applied(EditorAction::Undo).0;
    assert(undone.document == edited.document.undone());
    let blocks = edited.document.blocks;
    assert(edited.document.undo.len() > 0);
    let before = edited.document.undo.last().before;
    assert(before == document::difference(session.document.blocks, blocks));
    assert(undone.document.blocks =~= session.document.blocks);
}

#[verifier::spinoff_prover]
#[verifier::rlimit(60)]
proof fn lemma_height_set(session: SessionModel, requested: int)
    requires
        session.document.valid(),
        !session.ui.selection_hidden,
        session.ui.selection.len() == 0,
        session.ui.visible_layer == 0,
        session.ui.selected.layer == 0,
        session.ui.selected.x < 2_048,
        session.ui.selected.y < 2_048,
        session.document.column(
            session.ui.selected.x as int,
            session.ui.selected.y as int,
        ).len() == 1,
        requested % 8 == 0,
    ensures
        ({
            let x = session.ui.selected.x as int;
            let y = session.ui.selected.y as int;
            let old = session.document.column(x, y)[0];
            let new = session.with_height(requested).0.document.column(x, y);
            &&& new.len() == 1
            &&& new[0].nswe == old.nswe
            &&& new[0].height == if old.height == -16_384 || requested > 16_376 || requested
                < -16_376 {
                old.height as int
            } else {
                requested
            }
        }),
{
    let x = session.ui.selected.x as int;
    let y = session.ui.selected.y as int;
    let cell = current_cell(session.ui);
    let column = session.document.column(x, y);
    let old = column[0];
    let cells = picking::targets(session.ui);
    assert(cells =~= seq![cell]);
    assert(edits::normalized(requested) == requested);
    let after = session.with_height(requested).0.document;
    if edits::editable(requested) {
        let height = requested as i16;
        let start = EditModel::start(session.document.blocks);
        let edit = start.raising_all(cells, height, cells.len());
        assert(after.blocks == edit.blocks);
        lemma_one_raised(session.document, cell, height);
        assert(after.column(x, y) == edit.column(x, y));
    } else {
        assert(after == session.document);
    }
}

#[verifier::spinoff_prover]
#[verifier::rlimit(60)]
proof fn lemma_one_raised(model: DocumentModel, cell: LayerAddress, height: i16)
    requires
        model.valid(),
        cell.x < 2_048,
        cell.y < 2_048,
        cell.layer == 0,
        model.column(cell.x as int, cell.y as int).len() == 1,
    ensures
        ({
            let old = model.column(cell.x as int, cell.y as int)[0];
            let edit = EditModel::start(model.blocks).raising_all(seq![cell], height, 1);
            let new = edit.column(cell.x as int, cell.y as int);
            &&& new.len() == 1
            &&& new[0].nswe == old.nswe
            &&& new[0].height == if old.height == -16_384 {
                old.height
            } else {
                height
            }
        }),
{
    let x = cell.x as int;
    let y = cell.y as int;
    let column = model.column(x, y);
    let old = column[0];
    let start = EditModel::start(model.blocks);
    assert forall|b: int| 0 <= b < 65_536 implies (
    #[trigger] start.blocks[b]).columns.len() == 64 by {
        assert(model.blocks[b].valid());
    }
    reveal_with_fuel(EditModel::raising_all, 2);
    let edit = start.raising_all(seq![cell], height, 1);
    assert(edit == start.raising(cell, height));
    assert(start.column(x, y) == column);
    change_laws::raised_layer_keeps_its_mask(start, cell, height);
    if old.height != -16_384 && old.height != height {
        let after = edit.column(x, y);
        let moved = Layer { height, nswe: old.nswe };
        column.to_multiset_ensures();
        after.to_multiset_ensures();
        assert(after.to_multiset().count(moved) > 0);
        assert(after.contains(moved));
    }
}

#[verifier::spinoff_prover]
proof fn lemma_arrow(session: SessionModel, up: bool, repeat: bool, held: Held)
    requires
        can_edit(session),
        session.ui.keyboard_height_adjust,
    ensures
        session.after(
            InputEvent::KeyPressed {
                key: if up {
                    Key::ArrowUp
                } else {
                    Key::ArrowDown
                },
                repeat,
            },
            true,
            held,
            None,
        ) == session.nudged(
            if up {
                8
            } else {
                -8
            },
        ),
{
    if up {
        assert(session.after(
            InputEvent::KeyPressed { key: Key::ArrowUp, repeat },
            true,
            held,
            None,
        ) == session.nudged(8));
    } else {
        assert(session.after(
            InputEvent::KeyPressed { key: Key::ArrowDown, repeat },
            true,
            held,
            None,
        ) == session.nudged(-8));
    }
}

#[verifier::spinoff_prover]
#[verifier::rlimit(60)]
proof fn lemma_nudged(session: SessionModel, delta: int)
    requires
        can_edit(session),
        session.document.valid(),
        session.ui.selection.len() == 0,
        session.ui.visible_layer == 0,
        session.ui.selected.layer == 0,
        session.ui.height_input_address != Some(session.ui.selected),
        session.ui.selected.x < 2_048,
        session.ui.selected.y < 2_048,
        session.document.column(
            session.ui.selected.x as int,
            session.ui.selected.y as int,
        ).len() == 1,
        delta == 8 || delta == -8,
    ensures
        ({
            let x = session.ui.selected.x as int;
            let y = session.ui.selected.y as int;
            let old = session.document.column(x, y)[0];
            let wanted = old.height + delta;
            let new = session.nudged(delta).0.document.column(x, y);
            &&& new.len() == 1
            &&& new[0].nswe == old.nswe
            &&& new[0].height == if old.height == -16_384 || wanted > 16_376 || wanted < -16_376 {
                old.height as int
            } else {
                wanted
            }
        }),
{
    let x = session.ui.selected.x as int;
    let y = session.ui.selected.y as int;
    let old = session.document.column(x, y)[0];
    let synced = SessionModel {
        ui: session.ui.with_height_input(session.document),
        ..session
    };
    assert(synced.ui.height_input == old.height);
    document::lemma_column(session.document, x, y);
    grid::lemma_location(x, y);
    let block = session.document.blocks[grid::block_of(x, y)];
    assert(block.valid());
    assert(block.columns[grid::column_of(x, y)][0].storable());
    let wanted = old.height + delta;
    assert(input::saturated(synced.ui.height_input + delta) == wanted);
    assert(session.nudged(delta) == synced.with_height(wanted));
    lemma_height_set(synced, wanted);
}

/// An arrow key moves the layer of a cell with a single one by eight units, up or
/// down, as far as heights can be stored.
#[verifier::spinoff_prover]
#[verifier::rlimit(80)]
pub proof fn arrows_move_by_one_step(session: SessionModel, up: bool, repeat: bool, held: Held)
    requires
        can_edit(session),
        session.document.valid(),
        session.ui.keyboard_height_adjust,
        session.ui.selection.len() == 0,
        session.ui.visible_layer == 0,
        session.ui.selected.layer == 0,
        session.ui.height_input_address != Some(session.ui.selected),
        session.ui.selected.x < 2_048,
        session.ui.selected.y < 2_048,
        session.document.column(
            session.ui.selected.x as int,
            session.ui.selected.y as int,
        ).len() == 1,
    ensures
        ({
            let key = if up {
                Key::ArrowUp
            } else {
                Key::ArrowDown
            };
            let after = session.after(
                InputEvent::KeyPressed { key, repeat },
                true,
                held,
                None,
            ).0;
            let x = session.ui.selected.x as int;
            let y = session.ui.selected.y as int;
            let old = session.document.column(x, y)[0];
            let wanted = if up {
                old.height + 8
            } else {
                old.height - 8
            };
            let new = after.document.column(x, y);
            &&& new.len() == 1
            &&& new[0].nswe == old.nswe
            &&& new[0].height == if old.height == -16_384 || wanted > 16_376 || wanted < -16_376 {
                old.height as int
            } else {
                wanted
            }
        }),
{
    let delta: int = if up {
        8
    } else {
        -8
    };
    lemma_arrow(session, up, repeat, held);
    lemma_nudged(session, delta);
}

/// A plain click selects what the brush takes around its cell.
pub proof fn clicks_select_the_brush_area(
    session: SessionModel,
    held: Held,
    cell: LayerAddress,
    pressed_over: Option<LayerAddress>,
)
    requires
        session.loaded && session.has_context && session.slot != Slot::Project,
        !held.navigating && !held.ctrl && !held.shift,
        session.ui.rectangle_start is None,
    ensures
        ({
            let pressed = session.after(InputEvent::LeftPressed, true, held, pressed_over).0;
            let (after, request) = pressed.after(
                InputEvent::LeftReleased,
                true,
                held,
                Some(cell),
            );
            let taken = selection::brushed(
                session.document,
                cell,
                session.ui.brush_width as int,
                session.ui.brush_height as int,
                session.ui.brush_anchor,
                session.ui.hide_fully_open_blocks,
            );
            &&& after.document == session.document
            &&& taken.len() > 0 ==> after.ui.selection == taken && after.ui.selected == cell
                && !after.ui.selection_hidden && request == Request::Refresh
            &&& taken.len() == 0 ==> after.ui.selection == session.ui.selection
                && after.ui.selected == session.ui.selected
        }),
{
}

/// Two clicks with control select the route between their cells, or the straight
/// line where there is none.
pub proof fn control_clicks_select_what_lies_between(
    session: SessionModel,
    held: Held,
    first: LayerAddress,
    last: LayerAddress,
)
    requires
        session.loaded && session.has_context && session.slot != Slot::Project,
        held.ctrl && !held.navigating,
        session.ui.line_start is None,
    ensures
        ({
            let begun = session.after(InputEvent::LeftPressed, true, held, Some(first)).0;
            let after = begun.after(InputEvent::LeftPressed, true, held, Some(last)).0;
            let line = line::line_cells(first, last);
            &&& begun.ui.selection == seq![first]
            &&& after.ui.selection == match route::routed(session.document, first, last) {
                Some(route) => route,
                None => line::picked(session.document, line, last.layer as int, line.len()),
            }
            &&& after.ui.selected == last
            &&& after.ui.line_start is None
            &&& after.document == session.document
        }),
{
}

/// Pressing and releasing with shift over one cell switches it; over two it adds
/// the rectangle between them.
pub proof fn shift_clicks_extend_the_selection(
    session: SessionModel,
    held: Held,
    first: LayerAddress,
    last: LayerAddress,
)
    requires
        session.loaded && session.has_context && session.slot != Slot::Project,
        held.shift && !held.ctrl && !held.navigating,
        !session.ui.selection_hidden,
    ensures
        ({
            let begun = session.after(InputEvent::LeftPressed, true, held, Some(first)).0;
            let after = begun.after(InputEvent::LeftReleased, true, held, Some(last)).0;
            let base = if session.ui.selection.len() == 0 {
                seq![session.ui.selected]
            } else {
                session.ui.selection
            };
            &&& after.ui.selection == if first == last {
                picking::switched(base, last)
            } else {
                picking::with_rectangle(session.document, base, first, last).cells
            }
            &&& after.ui.selected == last
            &&& after.document == session.document
        }),
{
}

/// Escape takes the selection away, and then nothing is edited until a cell is
/// selected again.
pub proof fn escape_ends_editing(session: SessionModel, held: Held, canvas: bool, action: EditorAction)
    requires
        can_edit(session),
        action is ApplyPreset || action is SetHeight || action is Convert
            || action is RestoreBlock,
    ensures
        ({
            let after = session.after(
                InputEvent::KeyPressed { key: Key::Escape, repeat: false },
                canvas,
                held,
                None,
            ).0;
            &&& after.ui.selection.len() == 0
            &&& picking::targets(after.ui).len() == 0
            &&& after.applied(action).0.document == session.document
        }),
{
}

/// Control and Z undo, control and Y redo, control and S save, and control and O
/// opens a project, each once per stroke.
pub proof fn control_keys_do_what_they_say(session: SessionModel, held: Held, canvas: bool)
    requires
        can_edit(session),
        held.ctrl && !held.shift,
        session.document.undo.len() > 0,
    ensures
        ({
            let undo = InputEvent::KeyPressed { key: Key::Z, repeat: false };
            let redo = InputEvent::KeyPressed { key: Key::Y, repeat: false };
            let save = InputEvent::KeyPressed { key: Key::S, repeat: false };
            let open = InputEvent::KeyPressed { key: Key::O, repeat: false };
            let again = InputEvent::KeyPressed { key: Key::Z, repeat: true };
            let undone = session.after(undo, canvas, held, None).0;
            &&& undone.document == session.document.undone()
            &&& undone.after(redo, canvas, held, None).0.document
                == session.document.undone().redone()
            &&& session.after(save, canvas, held, None) == (session, Request::Save)
            &&& session.after(open, canvas, held, None) == (session, Request::Open)
            &&& session.after(again, canvas, held, None) == (session, Request::Nothing)
        }),
{
}

} // verus!
