//! What loading, restoring and converting do to an editing session, and what the
//! mouse buttons do to the camera.

use vstd::prelude::*;

use crate::area_laws;
use crate::l2j::block::{EditableBlockType, LayerAddress};
use crate::l2j::document::edits;
use crate::l2j::document::DocumentModel;
use crate::navigation::{ButtonEvent, CameraInput};
use crate::picking;
use crate::picking::Request;
use crate::project;
use crate::project::{Completion, PreparedProject, ProjectOutcome, SettingsModel};
use crate::session::{EditorAction, SessionModel, Slot};
use crate::text;
use crate::ui::UiModel;

verus! {

/// A session in which the selected block can be edited.
pub open spec fn block_editable(session: SessionModel) -> bool {
    &&& session.slot != Slot::Project
    &&& session.loaded && session.has_context
    &&& !session.ui.selection_hidden
    &&& session.document.blocks.len() == 65_536
    &&& session.document.placed.len() == 65_536
    &&& session.ui.selected.x < 2_048 && session.ui.selected.y < 2_048
}

/// Restoring gives the selected block back as the file has it, cell by cell, and
/// leaves the cells of all other blocks as they are. It can be undone.
pub proof fn restoring_gives_the_block_back(session: SessionModel, x: int, y: int)
    requires
        block_editable(session),
        0 <= x < 2_048,
        0 <= y < 2_048,
    ensures
        ({
            let selected = session.ui.selected;
            let after = session.applied(EditorAction::RestoreBlock).0.document;
            let block = 256 * (x / 8) + y / 8;
            &&& x / 8 == selected.x as int / 8 && y / 8 == selected.y as int / 8
                ==> after.blocks[block] == session.document.placed[block].block
            &&& x / 8 != selected.x as int / 8 || y / 8 != selected.y as int / 8
                ==> after.blocks[block] == session.document.blocks[block]
            &&& after.placed == session.document.placed
            &&& after.blocks.len() == 65_536
            &&& after != session.document ==> after.undo.len() == session.document.undo.len() + 1
            &&& (session.applied(EditorAction::RestoreBlock).1 == Request::Refresh) == (after
                != session.document)
        }),
{
    let document = session.document;
    let u = session.ui.selected.x as int / 8;
    let v = session.ui.selected.y as int / 8;
    let number = 256 * u + v;
    let block = 256 * (x / 8) + y / 8;
    assert(0 <= u < 256 && 0 <= v < 256 && 0 <= x / 8 < 256 && 0 <= y / 8 < 256);
    assert(block == number ==> u == x / 8 && v == y / 8);
    let blocks = document.blocks.update(number, document.placed[number].block);
    if document.dirty(number) {
        assert(blocks[number] != document.blocks[number]);
    }
}

/// Converting changes the kind of the selected block and nothing else of it, and
/// leaves all other blocks as they are. A block of the kind already, or one whose
/// cells the kind cannot hold, stays.
pub proof fn converting_changes_the_kind(
    session: SessionModel,
    target: EditableBlockType,
    x: int,
    y: int,
)
    requires
        block_editable(session),
        0 <= x < 2_048,
        0 <= y < 2_048,
    ensures
        ({
            let selected = session.ui.selected;
            let after = session.applied(EditorAction::Convert(target)).0.document;
            let here = 256 * (selected.x as int / 8) + selected.y as int / 8;
            let there = 256 * (x / 8) + y / 8;
            let before = session.document.blocks[here];
            &&& there != here ==> after.blocks[there] == session.document.blocks[there]
            &&& after.blocks[here].columns == before.columns
            &&& after.blocks[here].kind == target <==> (before.kind == target || edits::converted(
                before,
                target,
            ) is Ok)
            &&& after.blocks[here].kind != target ==> after == session.document
            &&& after.placed == session.document.placed
        }),
{
    let document = session.document;
    let u = session.ui.selected.x as int / 8;
    let v = session.ui.selected.y as int / 8;
    assert(0 <= u < 256 && 0 <= v < 256 && 0 <= x / 8 < 256 && 0 <= y / 8 < 256);
}

/// A form is taken with its ends trimmed, and only if both paths say something
/// and the name of the geodata has a region.
pub proof fn forms_need_both_paths(ui: UiModel)
    ensures
        project::checked_form(ui) is Ok <==> {
            &&& text::trimmed(ui.client_root).len() > 0
            &&& text::trimmed(ui.open_path).len() > 0
            &&& crate::editor::region_of(text::trimmed(ui.open_path)) is Some
        },
        project::checked_form(ui) matches Ok(settings) ==> {
            &&& settings.client_root == text::trimmed(ui.client_root)
            &&& settings.path == text::trimmed(ui.open_path)
            &&& settings.map_type == ui.map_type
            &&& settings.ui == ui
            &&& Some(settings.region) == crate::editor::region_of(settings.path)
        },
        text::trimmed(ui.client_root).len() == 0 ==> project::checked_form(ui) == Err::<
            SettingsModel,
            Seq<char>,
        >("Informe a pasta raiz do cliente Lineage II."@),
{
}

/// A loaded project starts with nothing selected, nothing running and its own
/// document, and keeps what the user has set.
pub proof fn projects_start_afresh(session: SessionModel, prepared: PreparedProject)
    ensures
        ({
            let after = session.completed(
                Completion::Project(ProjectOutcome::Ready(prepared)),
            );
            &&& after.document == prepared.document@
            &&& after.ready()
            &&& after.slot == Slot::Idle
            &&& after.active == Some(prepared.active@)
            &&& after.ui.selection.len() == 0
            &&& !after.ui.selection_hidden
            &&& after.ui.line_start is None
            &&& after.ui.rectangle_start is None
            &&& after.ui.height_input_address is None
            &&& after.ui.pending_flavour is None
            &&& !after.ui.pending_plain_selection
            &&& after.ui.visible_layer == prepared.visible_layer
            &&& after.ui.selected.layer == prepared.visible_layer
            &&& after.ui.selected.x == session.ui.selected.x
            &&& after.ui.selected.y == session.ui.selected.y
            &&& after.ui.brush_width == session.ui.brush_width
            &&& after.ui.brush_height == session.ui.brush_height
            &&& after.ui.theme == session.ui.theme
            &&& after.ui.client_root == session.ui.client_root
            &&& after.ui.textured_view == (session.ui.textured_view && !prepared.visual_failed)
            &&& after.ui.status == prepared.status@
        }),
{
}

/// A failure ends what was running and is shown. Nothing of the map changes.
pub proof fn failures_change_nothing(session: SessionModel, error: String, scene: bool)
    ensures
        ({
            let project = session.completed(Completion::Project(ProjectOutcome::Error(error)));
            let visual = session.completed(Completion::Visual(Err(error)));
            let lost = session.completed(Completion::Disconnected(error));
            &&& project.document == session.document
            &&& visual.document == session.document
            &&& lost.document == session.document
            &&& project.slot == Slot::Idle && visual.slot == Slot::Idle && lost.slot == Slot::Idle
            &&& project.ui.status == error@ && visual.ui.status == error@ && lost.ui.status
                == error@
            &&& project.ui.textured_view == session.ui.textured_view
            &&& !visual.ui.textured_view
            &&& lost.ui.textured_view == (session.ui.textured_view && session.scene)
            &&& project.ui.selection == session.ui.selection
            &&& visual.loaded == session.loaded && visual.scene == session.scene
        }),
{
}

/// Textures are asked for where a project is loaded and nothing runs, until they
/// are there. Without a project the textured view is switched off.
pub proof fn textures_are_asked_for_once(session: SessionModel, batches: usize)
    ensures
        ({
            let (after, request) = session.texture_request();
            let done = session.completed(Completion::Visual(Ok(batches)));
            &&& request is Some <==> session.slot == Slot::Idle && !session.scene
                && session.loaded && session.has_context && session.active is Some
            &&& request is Some ==> request == session.active && after == session
            &&& session.slot == Slot::Idle && !session.scene && request is None
                ==> !after.ui.textured_view
            &&& session.slot != Slot::Idle || session.scene ==> after == session
            &&& done.scene && done.slot == Slot::Idle && done.texture_request().1 is None
            &&& done.ui.textured_view == session.ui.textured_view
            &&& after.document == session.document && after.slot == session.slot
        }),
{
}

/// Nothing but opening a project is done while one loads, and nothing else
/// before one is loaded.
pub proof fn editing_waits_for_a_project(session: SessionModel, action: EditorAction)
    requires
        action != EditorAction::Nothing && action != EditorAction::OpenProject,
        session.slot == Slot::Project || !session.loaded || !session.has_context,
    ensures
        session.applied(action).0.document == session.document,
        session.applied(action).0.ui.selection == session.ui.selection,
        session.applied(action).1 == Request::Nothing,
        session.applied(EditorAction::OpenProject) == (session, Request::Open),
        session.slot == Slot::Project ==> session.applied(action).0 == session,
{
}

/// The right button turns the camera, with or without the left one; both together
/// navigate until both are up, and so does losing the window end everything.
pub proof fn buttons_move_the_camera(input: CameraInput, captured: bool)
    ensures
        ({
            let right = input.after(ButtonEvent::RightPressed { captured });
            let up = input.after(ButtonEvent::RightReleased);
            let left = input.after(ButtonEvent::LeftPressed);
            let lifted = input.after(ButtonEvent::LeftReleased);
            let away = input.after(ButtonEvent::FocusLost);
            &&& right.rotating && right.raw_mouse == captured && right.right_pressed
            &&& right.left_pressed == input.left_pressed
            &&& right.dual_button_navigation == (input.left_pressed
                || input.dual_button_navigation)
            &&& !up.rotating && !up.raw_mouse && !up.right_pressed
            &&& up.left_pressed == input.left_pressed
            &&& up.dual_button_navigation == (input.left_pressed && input.dual_button_navigation)
            &&& left.left_pressed && left.right_pressed == input.right_pressed
            &&& left.rotating == input.rotating && left.raw_mouse == input.raw_mouse
            &&& left.dual_button_navigation == (input.right_pressed
                || input.dual_button_navigation)
            &&& !lifted.left_pressed && lifted.right_pressed == input.right_pressed
            &&& lifted.rotating == input.rotating && lifted.raw_mouse == input.raw_mouse
            &&& lifted.dual_button_navigation == (input.right_pressed
                && input.dual_button_navigation)
            &&& !away.rotating && !away.raw_mouse && !away.left_pressed && !away.right_pressed
                && !away.dual_button_navigation
        }),
{
}

/// Actions go to the selection, or to the current cell in the layer that is shown
/// where nothing is selected, or nowhere while the selection is hidden.
pub proof fn actions_go_to_the_selection(ui: UiModel, i: int)
    ensures
        ({
            let cells = picking::targets(ui);
            &&& ui.selection_hidden ==> cells.len() == 0
            &&& !ui.selection_hidden && ui.selection.len() > 0 ==> cells.len()
                == ui.selection.len() && (0 <= i < cells.len() ==> cells[i] == ui.selection[i])
            &&& !ui.selection_hidden && ui.selection.len() == 0 ==> cells.len() == 1 && cells[0].x
                == ui.selected.x && cells[0].y == ui.selected.y && cells[0].layer
                == ui.visible_layer
        }),
{
}

/// A layer that a map does not have becomes its highest one; others stay.
pub proof fn layers_stay_on_the_map(wanted: int, layers: int, other: int)
    requires
        0 <= wanted,
        0 < layers,
        0 <= other < layers,
        other <= wanted,
    ensures
        other <= project::usable_layer(wanted, layers),
        0 <= project::usable_layer(wanted, layers) < layers,
        project::usable_layer(wanted, layers) <= wanted,
{
}

/// Expanding a block selects its cells that have the layer that is shown, and
/// leaves the selection as it is where there are none.
pub proof fn blocks_are_selected_whole(ui: UiModel, model: DocumentModel, a: LayerAddress)
    requires
        ui.selected.x < 2_048,
        ui.selected.y < 2_048,
    ensures
        ({
            let (after, count) = ui.with_block_cells(model);
            let chosen = a.x as int / 8 == ui.selected.x as int / 8 && a.y as int / 8
                == ui.selected.y as int / 8 && a.layer == ui.visible_layer && a.layer
                < model.column(a.x as int, a.y as int).len();
            &&& chosen ==> after.selection.contains(a)
            &&& count > 0 ==> count == after.selection.len() && after.selection.contains(a)
                == chosen && after.selected == after.selection[0] && !after.selection_hidden
                && after.line_start is None && after.rectangle_start is None
            &&& count == 0 ==> after.selection == ui.selection && after.selected == ui.selected
            &&& count >= 0
        }),
{
    area_laws::blocks_are_taken_whole(
        model,
        ui.selected.x as int / 8,
        ui.selected.y as int / 8,
        ui.visible_layer as int,
        a,
    );
}

} // verus!
