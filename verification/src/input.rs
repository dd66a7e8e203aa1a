//! Keys and clicks.

use vstd::prelude::*;

use crate::l2j::block::LayerAddress;
use crate::l2j::document::{Document, DocumentModel};
use crate::picking::Request;
use crate::session::{EditorAction, Session, SessionModel, Slot};
use crate::ui::{EditorUi, UiModel};

verus! {

/// The keys that the editor knows.
#[derive(Clone, Copy, Debug, PartialEq, Eq, Structural)]
pub enum Key {
    ArrowUp,
    ArrowDown,
    Escape,
    O,
    S,
    Y,
    Z,
    Other,
}

#[derive(Clone, Copy, Debug, PartialEq, Eq, Structural)]
pub enum InputEvent {
    KeyPressed { key: Key, repeat: bool },
    LeftPressed,
    LeftReleased,
    RightPressed,
    Other,
}

/// What is held down when an event comes.
#[derive(Clone, Copy, Debug, PartialEq, Eq, Structural)]
pub struct Held {
    pub ctrl: bool,
    pub shift: bool,
    pub left: bool,
    /// Whether the left button is part of camera navigation.
    pub navigating: bool,
}

impl UiModel {
    /// Without a click that was begun.
    pub open spec fn unclicked(self) -> UiModel {
        UiModel { pending_plain_selection: false, rectangle_start: None, ..self }
    }

    /// With the left button pressed over a cell or over none. Control starts or
    /// ends a line, shift starts a rectangle, and without them a click begins.
    pub open spec fn pressed(
        self,
        model: DocumentModel,
        ctrl: bool,
        shift: bool,
        cell: Option<LayerAddress>,
    ) -> (UiModel, Request) {
        if ctrl {
            let ui = UiModel { pending_plain_selection: false, ..self };
            match cell {
                Some(cell) => (ui.with_line_end(model, cell), Request::Refresh),
                None => (
                    ui.say("Nenhuma célula L2J foi atingida para a linha."@),
                    Request::Nothing,
                ),
            }
        } else if shift {
            (
                UiModel {
                    pending_plain_selection: false,
                    line_start: None,
                    rectangle_start: cell,
                    ..self
                },
                Request::Nothing,
            )
        } else {
            (UiModel { pending_plain_selection: true, ..self }, Request::Nothing)
        }
    }

    /// With the left button released over a cell or over none.
    pub open spec fn released(self, model: DocumentModel, cell: Option<LayerAddress>) -> (
        UiModel,
        Request,
    ) {
        let ui = self.unclicked();
        match (self.rectangle_start, cell) {
            (Some(start), Some(end)) => if start == end {
                (ui.with_toggled(end), Request::Refresh)
            } else {
                (ui.with_rectangle(model, start, end), Request::Refresh)
            },
            _ => if self.pending_plain_selection {
                match cell {
                    Some(cell) => ui.with_brush(model, cell),
                    None => (
                        ui.say(
                            "Nenhuma célula L2J foi atingida. Aponte a câmera para a superfície e tente novamente."@,
                        ),
                        Request::Nothing,
                    ),
                }
            } else {
                (ui, Request::Nothing)
            },
        }
    }
}

impl EditorUi {
    fn drop_click(&mut self)
        ensures
            final(self)@ == old(self)@.unclicked(),
    {
        self.pending_plain_selection = false;
        self.rectangle_start = None;
        assert(self@ == old(self)@.unclicked());
    }

    /// Presses the left button over a cell or over none.
    pub fn press(
        &mut self,
        document: &Document,
        ctrl: bool,
        shift: bool,
        cell: Option<LayerAddress>,
    ) -> (request: Request)
        requires
            document.well_formed(),
        ensures
            (final(self)@, request) == old(self)@.pressed(document@, ctrl, shift, cell),
    {
        if ctrl {
            self.pending_plain_selection = false;
            assert(self@ == UiModel { pending_plain_selection: false, ..old(self)@ });
            match cell {
                Some(cell) => {
                    self.select_line_endpoint(document, cell);
                    Request::Refresh
                },
                None => {
                    self.show("Nenhuma célula L2J foi atingida para a linha.");
                    Request::Nothing
                },
            }
        } else if shift {
            self.pending_plain_selection = false;
            self.line_start = None;
            self.rectangle_start = cell;
            assert(self@ == old(self)@.pressed(document@, ctrl, shift, cell).0);
            Request::Nothing
        } else {
            self.pending_plain_selection = true;
            assert(self@ == old(self)@.pressed(document@, ctrl, shift, cell).0);
            Request::Nothing
        }
    }

    /// Releases the left button over a cell or over none.
    pub fn release(&mut self, document: &Document, cell: Option<LayerAddress>) -> (request: Request)
        requires
            document.well_formed(),
        ensures
            (final(self)@, request) == old(self)@.released(document@, cell),
    {
        let pending = self.pending_plain_selection;
        let start = self.rectangle_start;
        self.drop_click();
        if let (Some(start), Some(end)) = (start, cell) {
            if start.x == end.x && start.y == end.y && start.layer == end.layer {
                self.toggle_selection(end);
            } else {
                self.select_rectangle(document, start, end);
            }
            Request::Refresh
        } else if pending {
            match cell {
                Some(cell) => self.select_brush_area(document, cell),
                None => {
                    self.show(
                        "Nenhuma célula L2J foi atingida. Aponte a câmera para a superfície e tente novamente.",
                    );
                    Request::Nothing
                },
            }
        } else {
            Request::Nothing
        }
    }
}

/// A sum, as far as 32 bits go.
pub open spec fn saturated(value: int) -> int {
    if value > i32::MAX {
        i32::MAX as int
    } else if value < i32::MIN {
        i32::MIN as int
    } else {
        value
    }
}

/// The action of a key with control held.
pub open spec fn shortcut(key: Key, shift: bool) -> EditorAction {
    match key {
        Key::S => EditorAction::Save,
        Key::Z => if shift {
            EditorAction::Nothing
        } else {
            EditorAction::Undo
        },
        Key::Y => if shift {
            EditorAction::Nothing
        } else {
            EditorAction::Redo
        },
        Key::O => if shift {
            EditorAction::Nothing
        } else {
            EditorAction::OpenProject
        },
        _ => EditorAction::Nothing,
    }
}

impl SessionModel {
    /// Whether the canvas takes edits.
    pub open spec fn editable(self, canvas: bool) -> bool {
        canvas && self.ready() && self.slot != Slot::Project
    }

    /// With the height of the selection one step up or down.
    pub open spec fn nudged(self, delta: int) -> (SessionModel, Request) {
        let synced = SessionModel { ui: self.ui.with_height_input(self.document), ..self };
        synced.with_height(saturated(synced.ui.height_input + delta))
    }

    pub open spec fn after_key(self, key: Key, repeat: bool, canvas: bool, held: Held) -> (
        SessionModel,
        Request,
    ) {
        match key {
            Key::ArrowUp => if self.editable(canvas) && self.ui.keyboard_height_adjust {
                self.nudged(8)
            } else {
                (self, Request::Nothing)
            },
            Key::ArrowDown => if self.editable(canvas) && self.ui.keyboard_height_adjust {
                self.nudged(-8)
            } else {
                (self, Request::Nothing)
            },
            Key::Escape => if repeat {
                (self, Request::Nothing)
            } else {
                let (ui, request) = self.ui.cleared(self.ready());
                (SessionModel { ui, ..self }, request)
            },
            _ => if repeat || !held.ctrl {
                (self, Request::Nothing)
            } else {
                self.applied(shortcut(key, held.shift))
            },
        }
    }

    /// With the click that was begun dropped, if it is to be.
    pub open spec fn after_drop(self, dropped: bool) -> SessionModel {
        if dropped {
            SessionModel { ui: self.ui.unclicked(), ..self }
        } else {
            self
        }
    }

    pub open spec fn after_press(
        self,
        canvas: bool,
        held: Held,
        cell: Option<LayerAddress>,
    ) -> (SessionModel, Request) {
        if self.editable(canvas) && !held.navigating {
            let (ui, request) = self.ui.pressed(self.document, held.ctrl, held.shift, cell);
            (SessionModel { ui, ..self }, request)
        } else {
            (self, Request::Nothing)
        }
    }

    pub open spec fn after_release(
        self,
        canvas: bool,
        held: Held,
        cell: Option<LayerAddress>,
    ) -> (SessionModel, Request) {
        if self.editable(canvas) && !held.navigating {
            let (ui, request) = self.ui.released(self.document, cell);
            (SessionModel { ui, ..self }, request)
        } else {
            (self.after_drop(!canvas), Request::Nothing)
        }
    }

    /// The session after an event. The cell is the one under the cursor.
    pub open spec fn after(
        self,
        event: InputEvent,
        canvas: bool,
        held: Held,
        cell: Option<LayerAddress>,
    ) -> (SessionModel, Request) {
        match event {
            InputEvent::KeyPressed { key, repeat } => self.after_key(key, repeat, canvas, held),
            InputEvent::RightPressed => (self.after_drop(held.left), Request::Nothing),
            InputEvent::LeftPressed => self.after_press(canvas, held, cell),
            InputEvent::LeftReleased => self.after_release(canvas, held, cell),
            InputEvent::Other => (self, Request::Nothing),
        }
    }
}

fn saturated_sum(left: i32, right: i32) -> (sum: i32)
    ensures
        sum == saturated(left + right),
{
    let sum: i64 = left as i64 + right as i64;
    if sum > i32::MAX as i64 {
        i32::MAX
    } else if sum < i32::MIN as i64 {
        i32::MIN
    } else {
        sum as i32
    }
}

fn shortcut_of(key: Key, shift: bool) -> (action: EditorAction)
    ensures
        action == shortcut(key, shift),
{
    match key {
        Key::S => EditorAction::Save,
        Key::Z if !shift => EditorAction::Undo,
        Key::Y if !shift => EditorAction::Redo,
        Key::O if !shift => EditorAction::OpenProject,
        _ => EditorAction::Nothing,
    }
}

impl Session {
    fn is_editable(&self, canvas: bool) -> (result: bool)
        ensures
            result == self@.editable(canvas),
    {
        canvas && self.loaded && self.has_context && self.slot != Slot::Project
    }

    fn nudge(&mut self, delta: i32) -> (request: Request)
        requires
            old(self).well_formed(),
        ensures
            final(self).well_formed(),
            (final(self)@, request) == old(self)@.nudged(delta as int),
    {
        self.ui.sync_height_input(&self.document);
        assert(self.document == old(self).document);
        assert(self.active == old(self).active);
        let height: i32 = saturated_sum(self.ui.height_input, delta);
        self.apply_height(height)
    }

    fn key(&mut self, key: Key, repeat: bool, canvas: bool, held: Held) -> (request: Request)
        requires
            old(self).well_formed(),
        ensures
            final(self).well_formed(),
            (final(self)@, request) == old(self)@.after_key(key, repeat, canvas, held),
    {
        match key {
            Key::ArrowUp => {
                if self.is_editable(canvas) && self.ui.keyboard_height_adjust {
                    self.nudge(8)
                } else {
                    Request::Nothing
                }
            },
            Key::ArrowDown => {
                if self.is_editable(canvas) && self.ui.keyboard_height_adjust {
                    self.nudge(-8)
                } else {
                    Request::Nothing
                }
            },
            Key::Escape => {
                if repeat {
                    return Request::Nothing;
                }
                let ready = self.loaded && self.has_context;
                let request = self.ui.clear_active_selection(ready);
                assert(self.document == old(self).document);
                assert(self.active == old(self).active);
                request
            },
            _ => {
                if repeat || !held.ctrl {
                    return Request::Nothing;
                }
                self.apply(shortcut_of(key, held.shift))
            },
        }
    }

    fn drop_click(&mut self, dropped: bool)
        requires
            old(self).well_formed(),
        ensures
            final(self).well_formed(),
            final(self)@ == old(self)@.after_drop(dropped),
    {
        if dropped {
            self.ui.drop_click();
            assert(self.document == old(self).document);
            assert(self.active == old(self).active);
        }
    }

    fn press(&mut self, canvas: bool, held: Held, cell: Option<LayerAddress>) -> (request: Request)
        requires
            old(self).well_formed(),
        ensures
            final(self).well_formed(),
            (final(self)@, request) == old(self)@.after_press(canvas, held, cell),
    {
        if !self.is_editable(canvas) || held.navigating {
            return Request::Nothing;
        }
        let request = self.ui.press(&self.document, held.ctrl, held.shift, cell);
        assert(self.document == old(self).document);
        assert(self.active == old(self).active);
        request
    }

    fn release(&mut self, canvas: bool, held: Held, cell: Option<LayerAddress>) -> (request:
        Request)
        requires
            old(self).well_formed(),
        ensures
            final(self).well_formed(),
            (final(self)@, request) == old(self)@.after_release(canvas, held, cell),
    {
        if !self.is_editable(canvas) || held.navigating {
            self.drop_click(!canvas);
            return Request::Nothing;
        }
        let request = self.ui.release(&self.document, cell);
        assert(self.document == old(self).document);
        assert(self.active == old(self).active);
        request
    }

    /// Takes up an event. The cell is the one under the cursor.
    pub fn input(
        &mut self,
        event: InputEvent,
        canvas_input: bool,
        held: Held,
        cell: Option<LayerAddress>,
    ) -> (request: Request)
        requires
            old(self).well_formed(),
        ensures
            final(self).well_formed(),
            (final(self)@, request) == old(self)@.after(event, canvas_input, held, cell),
    {
        match event {
            InputEvent::KeyPressed { key, repeat } => self.key(key, repeat, canvas_input, held),
            InputEvent::RightPressed => {
                self.drop_click(held.left);
                Request::Nothing
            },
            InputEvent::LeftPressed => self.press(canvas_input, held, cell),
            InputEvent::LeftReleased => self.release(canvas_input, held, cell),
            InputEvent::Other => Request::Nothing,
        }
    }
}

/// While a project loads, and before there is one, clicks change nothing but
/// the click itself.
pub proof fn clicks_wait_for_a_project(
    session: SessionModel,
    canvas: bool,
    held: Held,
    cell: Option<LayerAddress>,
)
    requires
        session.slot == Slot::Project || !session.ready(),
    ensures
        session.after(InputEvent::LeftPressed, canvas, held, cell).0 == session,
        session.after(InputEvent::LeftReleased, canvas, held, cell).0.document
            == session.document,
        session.after(InputEvent::LeftReleased, canvas, held, cell).0.ui.selection
            == session.ui.selection,
{
}

/// A right button that joins the left one cancels the click, and the selection
/// stays as it is.
pub proof fn joined_right_button_cancels_the_click(
    session: SessionModel,
    canvas: bool,
    held: Held,
    cell: Option<LayerAddress>,
)
    requires
        held.left,
    ensures
        ({
            let joined = session.after(InputEvent::RightPressed, canvas, held, cell).0;
            let after = joined.after(InputEvent::LeftReleased, canvas, held, cell).0;
            &&& after.ui.selection == session.ui.selection
            &&& after.ui.selected == session.ui.selected
            &&& after.document == session.document
        }),
{
}

/// While a project loads, no event edits the document that is open.
pub proof fn loading_blocks_edits(
    session: SessionModel,
    event: InputEvent,
    canvas: bool,
    held: Held,
    cell: Option<LayerAddress>,
)
    requires
        session.slot == Slot::Project,
    ensures
        session.after(event, canvas, held, cell).0.document == session.document,
{
}

/// While a project loads, no action edits the document that is open.
pub proof fn loading_blocks_actions(session: SessionModel, action: EditorAction)
    requires
        session.slot == Slot::Project,
    ensures
        session.applied(action).0 == session,
{
}

} // verus!
