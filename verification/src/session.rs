//! An editing session: a document, what is selected in it, and what the user
//! asks for.
//!
//! Drawing, files and dialogs are the caller's work. Each function says in a
//! [`Request`] what it leaves to do.

use vstd::prelude::*;
use vstd::string::StringExecFns;

use crate::l2j::block::EditableBlockType;
use crate::l2j::document::edits;
use crate::l2j::document::edits::EditModel;
use crate::l2j::document::{Document, DocumentModel};
use crate::l2j::grid;
use crate::picking;
use crate::picking::{push_index, Request};
use crate::status;
use crate::status::{join, push_mask};
use crate::text;
use crate::text::push_signed;
use crate::ui::{EditorUi, UiModel};

verus! {

/// What the user asks for.
#[derive(Clone, Copy, Debug, PartialEq, Eq, Structural)]
pub enum EditorAction {
    Nothing,
    OpenProject,
    Save,
    ApplyPreset(u8),
    SetHeight(i32),
    Convert(EditableBlockType),
    Undo,
    Redo,
    RestoreBlock,
}

/// The work that runs in the background. There is one place for it.
#[derive(Clone, Copy, Debug, PartialEq, Eq, Structural)]
pub enum Slot {
    Idle,
    Project,
    Visual,
}

/// The project that is shown, apart from what the form asks for.
#[derive(Debug)]
pub struct ActiveProject {
    pub client_root: String,
    pub package: String,
}

/// What an [`ActiveProject`] says.
#[verifier::ext_equal]
pub struct ActiveModel {
    pub client_root: Seq<char>,
    pub package: Seq<char>,
}

impl View for ActiveProject {
    type V = ActiveModel;

    open spec fn view(&self) -> ActiveModel {
        ActiveModel { client_root: self.client_root@, package: self.package@ }
    }
}

pub struct Session {
    pub document: Document,
    pub ui: EditorUi,
    pub loaded: bool,
    pub has_context: bool,
    pub package_count: usize,
    pub max_layer_count: usize,
    pub slot: Slot,
    pub active: Option<ActiveProject>,
    /// Whether the textured scene of the project is at hand.
    pub scene: bool,
}

/// What a [`Session`] holds.
pub struct SessionModel {
    pub document: DocumentModel,
    pub ui: UiModel,
    pub loaded: bool,
    pub has_context: bool,
    pub package_count: usize,
    pub max_layer_count: usize,
    pub slot: Slot,
    pub active: Option<ActiveModel>,
    pub scene: bool,
}

impl View for Session {
    type V = SessionModel;

    open spec fn view(&self) -> SessionModel {
        SessionModel {
            document: self.document@,
            ui: self.ui@,
            loaded: self.loaded,
            has_context: self.has_context,
            package_count: self.package_count,
            max_layer_count: self.max_layer_count,
            slot: self.slot,
            active: match self.active {
                Some(active) => Some(active@),
                None => None,
            },
            scene: self.scene,
        }
    }
}

/// Whether a machine can count what a mask for the selection changes: five
/// times per cell at most.
pub open spec fn countable(ui: UiModel) -> bool {
    (ui.selection.len() + 1) * 5 <= usize::MAX
}

/// What is said of a height edit that changed something.
pub open spec fn height_report(height: int, cells: nat, promoted: nat) -> Seq<char> {
    "Altura "@ + text::signed_decimal(height) + " aplicada: "@ + text::decimal(cells)
        + " células"@ + (if promoted == 0 {
        Seq::empty()
    } else {
        ", "@ + text::decimal(promoted) + " bloco(s) Simple convertido(s) em Complex"@
    }) + "."@
}

/// What is shown after a height edit, and what is left to do.
pub open spec fn after_height(
    ui: UiModel,
    height: i16,
    cells: nat,
    promoted: nat,
    rejected: Seq<Seq<char>>,
) -> (UiModel, Request) {
    let synced = UiModel {
        height_input: height as i32,
        height_input_address: Some(ui.selected),
        ..ui
    };
    if cells > 0 {
        (synced.say(height_report(height as int, cells, promoted)), Request::Refresh)
    } else if rejected.len() == 0 {
        (
            synced.say(
                "As células ativas já estão na altura "@ + text::signed_decimal(height as int)
                    + "."@,
            ),
            Request::Nothing,
        )
    } else {
        (synced.say(status::joined(rejected)), Request::Nothing)
    }
}

fn show_height(
    ui: &mut EditorUi,
    height: i16,
    cells: usize,
    promoted: usize,
    rejected: &Vec<String>,
) -> (request: Request)
    ensures
        (final(ui)@, request) == after_height(
            old(ui)@,
            height,
            cells as nat,
            promoted as nat,
            text::texts(rejected@),
        ),
{
    ui.height_input = height as i32;
    ui.height_input_address = Some(ui.selected);
    if cells > 0 {
        let mut message = "Altura ".to_owned();
        push_signed(&mut message, height as i64);
        message.append(" aplicada: ");
        push_index(&mut message, cells);
        message.append(" células");
        if promoted > 0 {
            message.append(", ");
            push_index(&mut message, promoted);
            message.append(" bloco(s) Simple convertido(s) em Complex");
        }
        message.append(".");
        assert(message@ =~= height_report(height as int, cells as nat, promoted as nat));
        ui.tell(message);
        Request::Refresh
    } else if rejected.len() == 0 {
        let mut message = "As células ativas já estão na altura ".to_owned();
        push_signed(&mut message, height as i64);
        message.append(".");
        ui.tell(message);
        Request::Nothing
    } else {
        ui.tell(join(rejected));
        Request::Nothing
    }
}

impl SessionModel {
    /// With a message.
    pub open spec fn say(self, message: Seq<char>) -> SessionModel {
        SessionModel { ui: self.ui.say(message), ..self }
    }

    /// Whether there is something to edit.
    pub open spec fn ready(self) -> bool {
        self.loaded && self.has_context
    }

    pub open spec fn with_preset(self, mask: u8) -> (SessionModel, Request) {
        let cells = picking::targets(self.ui);
        let label = "Preset NSWE "@ + status::mask_digits(mask);
        let edit = EditModel::start(self.document.blocks).forcing_all(
            cells,
            mask & 15,
            cells.len(),
        );
        let edited = SessionModel {
            document: self.document.edited(edit.blocks, label),
            ..self
        };
        if cells.len() == 0 {
            (self.say("Selecione uma célula antes de aplicar um preset."@), Request::Nothing)
        } else if edit.result.changed_cells > 0 {
            (
                edited.say(
                    label + " aplicado em "@ + text::decimal(edit.result.changed_cells)
                        + " células selecionadas."@,
                ),
                Request::Refresh,
            )
        } else if edit.result.rejected.len() == 0 {
            (edited.say("As células selecionadas já usavam esse preset."@), Request::Nothing)
        } else {
            (edited.say(status::joined(edit.result.rejected)), Request::Nothing)
        }
    }

    pub open spec fn with_height(self, requested: int) -> (SessionModel, Request) {
        let cells = picking::targets(self.ui);
        let height = edits::normalized(requested) as i16;
        let edit = EditModel::start(self.document.blocks).raising_all(
            cells,
            height,
            cells.len(),
        );
        let (ui, request) = after_height(
            self.ui,
            height,
            edit.result.changed_cells,
            edit.result.promoted_blocks,
            edit.result.rejected,
        );
        if cells.len() == 0 {
            (self.say("Selecione uma célula antes de alterar a altura."@), Request::Nothing)
        } else if !edits::editable(requested) {
            (
                self.say("Altura inválida: "@ + edits::height_out_of_range().text()),
                Request::Nothing,
            )
        } else {
            (
                SessionModel {
                    document: self.document.edited(
                        edit.blocks,
                        "Altura "@ + text::signed_decimal(requested),
                    ),
                    ui,
                    ..self
                },
                request,
            )
        }
    }

    pub open spec fn with_undo(self) -> (SessionModel, Request) {
        if self.document.undo.len() > 0 {
            (
                SessionModel { document: self.document.undone(), ..self }.say(
                    "Operação desfeita."@,
                ),
                Request::Refresh,
            )
        } else {
            (self, Request::Nothing)
        }
    }

    pub open spec fn with_redo(self) -> (SessionModel, Request) {
        if self.document.redo.len() > 0 {
            (
                SessionModel { document: self.document.redone(), ..self }.say(
                    "Operação refeita."@,
                ),
                Request::Refresh,
            )
        } else {
            (self, Request::Nothing)
        }
    }

    /// With the block of the current cell as the file has it.
    pub open spec fn with_restored(self) -> (SessionModel, Request) {
        let x = self.ui.selected.x as int / 8;
        let y = self.ui.selected.y as int / 8;
        let block = grid::block_number(x, y);
        if !grid::block_on_map(x, y) {
            (
                self.say("Falha ao restaurar: "@ + grid::no_such_block(x, y).text()),
                Request::Nothing,
            )
        } else if self.document.dirty(block) {
            let document = self.document.edited(
                self.document.blocks.update(block, self.document.placed[block].block),
                "Restaurar bloco"@,
            );
            (
                SessionModel { document, ..self }.say(
                    "Bloco restaurado a partir do arquivo-base."@,
                ),
                Request::Refresh,
            )
        } else {
            (self.say("O bloco já corresponde ao arquivo-base."@), Request::Nothing)
        }
    }

    pub open spec fn conversion_label(target: EditableBlockType) -> Seq<char> {
        match target {
            EditableBlockType::Simple => "Converter em simple"@,
            EditableBlockType::Complex => "Converter em complex"@,
            EditableBlockType::Multilayer => "Converter em multilayer"@,
        }
    }

    /// With the block of the current cell in another format.
    pub open spec fn with_converted(self, target: EditableBlockType) -> (SessionModel, Request) {
        let x = self.ui.selected.x as int / 8;
        let y = self.ui.selected.y as int / 8;
        let number = grid::block_number(x, y);
        let block = self.document.blocks[number];
        if !grid::block_on_map(x, y) {
            (
                self.say("Conversão recusada: "@ + grid::no_such_block(x, y).text()),
                Request::Nothing,
            )
        } else if block.kind == target {
            (self.say("O bloco já está nesse formato."@), Request::Nothing)
        } else {
            match edits::converted(block, target) {
                Err(error) => (
                    self.say("Conversão recusada: "@ + error.text()),
                    Request::Nothing,
                ),
                Ok(converted) => {
                    let document = self.document.edited(
                        self.document.blocks.update(number, converted),
                        Self::conversion_label(target),
                    );
                    (
                        SessionModel { document, ..self }.say("Conversão aplicada."@),
                        Request::Refresh,
                    )
                },
            }
        }
    }

    /// Whether an action edits the selection.
    pub open spec fn edits_selection(action: EditorAction) -> bool {
        match action {
            EditorAction::RestoreBlock => true,
            EditorAction::Convert(_) => true,
            EditorAction::ApplyPreset(_) => true,
            EditorAction::SetHeight(_) => true,
            _ => false,
        }
    }

    /// The session after an action, and what is left to do.
    pub open spec fn applied(self, action: EditorAction) -> (SessionModel, Request) {
        let idle = action == EditorAction::Nothing || action == EditorAction::OpenProject;
        if self.slot == Slot::Project && !idle {
            (self, Request::Nothing)
        } else if !idle && !self.ready() {
            (self.say("Carregue o cliente e a geodata antes de editar."@), Request::Nothing)
        } else if self.ui.selection_hidden && Self::edits_selection(action) {
            (self.say("Selecione uma célula antes de editar."@), Request::Nothing)
        } else {
            match action {
                EditorAction::Nothing => (self, Request::Nothing),
                EditorAction::OpenProject => (self, Request::Open),
                EditorAction::Save => (self, Request::Save),
                EditorAction::Undo => self.with_undo(),
                EditorAction::Redo => self.with_redo(),
                EditorAction::RestoreBlock => self.with_restored(),
                EditorAction::Convert(target) => self.with_converted(target),
                EditorAction::ApplyPreset(mask) => self.with_preset(mask),
                EditorAction::SetHeight(height) => self.with_height(height as int),
            }
        }
    }
}

impl Session {
    pub open spec fn well_formed(&self) -> bool {
        self.document.well_formed()
    }

    pub(crate) fn say(&mut self, message: &str)
        requires
            old(self).well_formed(),
        ensures
            final(self).well_formed(),
            final(self)@ == old(self)@.say(message@),
    {
        self.ui.show(message);
        assert(self.document == old(self).document);
        assert(self.active == old(self).active);
    }

    /// Shows a message that was put together.
    pub(crate) fn report(&mut self, message: String)
        requires
            old(self).well_formed(),
        ensures
            final(self).well_formed(),
            final(self)@ == old(self)@.say(message@),
    {
        self.ui.tell(message);
        assert(self.document == old(self).document);
        assert(self.active == old(self).active);
    }

    /// Whether a machine can count what a mask for the selection changes.
    pub fn is_countable(&self) -> (result: bool)
        ensures
            result == countable(self@.ui),
    {
        self.ui.selection.len() < usize::MAX / 5
    }

    /// Gives the selected cells a mask.
    pub fn apply_preset(&mut self, mask: u8) -> (request: Request)
        requires
            old(self).well_formed(),
            countable(old(self)@.ui),
        ensures
            final(self).well_formed(),
            (final(self)@, request) == old(self)@.with_preset(mask),
    {
        let cells = self.ui.edit_targets();
        if cells.len() == 0 {
            self.say("Selecione uma célula antes de aplicar um preset.");
            return Request::Nothing;
        }
        let mut label = "Preset NSWE ".to_owned();
        push_mask(&mut label, mask);
        let result = self.document.force_set_nswe(cells.as_slice(), mask, label.as_str());
        if result.changed_cells > 0 {
            let mut message = label;
            message.append(" aplicado em ");
            push_index(&mut message, result.changed_cells);
            message.append(" células selecionadas.");
            self.report(message);
            Request::Refresh
        } else if result.rejected_links.len() == 0 {
            self.say("As células selecionadas já usavam esse preset.");
            Request::Nothing
        } else {
            let message = join(&result.rejected_links);
            self.report(message);
            Request::Nothing
        }
    }

    /// Gives the selected cells a height.
    pub fn apply_height(&mut self, requested_height: i32) -> (request: Request)
        requires
            old(self).well_formed(),
        ensures
            final(self).well_formed(),
            (final(self)@, request) == old(self)@.with_height(requested_height as int),
    {
        let cells = self.ui.edit_targets();
        if cells.len() == 0 {
            self.say("Selecione uma célula antes de alterar a altura.");
            return Request::Nothing;
        }
        let mut label = "Altura ".to_owned();
        push_signed(&mut label, requested_height as i64);
        match self.document.set_height(cells.as_slice(), requested_height, label.as_str()) {
            Err(error) => {
                let mut message = "Altura inválida: ".to_owned();
                message.append(error.message());
                self.report(message);
                Request::Nothing
            },
            Ok(result) => {
                let ghost before = self.ui@;
                let request = show_height(
                    &mut self.ui,
                    result.height,
                    result.changed_cells,
                    result.promoted_blocks,
                    &result.rejected_cells,
                );
                assert(before == old(self)@.ui);
                assert(self.active == old(self).active);
                request
            },
        }
    }

    fn undo(&mut self) -> (request: Request)
        requires
            old(self).well_formed(),
        ensures
            final(self).well_formed(),
            (final(self)@, request) == old(self)@.with_undo(),
    {
        if self.document.undo() {
            assert(self.ui == old(self).ui);
            assert(self.active == old(self).active);
            self.say("Operação desfeita.");
            Request::Refresh
        } else {
            assert(self.ui == old(self).ui);
            assert(self.active == old(self).active);
            Request::Nothing
        }
    }

    fn redo(&mut self) -> (request: Request)
        requires
            old(self).well_formed(),
        ensures
            final(self).well_formed(),
            (final(self)@, request) == old(self)@.with_redo(),
    {
        if self.document.redo() {
            assert(self.ui == old(self).ui);
            assert(self.active == old(self).active);
            self.say("Operação refeita.");
            Request::Refresh
        } else {
            assert(self.ui == old(self).ui);
            assert(self.active == old(self).active);
            Request::Nothing
        }
    }

    fn restore(&mut self) -> (request: Request)
        requires
            old(self).well_formed(),
        ensures
            final(self).well_formed(),
            (final(self)@, request) == old(self)@.with_restored(),
    {
        let x: usize = self.ui.selected.x / 8;
        let y: usize = self.ui.selected.y / 8;
        let ghost model = self@.document;
        let ghost number = grid::block_number(x as int, y as int);
        match self.document.restore_block(x, y) {
            Ok(true) => {
                self.say("Bloco restaurado a partir do arquivo-base.");
                Request::Refresh
            },
            Ok(false) => {
                proof {
                    assert(model.blocks.update(number, model.placed[number].block)
                        =~= model.blocks);
                }
                self.say("O bloco já corresponde ao arquivo-base.");
                Request::Nothing
            },
            Err(error) => {
                let mut message = "Falha ao restaurar: ".to_owned();
                message.append(error.message());
                self.report(message);
                Request::Nothing
            },
        }
    }

    fn convert(&mut self, target: EditableBlockType) -> (request: Request)
        requires
            old(self).well_formed(),
        ensures
            final(self).well_formed(),
            (final(self)@, request) == old(self)@.with_converted(target),
    {
        let x: usize = self.ui.selected.x / 8;
        let y: usize = self.ui.selected.y / 8;
        let ghost model = self@.document;
        let ghost number = grid::block_number(x as int, y as int);
        match self.document.convert_to_type(x, y, target) {
            Ok(true) => {
                self.say("Conversão aplicada.");
                Request::Refresh
            },
            Ok(false) => {
                proof {
                    assert(model.blocks.update(number, model.blocks[number]) =~= model.blocks);
                }
                self.say("O bloco já está nesse formato.");
                Request::Nothing
            },
            Err(error) => {
                let mut message = "Conversão recusada: ".to_owned();
                message.append(error.message());
                self.report(message);
                Request::Nothing
            },
        }
    }

    /// Does what the user asks for.
    pub fn apply(&mut self, action: EditorAction) -> (request: Request)
        requires
            old(self).well_formed(),
            action is ApplyPreset ==> countable(old(self)@.ui),
        ensures
            final(self).well_formed(),
            (final(self)@, request) == old(self)@.applied(action),
    {
        let idle = match action {
            EditorAction::Nothing => true,
            EditorAction::OpenProject => true,
            _ => false,
        };
        if self.slot == Slot::Project && !idle {
            return Request::Nothing;
        }
        if !idle && (!self.loaded || !self.has_context) {
            self.say("Carregue o cliente e a geodata antes de editar.");
            return Request::Nothing;
        }
        let edits_selection = match action {
            EditorAction::RestoreBlock => true,
            EditorAction::Convert(_) => true,
            EditorAction::ApplyPreset(_) => true,
            EditorAction::SetHeight(_) => true,
            _ => false,
        };
        if self.ui.selection_hidden && edits_selection {
            self.say("Selecione uma célula antes de editar.");
            return Request::Nothing;
        }
        match action {
            EditorAction::Nothing => Request::Nothing,
            EditorAction::OpenProject => Request::Open,
            EditorAction::Save => Request::Save,
            EditorAction::Undo => self.undo(),
            EditorAction::Redo => self.redo(),
            EditorAction::RestoreBlock => self.restore(),
            EditorAction::Convert(target) => self.convert(target),
            EditorAction::ApplyPreset(mask) => self.apply_preset(mask),
            EditorAction::SetHeight(height) => self.apply_height(height),
        }
    }
}

} // verus!
