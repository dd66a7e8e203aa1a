//! What the panels of the editor say, and what their controls change.

use vstd::prelude::*;
use vstd::string::StringExecFns;

use crate::l2j::block::{Direction, EditableBlockType, LayerAddress};
use crate::l2j::document::export::SaveSummary;
use crate::l2j::document::DocumentModel;
use crate::l2j::grid;
use crate::path;
use crate::picking::{push_index, Request};
use crate::session::Session;
use crate::status;
use crate::status::push_mask;
use crate::text;
use crate::text::{push_decimal, string_of};
use crate::ui::{EditorUi, UiModel};

verus! {

impl UiModel {
    /// With the other flavour of the map accepted.
    pub open spec fn accepted(self) -> UiModel {
        match self.pending_flavour {
            Some(pending) => UiModel {
                map_type: pending.available_type,
                pending_flavour: None,
                ..self
            },
            None => self,
        }
    }

    /// With the other flavour of the map turned down.
    pub open spec fn declined(self) -> UiModel {
        match self.pending_flavour {
            Some(pending) => UiModel {
                pending_flavour: None,
                status: "O mapa "@ + pending.missing + " não existe no cliente informado."@,
                ..self
            },
            None => self,
        }
    }

    /// With another layer shown.
    pub open spec fn showing(self, layer: usize) -> UiModel {
        UiModel {
            visible_layer: layer,
            selected: LayerAddress { layer, ..self.selected },
            ..self
        }
    }

    /// What the status line says.
    pub open spec fn status_line(self) -> Seq<char> {
        if self.status.len() == 0 {
            "Pronto. Clique para selecionar; Shift adiciona; Ctrl segue uma faixa; Esc limpa."@
        } else {
            self.status
        }
    }
}

impl EditorUi {
    /// Accepts the other flavour of the map. The project is to be opened again.
    pub fn accept_flavour(&mut self) -> (request: Request)
        ensures
            final(self)@ == old(self)@.accepted(),
            request == if old(self)@.pending_flavour is Some {
                Request::Open
            } else {
                Request::Nothing
            },
    {
        match &self.pending_flavour {
            Some(pending) => {
                self.map_type = pending.available_type;
                self.pending_flavour = None;
                assert(self@ == old(self)@.accepted());
                Request::Open
            },
            None => Request::Nothing,
        }
    }

    /// Turns the other flavour of the map down.
    pub fn decline_flavour(&mut self)
        ensures
            final(self)@ == old(self)@.declined(),
    {
        if let Some(pending) = &self.pending_flavour {
            let mut message = "O mapa ".to_owned();
            message.append(pending.missing.as_str());
            message.append(" não existe no cliente informado.");
            self.pending_flavour = None;
            self.status = message;
            assert(self@ == old(self)@.declined());
        }
    }

    /// Keeps the visible layer among those of the document, and selects it.
    pub fn clamp_layer(&mut self, max_layer_count: usize)
        ensures
            final(self)@ == old(self)@.showing(
                (if old(self)@.visible_layer < max_layer_count {
                    old(self)@.visible_layer as int
                } else if max_layer_count > 0 {
                    max_layer_count - 1
                } else {
                    0
                }) as usize,
            ),
    {
        let layer: usize = if self.visible_layer < max_layer_count {
            self.visible_layer
        } else if max_layer_count > 0 {
            max_layer_count - 1
        } else {
            0
        };
        self.visible_layer = layer;
        self.selected.layer = layer;
        assert(self@ == old(self)@.showing(layer));
    }

    /// Shows a layer of the current cell.
    pub fn choose_layer(&mut self, layer: usize)
        ensures
            final(self)@ == (UiModel { height_input_address: None, ..old(self)@.showing(layer) }),
    {
        self.visible_layer = layer;
        self.selected.layer = layer;
        self.height_input_address = None;
        assert(self@ == (UiModel { height_input_address: None, ..old(self)@.showing(layer) }));
    }

    /// Switches between light and dark.
    pub fn toggle_theme(&mut self)
        ensures
            final(self)@ == (UiModel { theme: old(self)@.theme.flipped(), ..old(self)@ }),
    {
        self.theme = self.theme.toggled();
        assert(self@ == (UiModel { theme: old(self)@.theme.flipped(), ..old(self)@ }));
    }

    /// Notes that the settings could not be remembered.
    pub fn warn_memory(&mut self, error: &str)
        ensures
            final(self)@ == old(self)@.say(
                old(self)@.status + " Aviso: memória não salva: "@ + error@,
            ),
    {
        self.status.append(" Aviso: memória não salva: ");
        self.status.append(error);
        assert(self@ == old(self)@.say(
            old(self)@.status + " Aviso: memória não salva: "@ + error@,
        ));
    }

    /// What the status line says.
    pub fn status_text(&self) -> (status: &str)
        ensures
            status@ == self@.status_line(),
    {
        if self.status.as_str().is_empty() {
            "Pronto. Clique para selecionar; Shift adiciona; Ctrl segue uma faixa; Esc limpa."
        } else {
            self.status.as_str()
        }
    }

    /// What is said of the brush.
    pub fn brush_summary(&self) -> (summary: String)
        requires
            self@.brush_width * self@.brush_height <= usize::MAX,
        ensures
            summary@ == text::decimal(self@.brush_width as nat) + " × "@ + text::decimal(
                self@.brush_height as nat,
            ) + " = "@ + text::decimal((self@.brush_width * self@.brush_height) as nat)
                + " células. "@ + self@.brush_anchor.explanation(),
    {
        let mut summary = String::new();
        push_index(&mut summary, self.brush_width);
        summary.append(" × ");
        push_index(&mut summary, self.brush_height);
        summary.append(" = ");
        push_index(&mut summary, self.brush_width * self.brush_height);
        summary.append(" células. ");
        summary.append(self.brush_anchor.description());
        assert(summary@ =~= text::decimal(self@.brush_width as nat) + " × "@ + text::decimal(
            self@.brush_height as nat,
        ) + " = "@ + text::decimal((self@.brush_width * self@.brush_height) as nat)
            + " células. "@ + self@.brush_anchor.explanation());
        summary
    }
}

/// How the sides of a cell are told.
pub fn cell_tooltip(nswe: u8) -> (tooltip: String)
    ensures
        tooltip@ == "NSWE "@ + status::mask_digits(nswe & 15) + " — N "@ + status::side_state(
            nswe,
            Direction::North,
        ) + "  S "@ + status::side_state(nswe, Direction::South) + "  W "@ + status::side_state(
            nswe,
            Direction::West,
        ) + "  E "@ + status::side_state(nswe, Direction::East),
{
    let mut tooltip = "NSWE ".to_owned();
    push_mask(&mut tooltip, nswe & 15);
    tooltip.append(" — N ");
    tooltip.append(status::state_of(nswe, Direction::North));
    tooltip.append("  S ");
    tooltip.append(status::state_of(nswe, Direction::South));
    tooltip.append("  W ");
    tooltip.append(status::state_of(nswe, Direction::West));
    tooltip.append("  E ");
    tooltip.append(status::state_of(nswe, Direction::East));
    tooltip
}

/// How the format of a block is called.
pub open spec fn kind_name(kind: EditableBlockType) -> Seq<char> {
    match kind {
        EditableBlockType::Simple => "Simple"@,
        EditableBlockType::Complex => "Complex"@,
        EditableBlockType::Multilayer => "Multilayer"@,
    }
}

/// The format of the block of a cell. Off the map it counts as simple.
pub open spec fn kind_at(model: DocumentModel, x: int, y: int) -> EditableBlockType {
    if grid::block_on_map(x / 8, y / 8) {
        model.blocks[grid::block_number(x / 8, y / 8)].kind
    } else {
        EditableBlockType::Simple
    }
}

/// What is said of the block of the current cell.
pub open spec fn block_line(model: DocumentModel, ui: UiModel) -> Seq<char> {
    let x = ui.selected.x as int;
    let y = ui.selected.y as int;
    "Bloco "@ + text::decimal((x / 8) as nat) + ","@ + text::decimal((y / 8) as nat) + " · "@
        + kind_name(kind_at(model, x, y)) + if grid::block_on_map(x / 8, y / 8) && model.dirty(
        grid::block_number(x / 8, y / 8),
    ) {
        " · alterado"@
    } else {
        Seq::empty()
    }
}

/// The button that selects the cells of a block, by the format of the block.
pub open spec fn expand_caption(kind: EditableBlockType) -> Seq<char> {
    if kind == EditableBlockType::Simple {
        "Expandir bloco Simple em 64 células"@
    } else {
        "Selecionar as 64 células do bloco"@
    }
}

/// What is said of a save, with the name of the file.
pub open spec fn saved_report(
    name: Seq<char>,
    blocks: int,
    conversions: int,
    cells: int,
    directions: int,
    bytes: int,
) -> Seq<char> {
    "Salvo com sucesso: "@ + name + "\n"@ + text::decimal(blocks as nat) + " blocos, "@
        + text::decimal(conversions as nat) + " conversões, "@ + text::decimal(cells as nat)
        + " células, "@ + text::decimal(directions as nat) + " direções | "@ + text::decimal(
        bytes as nat,
    ) + " bytes"@
}

/// The name of a file that was saved.
pub open spec fn saved_name(path: Seq<char>) -> Seq<char> {
    match path::file_name_of(path) {
        Some(name) => name,
        None => "geodata.l2j"@,
    }
}

fn report_of(summary: &SaveSummary) -> (report: String)
    ensures
        report@ == saved_report(
            saved_name(summary.path@),
            summary.changed_blocks as int,
            summary.conversion_blocks as int,
            summary.changed_cells as int,
            summary.changed_directions as int,
            summary.bytes as int,
        ),
{
    let mut report = "Salvo com sucesso: ".to_owned();
    match path::file_name(summary.path.as_str()) {
        Some(name) => report.append(string_of(name.as_slice()).as_str()),
        None => report.append("geodata.l2j"),
    }
    report.append("\n");
    push_index(&mut report, summary.changed_blocks);
    report.append(" blocos, ");
    push_index(&mut report, summary.conversion_blocks);
    report.append(" conversões, ");
    push_decimal(&mut report, summary.changed_cells);
    report.append(" células, ");
    push_decimal(&mut report, summary.changed_directions);
    report.append(" direções | ");
    push_decimal(&mut report, summary.bytes);
    report.append(" bytes");
    report
}

impl Session {
    /// The format of the block of the current cell.
    pub fn current_kind(&self) -> (kind: EditableBlockType)
        requires
            self.well_formed(),
        ensures
            kind == kind_at(
                self@.document,
                self@.ui.selected.x as int,
                self@.ui.selected.y as int,
            ),
    {
        match self.document.block_type(self.ui.selected.x / 8, self.ui.selected.y / 8) {
            Some(kind) => kind,
            None => EditableBlockType::Simple,
        }
    }

    /// What is said of the block of the current cell.
    pub fn block_summary(&self) -> (summary: String)
        requires
            self.well_formed(),
        ensures
            summary@ == block_line(self@.document, self@.ui),
    {
        let x: usize = self.ui.selected.x / 8;
        let y: usize = self.ui.selected.y / 8;
        let mut summary = "Bloco ".to_owned();
        push_index(&mut summary, x);
        summary.append(",");
        push_index(&mut summary, y);
        summary.append(" · ");
        match self.current_kind() {
            EditableBlockType::Simple => summary.append("Simple"),
            EditableBlockType::Complex => summary.append("Complex"),
            EditableBlockType::Multilayer => summary.append("Multilayer"),
        }
        if self.document.is_block_dirty(x, y) {
            summary.append(" · alterado");
        }
        assert(summary@ =~= block_line(self@.document, self@.ui));
        summary
    }

    /// The button that selects the cells of the current block.
    pub fn expand_label(&self) -> (caption: &'static str)
        requires
            self.well_formed(),
        ensures
            caption@ == expand_caption(
                kind_at(
                    self@.document,
                    self@.ui.selected.x as int,
                    self@.ui.selected.y as int,
                ),
            ),
    {
        match self.current_kind() {
            EditableBlockType::Simple => "Expandir bloco Simple em 64 células",
            _ => "Selecionar as 64 células do bloco",
        }
    }

    /// Where the document is to be saved, or why it cannot be.
    pub fn save_opened_file(&mut self) -> (path: Option<String>)
        requires
            old(self).well_formed(),
        ensures
            final(self).well_formed(),
            match path {
                Some(path) => {
                    &&& old(self)@.ready()
                    &&& old(self)@.document.path == Some(path@)
                    &&& final(self)@ == old(self)@
                },
                None => final(self)@ == if !old(self)@.ready() {
                    old(self)@.say("Carregue um projeto antes de salvar."@)
                } else {
                    old(self)@.say(
                        "A geodata aberta não possui um arquivo de origem para salvar."@,
                    )
                } && (!old(self)@.ready() || old(self)@.document.path is None),
            },
    {
        if !self.loaded || !self.has_context {
            self.say("Carregue um projeto antes de salvar.");
            return None;
        }
        let path = match self.document.original_path() {
            Some(path) => Some(path.to_owned()),
            None => None,
        };
        if path.is_none() {
            self.say("A geodata aberta não possui um arquivo de origem para salvar.");
        }
        path
    }

    /// Notes that the document was saved.
    pub fn saved(&mut self, summary: &SaveSummary)
        requires
            old(self).well_formed(),
        ensures
            final(self).well_formed(),
            final(self)@ == old(self)@.say(
                saved_report(
                    saved_name(summary.path@),
                    summary.changed_blocks as int,
                    summary.conversion_blocks as int,
                    summary.changed_cells as int,
                    summary.changed_directions as int,
                    summary.bytes as int,
                ),
            ),
    {
        self.report(report_of(summary));
    }

    /// Notes that the document could not be saved.
    pub fn save_failed(&mut self, error: &str)
        requires
            old(self).well_formed(),
        ensures
            final(self).well_formed(),
            final(self)@ == old(self)@.say("Falha ao salvar: "@ + error@),
    {
        let mut message = "Falha ao salvar: ".to_owned();
        message.append(error);
        self.report(message);
    }
}

} // verus!
