//! What the editor shows and has selected.

use vstd::prelude::*;
use vstd::string::StringExecFns;

use crate::editor::{EditorTheme, MapType};
use crate::l2j::block::LayerAddress;
use crate::selection::BrushAnchor;

verus! {

/// Waiting for an answer: the client lacks the package that was asked for, but
/// has the one of the other flavour.
#[derive(Clone, Debug, PartialEq, Eq)]
pub struct PendingFlavour {
    /// Package the current selection asked for, and which is absent.
    pub missing: String,
    /// Package that does exist, and the flavour it belongs to.
    pub available: String,
    pub available_type: MapType,
}

/// What a [`PendingFlavour`] holds.
#[verifier::ext_equal]
pub struct FlavourModel {
    pub missing: Seq<char>,
    pub available: Seq<char>,
    pub available_type: MapType,
}

impl View for PendingFlavour {
    type V = FlavourModel;

    open spec fn view(&self) -> FlavourModel {
        FlavourModel {
            missing: self.missing@,
            available: self.available@,
            available_type: self.available_type,
        }
    }
}

impl PendingFlavour {
    /// What to ask the user.
    pub fn question(&self) -> (question: String)
        ensures
            question@ == "O mapa "@ + self@.missing + " não existe, mas o "@ + self@.available
                + " existe. Quer usar ele?"@,
    {
        let mut question = "O mapa ".to_owned();
        question.append(self.missing.as_str());
        question.append(" não existe, mas o ");
        question.append(self.available.as_str());
        question.append(" existe. Quer usar ele?");
        question
    }
}

/// The settings and the selection that the editor works with.
#[derive(Clone, Debug)]
pub struct EditorUi {
    pub open_path: String,
    pub selection_hidden: bool,
    pub client_root: String,
    pub map_type: MapType,
    pub theme: EditorTheme,
    pub selected: LayerAddress,
    pub selection: Vec<LayerAddress>,
    pub rectangle_start: Option<LayerAddress>,
    pub line_start: Option<LayerAddress>,
    pub pending_plain_selection: bool,
    pub visible_layer: usize,
    pub brush_width: usize,
    pub brush_height: usize,
    pub brush_anchor: BrushAnchor,
    pub visual_stride: usize,
    pub show_nswe_icons: bool,
    pub textured_view: bool,
    pub show_selected_layer_only: bool,
    pub show_all_open_cells: bool,
    pub hide_fully_open_blocks: bool,
    /// Hides every geodata overlay so only the map itself is visible.
    pub hide_all_blocks: bool,
    /// Waiting for the user to accept the other client flavour for the
    /// selected region.
    pub pending_flavour: Option<PendingFlavour>,
    pub open_context_radius: usize,
    pub height_input: i32,
    pub height_input_address: Option<LayerAddress>,
    pub keyboard_height_adjust: bool,
    pub status: String,
}

/// What an [`EditorUi`] holds.
#[verifier::ext_equal]
pub struct UiModel {
    pub open_path: Seq<char>,
    pub selection_hidden: bool,
    pub client_root: Seq<char>,
    pub map_type: MapType,
    pub theme: EditorTheme,
    pub selected: LayerAddress,
    pub selection: Seq<LayerAddress>,
    pub rectangle_start: Option<LayerAddress>,
    pub line_start: Option<LayerAddress>,
    pub pending_plain_selection: bool,
    pub visible_layer: usize,
    pub brush_width: usize,
    pub brush_height: usize,
    pub brush_anchor: BrushAnchor,
    pub visual_stride: usize,
    pub show_nswe_icons: bool,
    pub textured_view: bool,
    pub show_selected_layer_only: bool,
    pub show_all_open_cells: bool,
    pub hide_fully_open_blocks: bool,
    pub hide_all_blocks: bool,
    pub pending_flavour: Option<FlavourModel>,
    pub open_context_radius: usize,
    pub height_input: i32,
    pub height_input_address: Option<LayerAddress>,
    pub keyboard_height_adjust: bool,
    pub status: Seq<char>,
}

impl View for EditorUi {
    type V = UiModel;

    open spec fn view(&self) -> UiModel {
        UiModel {
            open_path: self.open_path@,
            selection_hidden: self.selection_hidden,
            client_root: self.client_root@,
            map_type: self.map_type,
            theme: self.theme,
            selected: self.selected,
            selection: self.selection@,
            rectangle_start: self.rectangle_start,
            line_start: self.line_start,
            pending_plain_selection: self.pending_plain_selection,
            visible_layer: self.visible_layer,
            brush_width: self.brush_width,
            brush_height: self.brush_height,
            brush_anchor: self.brush_anchor,
            visual_stride: self.visual_stride,
            show_nswe_icons: self.show_nswe_icons,
            textured_view: self.textured_view,
            show_selected_layer_only: self.show_selected_layer_only,
            show_all_open_cells: self.show_all_open_cells,
            hide_fully_open_blocks: self.hide_fully_open_blocks,
            hide_all_blocks: self.hide_all_blocks,
            pending_flavour: match self.pending_flavour {
                Some(flavour) => Some(flavour@),
                None => None,
            },
            open_context_radius: self.open_context_radius,
            height_input: self.height_input,
            height_input_address: self.height_input_address,
            keyboard_height_adjust: self.keyboard_height_adjust,
            status: self.status@,
        }
    }
}

impl UiModel {
    /// Nothing set and nothing selected.
    pub open spec fn empty() -> UiModel {
        UiModel {
            open_path: Seq::empty(),
            selection_hidden: false,
            client_root: Seq::empty(),
            map_type: MapType::Classic,
            theme: EditorTheme::Dark,
            selected: LayerAddress { x: 0, y: 0, layer: 0 },
            selection: Seq::empty(),
            rectangle_start: None,
            line_start: None,
            pending_plain_selection: false,
            visible_layer: 0,
            brush_width: 0,
            brush_height: 0,
            brush_anchor: BrushAnchor::Center,
            visual_stride: 0,
            show_nswe_icons: false,
            textured_view: false,
            show_selected_layer_only: false,
            show_all_open_cells: false,
            hide_fully_open_blocks: false,
            hide_all_blocks: false,
            pending_flavour: None,
            open_context_radius: 0,
            height_input: 0,
            height_input_address: None,
            keyboard_height_adjust: false,
            status: Seq::empty(),
        }
    }

    /// What edits and counts apply to: the cells selected, or the current one.
    pub open spec fn active_count(self) -> int {
        if self.selection_hidden {
            0
        } else if self.selection.len() < 1 {
            1
        } else {
            self.selection.len() as int
        }
    }
}

impl Default for EditorUi {
    fn default() -> (ui: Self)
        ensures
            ui@ == UiModel::empty(),
    {
        let ui = EditorUi {
            open_path: String::new(),
            selection_hidden: false,
            client_root: String::new(),
            map_type: MapType::Classic,
            theme: EditorTheme::Dark,
            selected: LayerAddress::new(0, 0, 0),
            selection: Vec::new(),
            rectangle_start: None,
            line_start: None,
            pending_plain_selection: false,
            visible_layer: 0,
            brush_width: 0,
            brush_height: 0,
            brush_anchor: BrushAnchor::Center,
            visual_stride: 0,
            show_nswe_icons: false,
            textured_view: false,
            show_selected_layer_only: false,
            show_all_open_cells: false,
            hide_fully_open_blocks: false,
            hide_all_blocks: false,
            pending_flavour: None,
            open_context_radius: 0,
            height_input: 0,
            height_input_address: None,
            keyboard_height_adjust: false,
            status: String::new(),
        };
        assert(ui@ =~= UiModel::empty());
        ui
    }
}

/// How many cells the selection counts.
pub fn editor_active_selection_count(ui: &EditorUi) -> (count: usize)
    ensures
        count == ui@.active_count(),
{
    if ui.selection_hidden {
        0
    } else if ui.selection.len() < 1 {
        1
    } else {
        ui.selection.len()
    }
}

} // verus!
