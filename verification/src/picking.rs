//! What is selected, and how clicks change it.

use vstd::prelude::*;
use vstd::string::StringExecFns;

use crate::editor;
use crate::editor::EditorMemory;
use crate::l2j::block::LayerAddress;
use crate::l2j::document::{Document, DocumentModel};
use crate::l2j::grid;
use crate::line;
use crate::line::straight_line_selection;
use crate::overlay::AddressSet;
use crate::route;
use crate::route::flexible_line_selection;
use crate::selection;
use crate::selection::{block_layer_selection, brush_area_selection};
use crate::text;
use crate::text::{chars_of, push_decimal, string_of, trim_chars};
use crate::ui::{EditorUi, UiModel};

verus! {

/// The most cells that a rectangle adds to a selection.
pub const MAX_SELECTION: usize = 65_536;

/// What is left to the caller.
#[derive(Clone, Copy, Debug, PartialEq, Eq, Structural)]
pub enum Request {
    Nothing,
    /// The overlay has to be drawn again.
    Refresh,
    /// A project is to be opened.
    Open,
    /// The document is to be saved.
    Save,
}

/// The cells that an edit applies to: those selected, or the current one.
pub open spec fn targets(ui: UiModel) -> Seq<LayerAddress> {
    if ui.selection_hidden {
        Seq::empty()
    } else if ui.selection.len() > 0 {
        ui.selection
    } else {
        seq![LayerAddress { layer: ui.visible_layer, ..ui.selected }]
    }
}

/// The settings to remember.
pub open spec fn remembered(ui: UiModel) -> editor::MemoryModel {
    editor::MemoryModel {
        client_root: text::trimmed(ui.client_root),
        geodata_path: text::trimmed(ui.open_path),
        map_type: ui.map_type,
        theme: ui.theme,
    }
}

/// A selection while a rectangle is added to it: the cells, and whether the
/// limit stopped it.
#[verifier::ext_equal]
pub struct Growing {
    pub cells: Seq<LayerAddress>,
    pub limited: bool,
}

impl Growing {
    /// With a cell more, unless it is there or the limit is reached.
    pub open spec fn adding(self, cell: LayerAddress) -> Growing {
        if self.limited || self.cells.contains(cell) {
            self
        } else if self.cells.len() == MAX_SELECTION {
            Growing { limited: true, ..self }
        } else {
            Growing { cells: self.cells.push(cell), ..self }
        }
    }

    /// With the cells of a row more, up to one.
    pub open spec fn adding_row(
        self,
        model: DocumentModel,
        x: int,
        start: int,
        end: int,
        layer: int,
    ) -> Growing
        decreases end - start,
    {
        if end <= start {
            self
        } else {
            let y = end - 1;
            self.adding_row(model, x, start, end - 1, layer).adding(
                selection::address(x, y, selection::layer_in(model, x, y, layer)),
            )
        }
    }

    /// With the cells of rows more, up to one.
    pub open spec fn adding_rows(
        self,
        model: DocumentModel,
        start_x: int,
        end_x: int,
        start_y: int,
        end_y: int,
        layer: int,
    ) -> Growing
        decreases end_x - start_x,
    {
        if end_x <= start_x {
            self
        } else {
            self.adding_rows(model, start_x, end_x - 1, start_y, end_y, layer).adding_row(
                model,
                end_x - 1,
                start_y,
                end_y,
                layer,
            )
        }
    }
}

pub open spec fn lesser(a: usize, b: usize) -> int {
    if a < b {
        a as int
    } else {
        b as int
    }
}

/// Behind the greater of two coordinates, as far as the map goes.
pub open spec fn behind_greater(a: usize, b: usize) -> int {
    let greater = if a < b {
        b as int
    } else {
        a as int
    };
    if greater < 2_048 {
        greater + 1
    } else {
        2_048
    }
}

/// What a rectangle between two cells adds to a selection.
pub open spec fn with_rectangle(
    model: DocumentModel,
    cells: Seq<LayerAddress>,
    start: LayerAddress,
    end: LayerAddress,
) -> Growing {
    Growing { cells, limited: false }.adding_rows(
        model,
        lesser(start.x, end.x),
        behind_greater(start.x, end.x),
        lesser(start.y, end.y),
        behind_greater(start.y, end.y),
        end.layer as int,
    )
}

/// A selection with a cell switched. The last cell stays.
pub open spec fn switched(cells: Seq<LayerAddress>, cell: LayerAddress) -> Seq<LayerAddress> {
    if !cells.contains(cell) {
        cells.push(cell)
    } else if cells.len() > 1 {
        cells.remove(cells.index_of_first(cell)->0)
    } else {
        cells
    }
}

impl UiModel {
    /// With a message.
    pub open spec fn say(self, message: Seq<char>) -> UiModel {
        UiModel { status: message, ..self }
    }

    /// With the area of the brush around a cell selected.
    pub open spec fn with_brush(self, model: DocumentModel, center: LayerAddress) -> (UiModel, Request) {
        let cells = selection::brushed(
            model,
            center,
            self.brush_width as int,
            self.brush_height as int,
            self.brush_anchor,
            self.hide_fully_open_blocks,
        );
        if cells.len() == 0 {
            (
                self.say("O pincel não encontrou células editáveis nessa área."@),
                Request::Nothing,
            )
        } else {
            let ui = UiModel {
                selected: center,
                visible_layer: center.layer,
                selection: cells,
                selection_hidden: false,
                rectangle_start: None,
                line_start: None,
                height_input_address: None,
                status: "Área "@ + text::decimal(self.brush_width as nat) + " × "@
                    + text::decimal(self.brush_height as nat) + " ("@
                    + self.brush_anchor.title() + ") selecionada: "@ + text::decimal(
                    cells.len(),
                ) + " células."@,
                ..self
            };
            (ui, Request::Refresh)
        }
    }

    /// With the cells of the current block in the visible layer selected, and
    /// how many there are.
    pub open spec fn with_block_cells(self, model: DocumentModel) -> (UiModel, int) {
        let x = self.selected.x as int / 8;
        let y = self.selected.y as int / 8;
        let layer = self.visible_layer;
        let cells = if grid::block_on_map(x, y) {
            selection::block_cells(model, 8 * x, 8 * y, layer as int, 64)
        } else {
            Seq::empty()
        };
        let block = "loco "@ + text::decimal(x as nat) + ","@ + text::decimal(y as nat);
        if cells.len() == 0 {
            (
                self.say(
                    "O b"@ + block + " não possui a camada L"@ + text::decimal(layer as nat)
                        + " para selecionar."@,
                ),
                0,
            )
        } else {
            let ui = UiModel {
                selected: cells[0],
                height_input_address: None,
                selection: cells,
                selection_hidden: false,
                rectangle_start: None,
                line_start: None,
                status: "B"@ + block + " expandido: "@ + text::decimal(cells.len())
                    + " células selecionadas na camada L"@ + text::decimal(layer as nat)
                    + ". Escolha um preset de passabilidade para aplicar."@,
                ..self
            };
            (ui, cells.len() as int)
        }
    }

    /// With the height of the current cell in the height field.
    pub open spec fn with_height_input(self, model: DocumentModel) -> UiModel {
        if self.height_input_address == Some(self.selected) {
            self
        } else {
            let cell = self.selected;
            match model.cell(cell.x as int, cell.y as int, cell.layer as int) {
                Some(layer) => UiModel {
                    height_input: layer.height as i32,
                    height_input_address: Some(cell),
                    ..self
                },
                None => UiModel { height_input_address: None, ..self },
            }
        }
    }

    /// Without a selection.
    pub open spec fn cleared(self, ready: bool) -> (UiModel, Request) {
        if self.selection_hidden || !ready {
            (self, Request::Nothing)
        } else {
            let ui = UiModel {
                selection_hidden: true,
                selection: Seq::empty(),
                rectangle_start: None,
                line_start: None,
                pending_plain_selection: false,
                status: "Seleção removida."@,
                ..self
            };
            (ui, Request::Refresh)
        }
    }

    /// What a selection starts with when something is added to it.
    pub open spec fn base_selection(self) -> Seq<LayerAddress> {
        if self.selection.len() == 0 && !self.selection_hidden {
            seq![self.selected]
        } else {
            self.selection
        }
    }

    /// With the rectangle between two cells added to the selection.
    pub open spec fn with_rectangle(
        self,
        model: DocumentModel,
        start: LayerAddress,
        end: LayerAddress,
    ) -> UiModel {
        let grown = with_rectangle(model, self.base_selection(), start, end);
        let count = text::decimal(grown.cells.len());
        let ui = UiModel {
            selection: grown.cells,
            selection_hidden: false,
            selected: end,
            visible_layer: end.layer,
            status: if grown.limited {
                "Seleção limitada a 65.536 células ("@ + count + " selecionadas)."@
            } else {
                count + " células selecionadas."@
            },
            ..self
        };
        ui
    }

    /// With a cell added to the selection or taken out of it.
    pub open spec fn with_toggled(self, cell: LayerAddress) -> UiModel {
        let base = if self.selection_hidden {
            Seq::empty()
        } else {
            self.base_selection()
        };
        let cells = switched(base, cell);
        let ui = UiModel {
            selection: cells,
            selection_hidden: false,
            selected: cell,
            visible_layer: cell.layer,
            status: text::decimal(cells.len()) + " células selecionadas."@,
            ..self
        };
        ui
    }

    /// The cells between the ends of a line, and whether they follow a strip.
    pub open spec fn line_cells(
        self,
        model: DocumentModel,
        start: LayerAddress,
        end: LayerAddress,
    ) -> (Seq<LayerAddress>, bool) {
        match route::routed(model, start, end) {
            Some(cells) => (cells, true),
            None => {
                let cells = line::line_cells(start, end);
                (line::picked(model, cells, end.layer as int, cells.len()), false)
            },
        }
    }

    /// With an end of a line: the first one starts it, the second one selects
    /// what lies between.
    pub open spec fn with_line_end(self, model: DocumentModel, cell: LayerAddress) -> UiModel {
        let ui = match self.line_start {
            None => UiModel {
                selection_hidden: false,
                line_start: Some(cell),
                selected: cell,
                visible_layer: cell.layer,
                selection: seq![cell],
                status: "Início da linha: Geo "@ + text::decimal(cell.x as nat) + ","@
                    + text::decimal(cell.y as nat)
                    + ". Com Ctrl pressionado, clique no fim."@,
                ..self
            },
            Some(start) => {
                let (cells, strip) = self.line_cells(model, start, cell);
                UiModel {
                    selection_hidden: false,
                    line_start: None,
                    selected: cell,
                    visible_layer: cell.layer,
                    selection: cells,
                    status: (if strip {
                        "Faixa contínua selecionada"@
                    } else {
                        "Linha direta selecionada"@
                    }) + ": Geo "@ + text::decimal(start.x as nat) + ","@ + text::decimal(
                        start.y as nat,
                    ) + " → "@ + text::decimal(cell.x as nat) + ","@ + text::decimal(
                        cell.y as nat,
                    ) + " ("@ + text::decimal(cells.len()) + " células)."@,
                    ..self
                }
            },
        };
        ui
    }
}

/// Appends a number.
pub fn push_index(target: &mut String, value: usize)
    ensures
        final(target)@ == old(target)@ + text::decimal(value as nat),
{
    push_decimal(target, value as u64);
}

fn push_place(target: &mut String, x: usize, y: usize)
    ensures
        final(target)@ == old(target)@ + text::decimal(x as nat) + ","@ + text::decimal(y as nat),
{
    push_index(target, x);
    target.append(",");
    push_index(target, y);
}

fn copy_cells(cells: &Vec<LayerAddress>) -> (result: Vec<LayerAddress>)
    ensures
        result@ == cells@,
{
    vstd::slice::slice_to_vec(cells.as_slice())
}

fn add_rectangle(
    document: &Document,
    selection: &mut Vec<LayerAddress>,
    start: LayerAddress,
    end: LayerAddress,
) -> (limited: bool)
    requires
        document.well_formed(),
    ensures
        ({
            let grown = with_rectangle(document@, old(selection)@, start, end);
            final(selection)@ == grown.cells && limited == grown.limited
        }),
{
    let start_x: usize = if start.x < end.x {
        start.x
    } else {
        end.x
    };
    let start_y: usize = if start.y < end.y {
        start.y
    } else {
        end.y
    };
    let last_x: usize = if start.x < end.x {
        end.x
    } else {
        start.x
    };
    let last_y: usize = if start.y < end.y {
        end.y
    } else {
        start.y
    };
    let end_x: usize = if last_x < 2_048 {
        last_x + 1
    } else {
        2_048
    };
    let end_y: usize = if last_y < 2_048 {
        last_y + 1
    } else {
        2_048
    };
    let ghost first = Growing { cells: selection@, limited: false };
    let mut known = AddressSet::new();
    let mut next: usize = 0;
    assert(selection@.take(0).to_set() =~= Set::empty());
    while next < selection.len()
        invariant
            next <= selection@.len(),
            known.well_formed(),
            selection@ == old(selection)@,
            known@ == selection@.take(next as int).to_set(),
        decreases selection.len() - next,
    {
        let ghost before = selection@.take(next as int);
        let _added = known.insert(selection[next]);
        next += 1;
        assert(selection@.take(next as int) =~= before.push(selection@[next - 1]));
        assert(known@ =~= selection@.take(next as int).to_set()) by {
            lemma_pushed(before, selection@[next - 1]);
        }
    }
    assert(selection@.take(next as int) =~= selection@);
    let mut limited = false;
    let mut x: usize = start_x;
    while x < end_x && !limited
        invariant
            start_x <= x,
            x <= end_x || x == start_x,
            end_x <= 2_048,
            end_y <= 2_048,
            document.well_formed(),
            known.well_formed(),
            !limited ==> known@ == selection@.to_set(),
            limited ==> x <= end_x,
            (Growing { cells: selection@, limited }) == first.adding_rows(
                document@,
                start_x as int,
                x as int,
                start_y as int,
                end_y as int,
                end.layer as int,
            ),
        decreases end_x - x,
    {
        let ghost before = Growing { cells: selection@, limited };
        let mut y: usize = start_y;
        while y < end_y && !limited
            invariant
                x < end_x,
                start_y <= y,
                y <= end_y || y == start_y,
                end_x <= 2_048,
                end_y <= 2_048,
                document.well_formed(),
                known.well_formed(),
                !limited ==> known@ == selection@.to_set(),
                limited ==> y <= end_y,
                (Growing { cells: selection@, limited }) == before.adding_row(
                    document@,
                    x as int,
                    start_y as int,
                    y as int,
                    end.layer as int,
                ),
            decreases end_y - y,
        {
            let ghost held = Growing { cells: selection@, limited };
            let count: usize = match document.layer_count(x, y) {
                Some(count) => count,
                None => vstd::pervasive::unreached(),
            };
            proof {
                document.lemma_column_size(x as int, y as int);
            }
            let layer: usize = if end.layer < count {
                end.layer
            } else {
                count - 1
            };
            let cell = LayerAddress::new(x, y, layer);
            let ghost cells = selection@;
            if known.insert(cell) {
                if selection.len() == MAX_SELECTION {
                    limited = true;
                } else {
                    selection.push(cell);
                    proof {
                        lemma_pushed(cells, cell);
                    }
                }
            } else {
                assert(known@ =~= cells.to_set());
            }
            assert(cells.to_set().contains(cell) == cells.contains(cell));
            y += 1;
            assert(Growing { cells: selection@, limited } == held.adding(cell));
        }
        proof {
            lemma_row_limited(
                before,
                document@,
                x as int,
                start_y as int,
                y as int,
                end_y as int,
                end.layer as int,
            );
        }
        x += 1;
    }
    proof {
        lemma_rows_limited(
            first,
            document@,
            start_x as int,
            x as int,
            end_x as int,
            start_y as int,
            end_y as int,
            end.layer as int,
        );
    }
    limited
}

proof fn lemma_pushed(cells: Seq<LayerAddress>, cell: LayerAddress)
    ensures
        cells.push(cell).to_set() == cells.to_set().insert(cell),
{
    let longer = cells.push(cell);
    assert forall|other: LayerAddress| longer.to_set().contains(other) == cells.to_set().insert(
        cell,
    ).contains(other) by {
        if cells.to_set().contains(other) {
            let i = choose|i: int| 0 <= i < cells.len() && cells[i] == other;
            assert(longer[i] == other);
        }
        if other == cell {
            assert(longer[cells.len() as int] == cell);
        }
        if longer.to_set().contains(other) {
            let i = choose|i: int| 0 <= i < longer.len() && longer[i] == other;
            if i < cells.len() {
                assert(cells[i] == other);
            }
        }
    }
    assert(longer.to_set() =~= cells.to_set().insert(cell));
}

/// Behind the limit nothing is added to a row.
proof fn lemma_row_limited(
    growing: Growing,
    model: DocumentModel,
    x: int,
    start: int,
    middle: int,
    end: int,
    layer: int,
)
    requires
        middle <= end || middle == start,
        middle < end ==> growing.adding_row(model, x, start, middle, layer).limited,
    ensures
        growing.adding_row(model, x, start, end, layer) == growing.adding_row(
            model,
            x,
            start,
            middle,
            layer,
        ),
    decreases end - middle,
{
    if start < end && middle < end {
        lemma_row_limited(growing, model, x, start, middle, end - 1, layer);
    }
}

proof fn lemma_limited_row(
    growing: Growing,
    model: DocumentModel,
    x: int,
    start: int,
    end: int,
    layer: int,
)
    requires
        growing.limited,
    ensures
        growing.adding_row(model, x, start, end, layer) == growing,
    decreases end - start,
{
    if start < end {
        lemma_limited_row(growing, model, x, start, end - 1, layer);
    }
}

/// Behind the limit no row is added.
proof fn lemma_rows_limited(
    growing: Growing,
    model: DocumentModel,
    start_x: int,
    middle: int,
    end_x: int,
    start_y: int,
    end_y: int,
    layer: int,
)
    requires
        middle <= end_x || middle == start_x,
        middle < end_x ==> growing.adding_rows(
            model,
            start_x,
            middle,
            start_y,
            end_y,
            layer,
        ).limited,
    ensures
        growing.adding_rows(model, start_x, end_x, start_y, end_y, layer) == growing.adding_rows(
            model,
            start_x,
            middle,
            start_y,
            end_y,
            layer,
        ),
    decreases end_x - middle,
{
    if start_x < end_x && middle < end_x {
        lemma_rows_limited(
            growing,
            model,
            start_x,
            middle,
            end_x - 1,
            start_y,
            end_y,
            layer,
        );
        lemma_limited_row(
            growing.adding_rows(model, start_x, end_x - 1, start_y, end_y, layer),
            model,
            end_x - 1,
            start_y,
            end_y,
            layer,
        );
    }
}

fn switch_cell(cells: &mut Vec<LayerAddress>, cell: LayerAddress)
    ensures
        final(cells)@ == switched(old(cells)@, cell),
{
    let mut index: usize = 0;
    while index < cells.len()
        invariant
            index <= cells@.len(),
            cells@ == old(cells)@,
            forall|i: int| 0 <= i < index ==> #[trigger] cells@[i] != cell,
        decreases cells.len() - index,
    {
        let other = cells[index];
        if other.x == cell.x && other.y == cell.y && other.layer == cell.layer {
            proof {
                assert(cells@[index as int] == cell);
                assert(cells@.contains(cell));
                cells@.index_of_first_ensures(cell);
                let first = cells@.index_of_first(cell)->0;
                if first < index {
                    assert(cells@[first] != cell);
                }
            }
            if cells.len() > 1 {
                let _removed = cells.remove(index);
            }
            return;
        }
        index += 1;
    }
    cells.push(cell);
}

impl EditorUi {
    /// Shows a message.
    pub fn show(&mut self, message: &str)
        ensures
            final(self)@ == old(self)@.say(message@),
    {
        self.status = message.to_owned();
        assert(self@ == old(self)@.say(message@));
    }

    /// Shows a message that was put together.
    pub fn tell(&mut self, message: String)
        ensures
            final(self)@ == old(self)@.say(message@),
    {
        self.status = message;
        assert(self@ == old(self)@.say(message@));
    }

    /// The cells that an edit applies to.
    pub fn edit_targets(&self) -> (cells: Vec<LayerAddress>)
        ensures
            cells@ == targets(self@),
    {
        if self.selection_hidden {
            return Vec::new();
        }
        if self.selection.len() > 0 {
            return copy_cells(&self.selection);
        }
        let mut cells: Vec<LayerAddress> = Vec::new();
        cells.push(
            LayerAddress::new(self.selected.x, self.selected.y, self.visible_layer),
        );
        assert(cells@ =~= targets(self@));
        cells
    }

    /// Selects the area of the brush around a cell.
    pub fn select_brush_area(&mut self, document: &Document, center: LayerAddress) -> (request: Request)
        requires
            document.well_formed(),
        ensures
            (final(self)@, request) == old(self)@.with_brush(document@, center),
    {
        let cells = brush_area_selection(
            document,
            center,
            self.brush_width,
            self.brush_height,
            self.brush_anchor,
            self.hide_fully_open_blocks,
        );
        if cells.len() == 0 {
            self.show("O pincel não encontrou células editáveis nessa área.");
            return Request::Nothing;
        }
        let mut message = "Área ".to_owned();
        push_index(&mut message, self.brush_width);
        message.append(" × ");
        push_index(&mut message, self.brush_height);
        message.append(" (");
        message.append(self.brush_anchor.label());
        message.append(") selecionada: ");
        push_index(&mut message, cells.len());
        message.append(" células.");
        self.selected = center;
        self.visible_layer = center.layer;
        self.selection = cells;
        self.selection_hidden = false;
        self.rectangle_start = None;
        self.line_start = None;
        self.height_input_address = None;
        self.status = message;
        assert(self@ == old(self)@.with_brush(document@, center).0);
        Request::Refresh
    }

    /// Selects the cells of the current block in the visible layer.
    pub fn select_current_block_cells(&mut self, document: &Document) -> (count: usize)
        requires
            document.well_formed(),
        ensures
            final(self)@ == old(self)@.with_block_cells(document@).0,
            count == old(self)@.with_block_cells(document@).1,
    {
        let x: usize = self.selected.x / 8;
        let y: usize = self.selected.y / 8;
        let layer: usize = self.visible_layer;
        let cells = block_layer_selection(document, x, y, layer);
        let mut block = "loco ".to_owned();
        push_place(&mut block, x, y);
        if cells.len() == 0 {
            let mut message = "O b".to_owned();
            message.append(block.as_str());
            message.append(" não possui a camada L");
            push_index(&mut message, layer);
            message.append(" para selecionar.");
            self.tell(message);
            return 0;
        }
        let count: usize = cells.len();
        let mut message = "B".to_owned();
        message.append(block.as_str());
        message.append(" expandido: ");
        push_index(&mut message, count);
        message.append(" células selecionadas na camada L");
        push_index(&mut message, layer);
        message.append(". Escolha um preset de passabilidade para aplicar.");
        self.selected = cells[0];
        self.height_input_address = None;
        self.selection = cells;
        self.selection_hidden = false;
        self.rectangle_start = None;
        self.line_start = None;
        self.status = message;
        assert(self@ == old(self)@.with_block_cells(document@).0);
        count
    }

    /// Takes the height of the current cell into the height field.
    pub fn sync_height_input(&mut self, document: &Document)
        requires
            document.well_formed(),
        ensures
            final(self)@ == old(self)@.with_height_input(document@),
    {
        let cell = self.selected;
        if let Some(address) = self.height_input_address {
            if address.x == cell.x && address.y == cell.y && address.layer == cell.layer {
                return;
            }
        }
        match document.cell(cell) {
            Some(layer) => {
                self.height_input = layer.height as i32;
                self.height_input_address = Some(cell);
            },
            None => {
                self.height_input_address = None;
            },
        }
        assert(self@ == old(self)@.with_height_input(document@));
    }

    /// Takes the selection away.
    pub fn clear_active_selection(&mut self, ready: bool) -> (request: Request)
        ensures
            (final(self)@, request) == old(self)@.cleared(ready),
    {
        if self.selection_hidden || !ready {
            return Request::Nothing;
        }
        self.selection_hidden = true;
        self.selection = Vec::new();
        self.rectangle_start = None;
        self.line_start = None;
        self.pending_plain_selection = false;
        self.status = "Seleção removida.".to_owned();
        assert(self@ == old(self)@.cleared(ready).0);
        Request::Refresh
    }

    /// Adds the rectangle between two cells to the selection.
    pub fn select_rectangle(&mut self, document: &Document, start: LayerAddress, end: LayerAddress)
        requires
            document.well_formed(),
        ensures
            final(self)@ == old(self)@.with_rectangle(document@, start, end),
    {
        let mut cells = copy_cells(&self.selection);
        if cells.len() == 0 && !self.selection_hidden {
            cells.push(self.selected);
        }
        assert(cells@ =~= self@.base_selection());
        let limited = add_rectangle(document, &mut cells, start, end);
        let mut message = String::new();
        if limited {
            message.append("Seleção limitada a 65.536 células (");
            push_index(&mut message, cells.len());
            message.append(" selecionadas).");
            assert(message@ =~= "Seleção limitada a 65.536 células ("@ + text::decimal(
                cells@.len(),
            ) + " selecionadas)."@);
        } else {
            push_index(&mut message, cells.len());
            message.append(" células selecionadas.");
            assert(message@ =~= text::decimal(cells@.len()) + " células selecionadas."@);
        }
        self.selection = cells;
        self.selection_hidden = false;
        self.selected = end;
        self.visible_layer = end.layer;
        self.status = message;
        assert(self@ == old(self)@.with_rectangle(document@, start, end));
    }

    /// Adds a cell to the selection or takes it out.
    pub fn toggle_selection(&mut self, cell: LayerAddress)
        ensures
            final(self)@ == old(self)@.with_toggled(cell),
    {
        let mut cells: Vec<LayerAddress> = if self.selection_hidden {
            Vec::new()
        } else {
            copy_cells(&self.selection)
        };
        if cells.len() == 0 && !self.selection_hidden {
            cells.push(self.selected);
            assert(cells@ =~= seq![self.selected]);
        }
        switch_cell(&mut cells, cell);
        let mut message = String::new();
        push_index(&mut message, cells.len());
        message.append(" células selecionadas.");
        assert(message@ =~= text::decimal(cells@.len()) + " células selecionadas."@);
        self.selection = cells;
        self.selection_hidden = false;
        self.selected = cell;
        self.visible_layer = cell.layer;
        self.status = message;
        assert(self@ == old(self)@.with_toggled(cell));
    }

    fn start_line(&mut self, document: &Document, cell: LayerAddress)
        requires
            document.well_formed(),
            old(self).line_start is None,
        ensures
            final(self)@ == old(self)@.with_line_end(document@, cell),
    {
        let mut message = "Início da linha: Geo ".to_owned();
        push_place(&mut message, cell.x, cell.y);
        message.append(". Com Ctrl pressionado, clique no fim.");
        let mut cells: Vec<LayerAddress> = Vec::new();
        cells.push(cell);
        assert(cells@ =~= seq![cell]);
        self.selection_hidden = false;
        self.line_start = Some(cell);
        self.selected = cell;
        self.visible_layer = cell.layer;
        self.selection = cells;
        self.status = message;
        assert(self@ == old(self)@.with_line_end(document@, cell));
    }

    fn end_line(&mut self, document: &Document, start: LayerAddress, cell: LayerAddress)
        requires
            document.well_formed(),
            old(self).line_start == Some(start),
        ensures
            final(self)@ == old(self)@.with_line_end(document@, cell),
    {
        let (cells, strip) = match flexible_line_selection(document, start, cell) {
            Some(cells) => (cells, true),
            None => (straight_line_selection(document, start, cell), false),
        };
        let mut message = if strip {
            "Faixa contínua selecionada".to_owned()
        } else {
            "Linha direta selecionada".to_owned()
        };
        message.append(": Geo ");
        push_place(&mut message, start.x, start.y);
        message.append(" → ");
        push_place(&mut message, cell.x, cell.y);
        message.append(" (");
        push_index(&mut message, cells.len());
        message.append(" células).");
        self.selection_hidden = false;
        self.line_start = None;
        self.selected = cell;
        self.visible_layer = cell.layer;
        self.selection = cells;
        self.status = message;
        assert(self@ == old(self)@.with_line_end(document@, cell));
    }

    /// Starts a line at a cell, or selects the line that ends there.
    pub fn select_line_endpoint(&mut self, document: &Document, cell: LayerAddress)
        requires
            document.well_formed(),
        ensures
            final(self)@ == old(self)@.with_line_end(document@, cell),
    {
        match self.line_start {
            None => self.start_line(document, cell),
            Some(start) => self.end_line(document, start, cell),
        }
    }

    /// The settings to remember.
    pub fn memory(&self) -> (memory: EditorMemory)
        ensures
            memory@ == remembered(self@),
    {
        let root = chars_of(self.client_root.as_str());
        let path = chars_of(self.open_path.as_str());
        EditorMemory {
            client_root: string_of(trim_chars(root.as_slice())),
            geodata_path: string_of(trim_chars(path.as_slice())),
            map_type: self.map_type,
            theme: self.theme,
        }
    }
}

} // verus!
