//! The coloured cells and the status glyphs of an area of the map.

use vstd::prelude::*;

use crate::l2j::block::{
    EditableBlockType, Layer, LayerAddress, BLOCKS_PER_AXIS, NULL_HEIGHT,
};
use crate::l2j::document::{Document, DocumentModel};
use crate::l2j::{document, grid};
use crate::overlay;
use crate::overlay::{EditorOverlayOptions, EditorSelectionLookup, LookupModel};
use crate::selection;
use crate::selection::layer_is_fully_open;
use crate::ui::EditorUi;

verus! {

/// How much ground a drawn cell covers: a whole simple block, the square that a
/// coarse sample stands for, or one cell.
#[derive(Clone, Copy, Debug, PartialEq, Eq, Structural)]
pub enum Footprint {
    Block,
    Sample(usize),
    Cell,
}

/// A layer that is drawn.
#[derive(Clone, Copy, Debug, PartialEq, Eq, Structural)]
pub struct OverlayCell {
    pub x: usize,
    pub y: usize,
    pub cell: Layer,
    pub footprint: Footprint,
    pub selected: bool,
}

/// A coloured quad.
#[derive(Clone, Copy, Debug, PartialEq, Eq)]
pub struct GeodataCell {
    pub x: usize,
    pub y: usize,
    pub height: i16,
    pub footprint: Footprint,
    pub color: [u8; 4],
}

/// A status glyph.
#[derive(Clone, Copy, Debug, PartialEq, Eq, Structural)]
pub struct NsweIconCell {
    pub x: usize,
    pub y: usize,
    pub height: i16,
    pub footprint: Footprint,
    pub mask: u8,
}

/// What the overlay was drawn with.
pub struct OverlaySnapshot {
    pub stride: usize,
    pub visibility: EditorOverlayOptions,
    pub selection: EditorSelectionLookup,
}

/// What an [`OverlaySnapshot`] holds.
#[verifier::ext_equal]
pub struct SnapshotModel {
    pub stride: int,
    pub visibility: EditorOverlayOptions,
    pub lookup: LookupModel,
}

impl View for OverlaySnapshot {
    type V = SnapshotModel;

    open spec fn view(&self) -> SnapshotModel {
        SnapshotModel {
            stride: self.stride as int,
            visibility: self.visibility,
            lookup: self.selection@,
        }
    }
}

impl SnapshotModel {
    /// The overlay that a state of the editor asks for.
    pub open spec fn of(model: DocumentModel, ui: crate::ui::UiModel) -> SnapshotModel {
        let chosen = if ui.selection_hidden {
            Seq::empty()
        } else if ui.selection.len() == 0 {
            seq![ui.selected]
        } else {
            ui.selection
        };
        SnapshotModel {
            stride: if ui.visual_stride < 1 {
                1
            } else {
                ui.visual_stride as int
            },
            visibility: EditorOverlayOptions {
                selected: LayerAddress { layer: ui.visible_layer, ..ui.selected },
                open_context_radius: ui.open_context_radius,
                show_all_open_cells: ui.show_all_open_cells,
                hide_fully_open_blocks: ui.hide_fully_open_blocks,
                show_selected_layer_only: ui.show_selected_layer_only,
            },
            lookup: LookupModel::of(model, chosen, chosen.len()),
        }
    }

    /// Whether the whole map has to be drawn again.
    pub open spec fn filters_differ(self, next: SnapshotModel) -> bool {
        ||| self.stride != next.stride
        ||| self.visibility.show_all_open_cells != next.visibility.show_all_open_cells
        ||| self.visibility.hide_fully_open_blocks != next.visibility.hide_fully_open_blocks
        ||| self.visibility.show_selected_layer_only != next.visibility.show_selected_layer_only
        ||| self.visibility.show_selected_layer_only && self.visibility.selected.layer
            != next.visibility.selected.layer
    }

    /// The surroundings in which open cells are shown, where that is limited.
    pub open spec fn context(self) -> Option<(usize, usize, usize)> {
        if self.visibility.show_all_open_cells || self.visibility.hide_fully_open_blocks {
            None
        } else {
            Some(
                (
                    self.visibility.selected.x,
                    self.visibility.selected.y,
                    self.visibility.open_context_radius,
                ),
            )
        }
    }
}

impl OverlaySnapshot {
    pub open spec fn well_formed(&self) -> bool {
        self.selection.well_formed() && self.stride >= 1
    }

    pub fn new(document: &Document, ui: &EditorUi) -> (snapshot: Self)
        requires
            document.well_formed(),
        ensures
            snapshot.well_formed(),
            snapshot@ == SnapshotModel::of(document@, ui@),
    {
        let mut visibility = EditorOverlayOptions::from_ui(ui);
        visibility.selected = LayerAddress::new(ui.selected.x, ui.selected.y, ui.visible_layer);
        let stride: usize = if ui.visual_stride < 1 {
            1
        } else {
            ui.visual_stride
        };
        let selection = if ui.selection_hidden {
            let none: Vec<LayerAddress> = Vec::new();
            assert(none@ =~= Seq::<LayerAddress>::empty());
            EditorSelectionLookup::new(document, none.as_slice())
        } else if ui.selection.len() == 0 {
            EditorSelectionLookup::new(document, std::slice::from_ref(&ui.selected))
        } else {
            EditorSelectionLookup::new(document, ui.selection.as_slice())
        };
        OverlaySnapshot { stride, visibility, selection }
    }

    pub fn global_filters_changed(&self, next: &OverlaySnapshot) -> (changed: bool)
        ensures
            changed == self@.filters_differ(next@),
    {
        self.stride != next.stride || self.visibility.show_all_open_cells
            != next.visibility.show_all_open_cells || self.visibility.hide_fully_open_blocks
            != next.visibility.hide_fully_open_blocks || self.visibility.show_selected_layer_only
            != next.visibility.show_selected_layer_only || (
        self.visibility.show_selected_layer_only && self.visibility.selected.layer
            != next.visibility.selected.layer)
    }

    pub fn context(&self) -> (context: Option<(usize, usize, usize)>)
        ensures
            context == self@.context(),
    {
        if self.visibility.show_all_open_cells || self.visibility.hide_fully_open_blocks {
            None
        } else {
            Some(
                (
                    self.visibility.selected.x,
                    self.visibility.selected.y,
                    self.visibility.open_context_radius,
                ),
            )
        }
    }
}

/// A layer as it is drawn; sentinels are not.
pub open spec fn drawn(x: int, y: int, cell: Layer, footprint: Footprint, selected: bool) -> Seq<
    OverlayCell,
> {
    if cell.height == NULL_HEIGHT {
        Seq::empty()
    } else {
        seq![OverlayCell { x: x as usize, y: y as usize, cell, footprint, selected }]
    }
}

/// What is drawn of one layer of a cell with layers of its own. Open layers are
/// hidden away from the current cell, and thinned out to one sample for each
/// square without a selected layer; partial and blocked ones never are.
pub open spec fn layer_cells(
    model: DocumentModel,
    snapshot: SnapshotModel,
    x: int,
    y: int,
    layer: int,
) -> Seq<OverlayCell> {
    let cell = model.column(x, y)[layer];
    let selected = snapshot.lookup.cells.contains(selection::address(x, y, layer));
    let open = selection::fully_open(cell);
    if !snapshot.visibility.layer_shown(layer) || (open && (
    snapshot.visibility.hide_fully_open_blocks || (!selected && (
    !snapshot.visibility.open_cell_shown(x, y) || x % snapshot.stride != 0 || y % snapshot.stride
        != 0 || snapshot.lookup.area_selected(x, y, layer, snapshot.stride))))) {
        Seq::empty()
    } else {
        drawn(
            x,
            y,
            cell,
            if open && !selected {
                Footprint::Sample(snapshot.stride as usize)
            } else {
                Footprint::Cell
            },
            selected,
        )
    }
}

/// What is drawn of the first layers of a cell.
pub open spec fn column_cells(
    model: DocumentModel,
    snapshot: SnapshotModel,
    x: int,
    y: int,
    layers: nat,
) -> Seq<OverlayCell>
    decreases layers,
{
    if layers == 0 {
        Seq::empty()
    } else {
        column_cells(model, snapshot, x, y, (layers - 1) as nat) + layer_cells(
            model,
            snapshot,
            x,
            y,
            layers - 1,
        )
    }
}

/// What is drawn of the first cells of a block.
pub open spec fn part_cells(
    model: DocumentModel,
    snapshot: SnapshotModel,
    start_x: int,
    start_y: int,
    count: nat,
) -> Seq<OverlayCell>
    decreases count,
{
    if count == 0 {
        Seq::empty()
    } else {
        let x = start_x + (count - 1) / 8;
        let y = start_y + (count - 1) % 8;
        part_cells(model, snapshot, start_x, start_y, (count - 1) as nat) + column_cells(
            model,
            snapshot,
            x,
            y,
            model.column(x, y).len(),
        )
    }
}

/// What is drawn of a block. A simple one is a single surface.
pub open spec fn block_cells(
    model: DocumentModel,
    snapshot: SnapshotModel,
    block_x: int,
    block_y: int,
) -> Seq<OverlayCell> {
    let number = grid::block_number(block_x, block_y);
    let x = 8 * block_x;
    let y = 8 * block_y;
    if !grid::block_on_map(block_x, block_y) || (snapshot.visibility.hide_fully_open_blocks
        && overlay::open_block(model, block_x, block_y)) {
        Seq::empty()
    } else if model.blocks[number].kind == EditableBlockType::Simple {
        let selected = snapshot.lookup.simple_blocks.contains(number);
        if snapshot.visibility.layer_shown(0) && (selected || snapshot.visibility.open_block_shown(
            x,
            y,
        )) {
            drawn(x, y, model.column(x, y)[0], Footprint::Block, selected)
        } else {
            Seq::empty()
        }
    } else {
        part_cells(model, snapshot, x, y, 64)
    }
}

/// What is drawn of a column of blocks.
pub open spec fn strip_cells(
    model: DocumentModel,
    snapshot: SnapshotModel,
    block_x: int,
    start: int,
    end: int,
) -> Seq<OverlayCell>
    decreases end - start,
{
    if end <= start {
        Seq::empty()
    } else {
        strip_cells(model, snapshot, block_x, start, end - 1) + block_cells(
            model,
            snapshot,
            block_x,
            end - 1,
        )
    }
}

/// What is drawn of a rectangle of blocks.
pub open spec fn area_cells(
    model: DocumentModel,
    snapshot: SnapshotModel,
    start_x: int,
    end_x: int,
    start_y: int,
    end_y: int,
) -> Seq<OverlayCell>
    decreases end_x - start_x,
{
    if end_x <= start_x {
        Seq::empty()
    } else {
        area_cells(model, snapshot, start_x, end_x - 1, start_y, end_y) + strip_cells(
            model,
            snapshot,
            end_x - 1,
            start_y,
            end_y,
        )
    }
}

fn push_drawn(
    cells: &mut Vec<OverlayCell>,
    x: usize,
    y: usize,
    cell: Layer,
    footprint: Footprint,
    selected: bool,
)
    ensures
        final(cells)@ == old(cells)@ + drawn(x as int, y as int, cell, footprint, selected),
{
    if cell.height != NULL_HEIGHT {
        cells.push(OverlayCell { x, y, cell, footprint, selected });
    }
    assert(final(cells)@ =~= old(cells)@ + drawn(x as int, y as int, cell, footprint, selected));
}

fn push_layer(
    cells: &mut Vec<OverlayCell>,
    document: &Document,
    snapshot: &OverlaySnapshot,
    x: usize,
    y: usize,
    layer: usize,
)
    requires
        document.well_formed(),
        snapshot.well_formed(),
        grid::on_map(x as int, y as int),
        layer < document@.column(x as int, y as int).len(),
    ensures
        final(cells)@ == old(cells)@ + layer_cells(
            document@,
            snapshot@,
            x as int,
            y as int,
            layer as int,
        ),
{
    let ghost nothing = old(cells)@ + Seq::<OverlayCell>::empty();
    assert(nothing =~= old(cells)@);
    if !snapshot.visibility.shows_layer(layer) {
        return;
    }
    let cell = match document.cell(LayerAddress::new(x, y, layer)) {
        Some(cell) => cell,
        None => vstd::pervasive::unreached(),
    };
    assert(selection::address(x as int, y as int, layer as int) == (LayerAddress { x, y, layer }));
    let selected = snapshot.selection.contains_cell(x, y, layer);
    let open = layer_is_fully_open(cell);
    if open {
        if snapshot.visibility.hide_fully_open_blocks {
            return;
        }
        if !selected && (!snapshot.visibility.shows_open_cell(x, y) || x % snapshot.stride != 0 || y
            % snapshot.stride != 0 || snapshot.selection.sampled_area_contains_cell(
            x,
            y,
            layer,
            snapshot.stride,
        )) {
            return;
        }
    }
    let footprint = if open && !selected {
        Footprint::Sample(snapshot.stride)
    } else {
        Footprint::Cell
    };
    push_drawn(cells, x, y, cell, footprint, selected);
}

fn push_part(
    cells: &mut Vec<OverlayCell>,
    document: &Document,
    snapshot: &OverlaySnapshot,
    start_x: usize,
    start_y: usize,
)
    requires
        document.well_formed(),
        snapshot.well_formed(),
        start_x + 8 <= 2_048,
        start_y + 8 <= 2_048,
    ensures
        final(cells)@ == old(cells)@ + part_cells(
            document@,
            snapshot@,
            start_x as int,
            start_y as int,
            64,
        ),
{
    let mut next: usize = 0;
    assert(cells@ =~= old(cells)@ + Seq::<OverlayCell>::empty());
    while next < 64
        invariant
            next <= 64,
            document.well_formed(),
            snapshot.well_formed(),
            start_x + 8 <= 2_048,
            start_y + 8 <= 2_048,
            cells@ == old(cells)@ + part_cells(
                document@,
                snapshot@,
                start_x as int,
                start_y as int,
                next as nat,
            ),
        decreases 64 - next,
    {
        let x: usize = start_x + next / 8;
        let y: usize = start_y + next % 8;
        let count: usize = match document.layer_count(x, y) {
            Some(count) => count,
            None => vstd::pervasive::unreached(),
        };
        let ghost before = cells@;
        let mut layer: usize = 0;
        assert(cells@ =~= before + Seq::<OverlayCell>::empty());
        while layer < count
            invariant
                layer <= count,
                document.well_formed(),
                snapshot.well_formed(),
                grid::on_map(x as int, y as int),
                count == document@.column(x as int, y as int).len(),
                cells@ == before + column_cells(
                    document@,
                    snapshot@,
                    x as int,
                    y as int,
                    layer as nat,
                ),
            decreases count - layer,
        {
            let ghost held = cells@;
            push_layer(cells, document, snapshot, x, y, layer);
            proof {
                let one = column_cells(document@, snapshot@, x as int, y as int, layer as nat);
                let two = layer_cells(document@, snapshot@, x as int, y as int, layer as int);
                assert(held + two =~= before + (one + two));
            }
            layer += 1;
        }
        proof {
            let one = part_cells(
                document@,
                snapshot@,
                start_x as int,
                start_y as int,
                next as nat,
            );
            let two = column_cells(document@, snapshot@, x as int, y as int, count as nat);
            assert(before + two =~= old(cells)@ + (one + two));
        }
        next += 1;
    }
}

fn push_block(
    cells: &mut Vec<OverlayCell>,
    document: &Document,
    snapshot: &OverlaySnapshot,
    block_x: usize,
    block_y: usize,
)
    requires
        document.well_formed(),
        snapshot.well_formed(),
    ensures
        final(cells)@ == old(cells)@ + block_cells(
            document@,
            snapshot@,
            block_x as int,
            block_y as int,
        ),
{
    assert(old(cells)@ + Seq::<OverlayCell>::empty() =~= old(cells)@);
    if block_x >= BLOCKS_PER_AXIS || block_y >= BLOCKS_PER_AXIS {
        return;
    }
    let start_x: usize = 8 * block_x;
    let start_y: usize = 8 * block_y;
    if snapshot.visibility.hides_block(document, block_x, block_y) {
        return;
    }
    let kind = match document.block_type(block_x, block_y) {
        Some(kind) => kind,
        None => vstd::pervasive::unreached(),
    };
    if kind == EditableBlockType::Simple {
        let selected = snapshot.selection.contains_simple_block(block_x, block_y);
        if snapshot.visibility.shows_layer(0) && (selected
            || snapshot.visibility.shows_open_block(start_x, start_y)) {
            proof {
                document::lemma_column(document@, start_x as int, start_y as int);
            }
            let cell = match document.cell(LayerAddress::new(start_x, start_y, 0)) {
                Some(cell) => cell,
                None => vstd::pervasive::unreached(),
            };
            push_drawn(cells, start_x, start_y, cell, Footprint::Block, selected);
        }
    } else {
        push_part(cells, document, snapshot, start_x, start_y);
    }
}

/// Everything drawn of a rectangle of blocks. Beyond the map there is nothing.
pub fn visible_cells(
    document: &Document,
    snapshot: &OverlaySnapshot,
    block_x: (usize, usize),
    block_y: (usize, usize),
) -> (cells: Vec<OverlayCell>)
    requires
        document.well_formed(),
        snapshot.well_formed(),
    ensures
        cells@ == area_cells(
            document@,
            snapshot@,
            block_x.0 as int,
            block_x.1 as int,
            block_y.0 as int,
            block_y.1 as int,
        ),
{
    let mut cells: Vec<OverlayCell> = Vec::new();
    let mut x: usize = block_x.0;
    let ghost start_x = block_x.0 as int;
    let ghost start_y = block_y.0 as int;
    let ghost end_y = block_y.1 as int;
    while x < block_x.1
        invariant
            block_x.0 <= x,
            x <= block_x.1 || x == block_x.0,
            start_x == block_x.0,
            start_y == block_y.0,
            end_y == block_y.1,
            document.well_formed(),
            snapshot.well_formed(),
            cells@ == area_cells(document@, snapshot@, start_x, x as int, start_y, end_y),
        decreases block_x.1 - x,
    {
        let ghost before = cells@;
        let mut y: usize = block_y.0;
        assert(cells@ =~= before + Seq::<OverlayCell>::empty());
        while y < block_y.1
            invariant
                block_y.0 <= y,
                y <= block_y.1 || y == block_y.0,
                start_y == block_y.0,
                document.well_formed(),
                snapshot.well_formed(),
                cells@ == before + strip_cells(
                    document@,
                    snapshot@,
                    x as int,
                    start_y,
                    y as int,
                ),
            decreases block_y.1 - y,
        {
            let ghost held = cells@;
            push_block(&mut cells, document, snapshot, x, y);
            proof {
                let one = strip_cells(document@, snapshot@, x as int, start_y, y as int);
                let two = block_cells(document@, snapshot@, x as int, y as int);
                assert(held + two =~= before + (one + two));
            }
            y += 1;
        }
        assert(strip_cells(document@, snapshot@, x as int, start_y, y as int) == strip_cells(
            document@,
            snapshot@,
            x as int,
            start_y,
            end_y,
        ));
        x += 1;
    }
    assert(area_cells(document@, snapshot@, start_x, x as int, start_y, end_y) == area_cells(
        document@,
        snapshot@,
        start_x,
        block_x.1 as int,
        start_y,
        end_y,
    ));
    cells
}

/// Selected cells are yellow; the others show by colour whether they are open,
/// blocked or something between.
pub open spec fn cell_color(cell: Layer, selected: bool) -> Seq<u8> {
    if selected {
        seq![255u8, 235u8, 0u8, 255u8]
    } else if cell.nswe & 15 == 15 {
        seq![0u8, 205u8, 230u8, 165u8]
    } else if cell.nswe & 15 == 0 {
        seq![235u8, 45u8, 45u8, 230u8]
    } else {
        seq![255u8, 150u8, 0u8, 220u8]
    }
}

pub fn editor_cell_color(cell: Layer, selected: bool) -> (color: [u8; 4])
    ensures
        color@ == cell_color(cell, selected),
{
    let color: [u8; 4] = if selected {
        [255, 235, 0, 255]
    } else if cell.nswe & 15 == 15 {
        [0, 205, 230, 165]
    } else if cell.nswe & 15 == 0 {
        [235, 45, 45, 230]
    } else {
        [255, 150, 0, 220]
    };
    assert(color@ =~= cell_color(cell, selected));
    color
}

/// Whether a quad shows a drawn layer.
pub open spec fn colours(quad: GeodataCell, cell: OverlayCell) -> bool {
    &&& quad.x == cell.x
    &&& quad.y == cell.y
    &&& quad.height == cell.cell.height
    &&& quad.footprint == cell.footprint
    &&& quad.color@ == cell_color(cell.cell, cell.selected)
}

/// Whether a glyph shows a drawn layer.
pub open spec fn labels(glyph: NsweIconCell, cell: OverlayCell) -> bool {
    &&& glyph.x == cell.x
    &&& glyph.y == cell.y
    &&& glyph.height == cell.cell.height
    &&& glyph.footprint == cell.footprint
    &&& glyph.mask == cell.cell.nswe & 15
}

/// Whether quads show drawn layers one for one.
pub open spec fn all_coloured(quads: Seq<GeodataCell>, cells: Seq<OverlayCell>) -> bool {
    quads.len() == cells.len() && forall|i: int|
        0 <= i < cells.len() ==> colours(#[trigger] quads[i], cells[i])
}

/// Whether glyphs show drawn layers one for one.
pub open spec fn all_labelled(glyphs: Seq<NsweIconCell>, cells: Seq<OverlayCell>) -> bool {
    glyphs.len() == cells.len() && forall|i: int|
        0 <= i < cells.len() ==> labels(#[trigger] glyphs[i], cells[i])
}

/// The coloured quads of a rectangle of blocks.
pub fn editor_geodata_instances_in_blocks(
    document: &Document,
    snapshot: &OverlaySnapshot,
    block_x: (usize, usize),
    block_y: (usize, usize),
) -> (quads: Vec<GeodataCell>)
    requires
        document.well_formed(),
        snapshot.well_formed(),
    ensures
        all_coloured(
            quads@,
            area_cells(
                document@,
                snapshot@,
                block_x.0 as int,
                block_x.1 as int,
                block_y.0 as int,
                block_y.1 as int,
            ),
        ),
{
    let cells = visible_cells(document, snapshot, block_x, block_y);
    let mut quads: Vec<GeodataCell> = Vec::new();
    let mut next: usize = 0;
    while next < cells.len()
        invariant
            next <= cells@.len(),
            quads@.len() == next,
            forall|i: int| 0 <= i < next ==> colours(#[trigger] quads@[i], cells@[i]),
        decreases cells.len() - next,
    {
        let cell = cells[next];
        quads.push(
            GeodataCell {
                x: cell.x,
                y: cell.y,
                height: cell.cell.height,
                footprint: cell.footprint,
                color: editor_cell_color(cell.cell, cell.selected),
            },
        );
        next += 1;
    }
    quads
}

/// The status glyphs of a rectangle of blocks. They follow the same rules as
/// the quads, so a glyph always describes the quad below it.
pub fn editor_nswe_icon_instances_in_blocks(
    document: &Document,
    snapshot: &OverlaySnapshot,
    block_x: (usize, usize),
    block_y: (usize, usize),
) -> (glyphs: Vec<NsweIconCell>)
    requires
        document.well_formed(),
        snapshot.well_formed(),
    ensures
        all_labelled(
            glyphs@,
            area_cells(
                document@,
                snapshot@,
                block_x.0 as int,
                block_x.1 as int,
                block_y.0 as int,
                block_y.1 as int,
            ),
        ),
{
    let cells = visible_cells(document, snapshot, block_x, block_y);
    let mut glyphs: Vec<NsweIconCell> = Vec::new();
    let mut next: usize = 0;
    while next < cells.len()
        invariant
            next <= cells@.len(),
            glyphs@.len() == next,
            forall|i: int| 0 <= i < next ==> labels(#[trigger] glyphs@[i], cells@[i]),
        decreases cells.len() - next,
    {
        let cell = cells[next];
        glyphs.push(
            NsweIconCell {
                x: cell.x,
                y: cell.y,
                height: cell.cell.height,
                footprint: cell.footprint,
                mask: cell.cell.nswe & 15,
            },
        );
        next += 1;
    }
    glyphs
}

} // verus!
