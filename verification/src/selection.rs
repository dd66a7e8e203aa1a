//! Cells picked by brush, by line and by block.

use vstd::prelude::*;

use crate::l2j::block::{Layer, LayerAddress, MAP_CELLS, NULL_HEIGHT};
use crate::l2j::document::{Document, DocumentModel};
use crate::l2j::{document, grid};

verus! {

/// Which part of a brush area the clicked cell marks.
#[derive(Clone, Copy, Debug, PartialEq, Eq, Structural)]
pub enum BrushAnchor {
    Left,
    Center,
    Right,
}

impl Default for BrushAnchor {
    fn default() -> (anchor: Self)
        ensures
            anchor == BrushAnchor::Center,
    {
        BrushAnchor::Center
    }
}

impl BrushAnchor {
    pub open spec fn title(self) -> Seq<char> {
        match self {
            BrushAnchor::Left => "Esquerda"@,
            BrushAnchor::Center => "Centro"@,
            BrushAnchor::Right => "Direita"@,
        }
    }

    pub fn label(self) -> (label: &'static str)
        ensures
            label@ == self.title(),
    {
        match self {
            BrushAnchor::Left => "Esquerda",
            BrushAnchor::Center => "Centro",
            BrushAnchor::Right => "Direita",
        }
    }

    /// What the anchor means, in words.
    pub open spec fn explanation(self) -> Seq<char> {
        match self {
            BrushAnchor::Left => "O clique inicia à esquerda; a área cresce para a direita e para cima."@,
            BrushAnchor::Center => "A área é distribuída ao redor da célula clicada."@,
            BrushAnchor::Right => "O clique termina à direita; a área cresce para a esquerda e para cima."@,
        }
    }

    pub fn description(self) -> (description: &'static str)
        ensures
            description@ == self.explanation(),
    {
        match self {
            BrushAnchor::Left => "O clique inicia à esquerda; a área cresce para a direita e para cima.",
            BrushAnchor::Center => "A área é distribuída ao redor da célula clicada.",
            BrushAnchor::Right => "O clique termina à direita; a área cresce para a esquerda e para cima.",
        }
    }
}

/// A brush size that can be used: from one cell to 256.
pub open spec fn usable_size(requested: int) -> int {
    if requested < 1 {
        1
    } else if requested > 256 {
        256
    } else {
        requested
    }
}

/// The cells of a brush along one axis, from the first to behind the last. The
/// area is moved back onto the map where it would leave it.
pub open spec fn centered(center: int, requested: int) -> (int, int) {
    let size = usable_size(requested);
    let start = center - size / 2;
    let kept = if start < 0 {
        0
    } else if start > 2_048 - size {
        2_048 - size
    } else {
        start
    };
    (kept, kept + size)
}

/// The same for an area that starts at a cell.
pub open spec fn forward(start: int, requested: int) -> (int, int) {
    let size = usable_size(requested);
    let kept = if start > 2_048 - size {
        2_048 - size
    } else {
        start
    };
    (kept, kept + size)
}

/// The same for an area that ends at a cell.
pub open spec fn backward(last: int, requested: int) -> (int, int) {
    let size = usable_size(requested);
    let end = if last + 1 < size {
        size
    } else if last + 1 > 2_048 {
        2_048
    } else {
        last + 1
    };
    (end - size, end)
}

pub fn brush_size(requested_size: usize) -> (size: usize)
    ensures
        size == usable_size(requested_size as int),
{
    if requested_size < 1 {
        1
    } else if requested_size > 256 {
        256
    } else {
        requested_size
    }
}

pub fn centered_axis_bounds(center: usize, requested_size: usize) -> (bounds: (usize, usize))
    ensures
        (bounds.0 as int, bounds.1 as int) == centered(center as int, requested_size as int),
        bounds.0 < bounds.1 <= 2_048,
{
    let size = brush_size(requested_size);
    let start: usize = if center < size / 2 {
        0
    } else {
        center - size / 2
    };
    let kept: usize = if start > MAP_CELLS - size {
        MAP_CELLS - size
    } else {
        start
    };
    (kept, kept + size)
}

pub fn forward_axis_bounds(start_pointer: usize, requested_size: usize) -> (bounds: (usize, usize))
    ensures
        (bounds.0 as int, bounds.1 as int) == forward(start_pointer as int, requested_size as int),
        bounds.0 < bounds.1 <= 2_048,
{
    let size = brush_size(requested_size);
    let kept: usize = if start_pointer > MAP_CELLS - size {
        MAP_CELLS - size
    } else {
        start_pointer
    };
    (kept, kept + size)
}

pub fn backward_axis_bounds(end_pointer: usize, requested_size: usize) -> (bounds: (usize, usize))
    ensures
        (bounds.0 as int, bounds.1 as int) == backward(end_pointer as int, requested_size as int),
        bounds.0 < bounds.1 <= 2_048,
{
    let size = brush_size(requested_size);
    let end: usize = if end_pointer >= MAP_CELLS {
        MAP_CELLS
    } else if end_pointer + 1 < size {
        size
    } else {
        end_pointer + 1
    };
    (end - size, end)
}

/// Whether a layer is a surface with every side open.
pub open spec fn fully_open(layer: Layer) -> bool {
    layer.height != NULL_HEIGHT && layer.nswe & 15 == Layer::OPEN
}

pub fn layer_is_fully_open(layer: Layer) -> (open: bool)
    ensures
        open == fully_open(layer),
{
    layer.height != NULL_HEIGHT && layer.nswe & 15 == Layer::OPEN
}

/// The address of a layer.
pub open spec fn address(x: int, y: int, layer: int) -> LayerAddress {
    LayerAddress { x: x as usize, y: y as usize, layer: layer as usize }
}

/// The layer of a cell that stands for a wanted one: the highest where the cell
/// has fewer layers.
pub open spec fn layer_in(model: DocumentModel, x: int, y: int, wanted: int) -> int {
    let count = model.column(x, y).len() as int;
    if wanted < count {
        wanted
    } else {
        count - 1
    }
}

/// What a brush picks of one cell: one layer, unless it is a sentinel or hidden.
pub open spec fn brush_cell(model: DocumentModel, x: int, y: int, wanted: int, hide: bool) -> Seq<
    LayerAddress,
> {
    let layer = layer_in(model, x, y, wanted);
    let cell = model.column(x, y)[layer];
    if cell.height == NULL_HEIGHT || (hide && fully_open(cell)) {
        Seq::empty()
    } else {
        seq![address(x, y, layer)]
    }
}

/// What a brush picks of one row.
pub open spec fn brush_row(
    model: DocumentModel,
    y: int,
    start_x: int,
    end_x: int,
    wanted: int,
    hide: bool,
) -> Seq<LayerAddress>
    decreases end_x - start_x,
{
    if end_x <= start_x {
        Seq::empty()
    } else {
        brush_row(model, y, start_x, end_x - 1, wanted, hide) + brush_cell(
            model,
            end_x - 1,
            y,
            wanted,
            hide,
        )
    }
}

/// What a brush picks of some rows, row after row.
pub open spec fn brush_rows(
    model: DocumentModel,
    start_x: int,
    end_x: int,
    start_y: int,
    end_y: int,
    wanted: int,
    hide: bool,
) -> Seq<LayerAddress>
    decreases end_y - start_y,
{
    if end_y <= start_y {
        Seq::empty()
    } else {
        brush_rows(model, start_x, end_x, start_y, end_y - 1, wanted, hide) + brush_row(
            model,
            end_y - 1,
            start_x,
            end_x,
            wanted,
            hide,
        )
    }
}

/// The columns and rows of a brush area.
pub open spec fn brush_bounds(
    center: LayerAddress,
    width: int,
    height: int,
    anchor: BrushAnchor,
) -> ((int, int), (int, int)) {
    match anchor {
        BrushAnchor::Left => (forward(center.x as int, width), backward(center.y as int, height)),
        BrushAnchor::Center => (centered(center.x as int, width), centered(center.y as int, height)),
        BrushAnchor::Right => (backward(center.x as int, width), backward(center.y as int, height)),
    }
}

/// Everything a brush picks.
pub open spec fn brushed(
    model: DocumentModel,
    center: LayerAddress,
    width: int,
    height: int,
    anchor: BrushAnchor,
    hide: bool,
) -> Seq<LayerAddress> {
    let bounds = brush_bounds(center, width, height, anchor);
    brush_rows(
        model,
        bounds.0.0,
        bounds.0.1,
        bounds.1.0,
        bounds.1.1,
        center.layer as int,
        hide,
    )
}

/// The cells of a brush area around, right of or left of a clicked cell.
pub fn brush_area_selection(
    document: &Document,
    center: LayerAddress,
    width: usize,
    height: usize,
    anchor: BrushAnchor,
    hide_fully_open_cells: bool,
) -> (selection: Vec<LayerAddress>)
    requires
        document.well_formed(),
    ensures
        selection@ == brushed(
            document@,
            center,
            width as int,
            height as int,
            anchor,
            hide_fully_open_cells,
        ),
{
    let (columns, rows) = match anchor {
        BrushAnchor::Left => (
            forward_axis_bounds(center.x, width),
            backward_axis_bounds(center.y, height),
        ),
        BrushAnchor::Center => (
            centered_axis_bounds(center.x, width),
            centered_axis_bounds(center.y, height),
        ),
        BrushAnchor::Right => (
            backward_axis_bounds(center.x, width),
            backward_axis_bounds(center.y, height),
        ),
    };
    let (start_x, end_x) = columns;
    let (start_y, end_y) = rows;
    let ghost wanted = center.layer as int;
    let ghost hide = hide_fully_open_cells;
    let mut selection: Vec<LayerAddress> = Vec::new();
    let mut y: usize = start_y;
    while y < end_y
        invariant
            start_y <= y <= end_y <= 2_048,
            start_x <= end_x <= 2_048,
            document.well_formed(),
            wanted == center.layer,
            hide == hide_fully_open_cells,
            selection@ == brush_rows(
                document@,
                start_x as int,
                end_x as int,
                start_y as int,
                y as int,
                wanted,
                hide,
            ),
        decreases end_y - y,
    {
        let ghost done = selection@;
        let mut x: usize = start_x;
        assert(selection@ =~= done + Seq::<LayerAddress>::empty());
        while x < end_x
            invariant
                start_x <= x <= end_x <= 2_048,
                y < 2_048,
                document.well_formed(),
                wanted == center.layer,
                hide == hide_fully_open_cells,
                selection@ == done + brush_row(
                    document@,
                    y as int,
                    start_x as int,
                    x as int,
                    wanted,
                    hide,
                ),
            decreases end_x - x,
        {
            let ghost before = selection@;
            let count: usize = match document.layer_count(x, y) {
                Some(count) => count,
                None => vstd::pervasive::unreached(),
            };
            proof {
                document::lemma_column(document@, x as int, y as int);
            }
            let layer: usize = if center.layer < count {
                center.layer
            } else {
                count - 1
            };
            let cell = match document.cell(LayerAddress::new(x, y, layer)) {
                Some(cell) => cell,
                None => vstd::pervasive::unreached(),
            };
            if !(cell.height == NULL_HEIGHT || (hide_fully_open_cells && layer_is_fully_open(cell))) {
                selection.push(LayerAddress::new(x, y, layer));
            }
            proof {
                assert(selection@ =~= before + brush_cell(
                    document@,
                    x as int,
                    y as int,
                    wanted,
                    hide,
                ));
                assert(selection@ =~= done + (brush_row(
                    document@,
                    y as int,
                    start_x as int,
                    x as int,
                    wanted,
                    hide,
                ) + brush_cell(document@, x as int, y as int, wanted, hide)));
            }
            x += 1;
        }
        y += 1;
    }
    selection
}

/// The cells of a block that have a layer, column after column of the map.
pub open spec fn block_cells(
    model: DocumentModel,
    start_x: int,
    start_y: int,
    layer: int,
    count: nat,
) -> Seq<LayerAddress>
    decreases count,
{
    if count == 0 {
        Seq::empty()
    } else {
        let x = start_x + (count - 1) / 8;
        let y = start_y + (count - 1) % 8;
        let before = block_cells(model, start_x, start_y, layer, (count - 1) as nat);
        if model.cell(x, y, layer) is Some {
            before.push(address(x, y, layer))
        } else {
            before
        }
    }
}

/// Returns the individual cells of one block that have the wanted layer. Simple
/// blocks expand to their 64 cells, so each of them can be edited on its own.
pub fn block_layer_selection(
    document: &Document,
    block_x: usize,
    block_y: usize,
    layer: usize,
) -> (cells: Vec<LayerAddress>)
    requires
        document.well_formed(),
    ensures
        cells@ == if grid::block_on_map(block_x as int, block_y as int) {
            block_cells(document@, 8 * block_x, 8 * block_y, layer as int, 64)
        } else {
            Seq::empty()
        },
{
    let mut cells: Vec<LayerAddress> = Vec::new();
    if block_x >= 256 || block_y >= 256 {
        return cells;
    }
    let start_x: usize = block_x * 8;
    let start_y: usize = block_y * 8;
    let mut next: usize = 0;
    while next < 64
        invariant
            next <= 64,
            start_x == 8 * block_x,
            start_y == 8 * block_y,
            start_x < 2_048,
            start_y < 2_048,
            document.well_formed(),
            cells@ == block_cells(
                document@,
                start_x as int,
                start_y as int,
                layer as int,
                next as nat,
            ),
        decreases 64 - next,
    {
        let place = LayerAddress::new(start_x + next / 8, start_y + next % 8, layer);
        if document.cell(place).is_some() {
            cells.push(place);
        }
        next += 1;
    }
    cells
}

/// Whether a click can hit a layer: one that exists, is not filtered out, and is
/// not hidden for being open.
pub open spec fn can_be_hit(layer: Layer, index: int, wanted: Option<usize>, hide: bool) -> bool {
    &&& wanted is Some ==> wanted->0 == index
    &&& layer.height != NULL_HEIGHT
    &&& !(hide && fully_open(layer))
}

/// The layers of a column that a click can hit, among the first ones, with their
/// heights.
pub open spec fn pickable(
    column: Seq<Layer>,
    wanted: Option<usize>,
    hide: bool,
    count: nat,
) -> Seq<(usize, i16)>
    decreases count,
{
    if count == 0 {
        Seq::empty()
    } else {
        let before = pickable(column, wanted, hide, (count - 1) as nat);
        if can_be_hit(column[count - 1], count - 1, wanted, hide) {
            before.push(((count - 1) as usize, column[count - 1].height))
        } else {
            before
        }
    }
}

/// The layers of a cell that a click can hit, with their heights.
pub fn pickable_layers(
    document: &Document,
    x: usize,
    y: usize,
    layer_filter: Option<usize>,
    hide_fully_open: bool,
) -> (layers: Vec<(usize, i16)>)
    requires
        document.well_formed(),
    ensures
        layers@ == if grid::on_map(x as int, y as int) {
            let column = document@.column(x as int, y as int);
            pickable(column, layer_filter, hide_fully_open, column.len())
        } else {
            Seq::empty()
        },
{
    let mut layers: Vec<(usize, i16)> = Vec::new();
    let count: usize = match document.layer_count(x, y) {
        Some(count) => count,
        None => {
            return layers;
        },
    };
    let mut index: usize = 0;
    while index < count
        invariant
            index <= count,
            document.well_formed(),
            grid::on_map(x as int, y as int),
            count == document@.column(x as int, y as int).len(),
            layers@ == pickable(
                document@.column(x as int, y as int),
                layer_filter,
                hide_fully_open,
                index as nat,
            ),
        decreases count - index,
    {
        if let Some(layer) = document.cell(LayerAddress::new(x, y, index)) {
            let shown = match layer_filter {
                Some(wanted) => wanted == index,
                None => true,
            };
            if shown && layer.height != NULL_HEIGHT && !(hide_fully_open && layer_is_fully_open(
                layer,
            )) {
                layers.push((index, layer.height));
            }
        }
        index += 1;
    }
    layers
}

} // verus!
