//! Which cells the overlay draws, and how.

use std::collections::HashSet;
use vstd::prelude::*;

use crate::l2j::block::{EditableBlock, EditableBlockType, LayerAddress, MAP_CELLS, NULL_HEIGHT};
use crate::l2j::document::{Document, DocumentModel};
use crate::l2j::{block, document, grid};
use crate::selection;
use crate::selection::layer_is_fully_open;
use crate::ui::EditorUi;

verus! {

broadcast use vstd::std_specs::hash::group_hash_axioms;

/// What the overlay shows of the map.
#[derive(Clone, Copy, Debug, PartialEq, Eq, Structural)]
pub struct EditorOverlayOptions {
    pub selected: LayerAddress,
    pub open_context_radius: usize,
    pub show_all_open_cells: bool,
    pub hide_fully_open_blocks: bool,
    pub show_selected_layer_only: bool,
}

impl EditorOverlayOptions {
    /// Whether a fully open cell is shown: everywhere, or around the current cell.
    pub open spec fn open_cell_shown(self, x: int, y: int) -> bool {
        self.show_all_open_cells || (self.selected.x - self.open_context_radius <= x
            <= self.selected.x + self.open_context_radius && self.selected.y
            - self.open_context_radius <= y <= self.selected.y + self.open_context_radius)
    }

    /// Whether a fully open block is shown: everywhere, or where it touches the
    /// surroundings of the current cell.
    pub open spec fn open_block_shown(self, start_x: int, start_y: int) -> bool {
        self.show_all_open_cells || (start_x <= self.selected.x + self.open_context_radius && start_x
            + 7 >= self.selected.x - self.open_context_radius && start_y <= self.selected.y
            + self.open_context_radius && start_y + 7 >= self.selected.y
            - self.open_context_radius)
    }

    pub open spec fn layer_shown(self, layer: int) -> bool {
        !self.show_selected_layer_only || layer == self.selected.layer
    }

    pub fn from_ui(ui: &EditorUi) -> (options: Self)
        ensures
            options.selected == ui.selected,
            options.open_context_radius == ui.open_context_radius,
            options.show_all_open_cells == ui.show_all_open_cells,
            options.hide_fully_open_blocks == ui.hide_fully_open_blocks,
            options.show_selected_layer_only == ui.show_selected_layer_only,
    {
        EditorOverlayOptions {
            selected: ui.selected,
            open_context_radius: ui.open_context_radius,
            show_all_open_cells: ui.show_all_open_cells,
            hide_fully_open_blocks: ui.hide_fully_open_blocks,
            show_selected_layer_only: ui.show_selected_layer_only,
        }
    }

    pub fn shows_open_cell(self, x: usize, y: usize) -> (shown: bool)
        ensures
            shown == self.open_cell_shown(x as int, y as int),
    {
        let radius = self.open_context_radius as i128;
        let center_x = self.selected.x as i128;
        let center_y = self.selected.y as i128;
        let x = x as i128;
        let y = y as i128;
        self.show_all_open_cells || (center_x - radius <= x && x <= center_x + radius && center_y
            - radius <= y && y <= center_y + radius)
    }

    pub fn shows_open_block(self, start_x: usize, start_y: usize) -> (shown: bool)
        ensures
            shown == self.open_block_shown(start_x as int, start_y as int),
    {
        let radius = self.open_context_radius as i128;
        let center_x = self.selected.x as i128;
        let center_y = self.selected.y as i128;
        let x = start_x as i128;
        let y = start_y as i128;
        self.show_all_open_cells || (x <= center_x + radius && x + 7 >= center_x - radius && y
            <= center_y + radius && y + 7 >= center_y - radius)
    }

    pub fn hides_block(self, document: &Document, block_x: usize, block_y: usize) -> (hidden: bool)
        requires
            document.well_formed(),
        ensures
            hidden == (self.hide_fully_open_blocks && open_block(
                document@,
                block_x as int,
                block_y as int,
            )),
    {
        self.hide_fully_open_blocks && block_is_fully_open(document, block_x, block_y)
    }

    pub fn shows_layer(self, layer: usize) -> (shown: bool)
        ensures
            shown == self.layer_shown(layer as int),
    {
        !self.show_selected_layer_only || layer == self.selected.layer
    }
}

/// Whether a block has a surface, and no surface of it has a closed side.
pub open spec fn all_open(model: crate::l2j::block::BlockModel) -> bool {
    &&& exists|c: int, l: int|
        0 <= c < 64 && 0 <= l < model.columns[c].len() && (
        #[trigger] model.columns[c][l]).height != NULL_HEIGHT
    &&& forall|c: int, l: int|
        0 <= c < 64 && 0 <= l < model.columns[c].len() && (
        #[trigger] model.columns[c][l]).height != NULL_HEIGHT ==> selection::fully_open(
            model.columns[c][l],
        )
}

/// Whether a block of the map is fully open.
pub open spec fn open_block(model: DocumentModel, x: int, y: int) -> bool {
    grid::block_on_map(x, y) && all_open(model.blocks[grid::block_number(x, y)])
}

pub fn block_is_fully_open(document: &Document, block_x: usize, block_y: usize) -> (open: bool)
    requires
        document.well_formed(),
    ensures
        open == open_block(document@, block_x as int, block_y as int),
{
    let block = match document.block(block_x, block_y) {
        Some(block) => block,
        None => {
            return false;
        },
    };
    proof {
        block.lemma_cut();
    }
    if let EditableBlock::Simple(layer) = block {
        let open = layer_is_fully_open(*layer);
        proof {
            let model = block@;
            assert(model.columns[0][0] == *layer);
            assert forall|c: int, l: int|
                0 <= c < 64 && 0 <= l < model.columns[c].len() implies #[trigger] model.columns[c][l]
                == *layer by {}
            assert(model.uniform_open());
            if layer.height != NULL_HEIGHT {
                assert(layer.nswe == 15);
                assert(15u8 & 15 == 15u8) by (bit_vector);
            }
        }
        return open;
    }
    let mut has_surface = false;
    let mut column: usize = 0;
    while column < 64
        invariant
            column <= 64,
            block.well_formed(),
            forall|i: int| 0 <= i < 64 ==> block.has_column(i),
            forall|i: int| 0 <= i < 64 ==> block.column(i) == #[trigger] block@.columns[i],
            has_surface <==> exists|c: int, l: int|
                0 <= c < column && 0 <= l < block@.columns[c].len() && (
                #[trigger] block@.columns[c][l]).height != NULL_HEIGHT,
            forall|c: int, l: int|
                0 <= c < column && 0 <= l < block@.columns[c].len() && (
                #[trigger] block@.columns[c][l]).height != NULL_HEIGHT ==> selection::fully_open(
                    block@.columns[c][l],
                ),
            block@ == document@.blocks[grid::block_number(block_x as int, block_y as int)],
            grid::block_on_map(block_x as int, block_y as int),
        decreases 64 - column,
    {
        assert(block.has_column(column as int));
        let layers = block.layers(column);
        assert(layers@ == block@.columns[column as int]);
        let mut next: usize = 0;
        let ghost before = has_surface;
        while next < layers.len()
            invariant
                next <= layers@.len(),
                column < 64,
                layers@ == block@.columns[column as int],
                has_surface <==> before || exists|l: int|
                    0 <= l < next && (#[trigger] layers@[l]).height != NULL_HEIGHT,
                forall|l: int|
                    0 <= l < next && (#[trigger] layers@[l]).height != NULL_HEIGHT
                        ==> selection::fully_open(layers@[l]),
                block@ == document@.blocks[grid::block_number(block_x as int, block_y as int)],
                grid::block_on_map(block_x as int, block_y as int),
            decreases layers.len() - next,
        {
            let layer = layers[next];
            if layer.height != NULL_HEIGHT {
                has_surface = true;
                if !layer_is_fully_open(layer) {
                    assert(block@.columns[column as int][next as int] == layer);
                    return false;
                }
            }
            next += 1;
        }
        proof {
            let model = block@;
            let after = column + 1;
            if has_surface {
                if before {
                    let (c, l) = choose|c: int, l: int|
                        0 <= c < column && 0 <= l < model.columns[c].len() && (
                        #[trigger] model.columns[c][l]).height != NULL_HEIGHT;
                    assert(model.columns[c][l].height != NULL_HEIGHT);
                } else {
                    let l = choose|l: int|
                        0 <= l < layers@.len() && (#[trigger] layers@[l]).height != NULL_HEIGHT;
                    assert(model.columns[column as int][l].height != NULL_HEIGHT);
                }
            }
            assert forall|c: int, l: int|
                0 <= c < after && 0 <= l < model.columns[c].len() && (
                #[trigger] model.columns[c][l]).height != NULL_HEIGHT implies selection::fully_open(
                model.columns[c][l],
            ) by {
                if c == column {
                    assert(layers@[l] == model.columns[c][l]);
                }
            }
            if exists|c: int, l: int|
                0 <= c < after && 0 <= l < model.columns[c].len() && (
                #[trigger] model.columns[c][l]).height != NULL_HEIGHT {
                let (c, l) = choose|c: int, l: int|
                    0 <= c < after && 0 <= l < model.columns[c].len() && (
                    #[trigger] model.columns[c][l]).height != NULL_HEIGHT;
                if c == column {
                    assert(layers@[l].height != NULL_HEIGHT);
                }
            }
        }
        column += 1;
    }
    has_surface
}

/// Whether an address can be told by one number.
spec fn compact(address: LayerAddress) -> bool {
    address.x < 2_048 && address.y < 2_048 && address.layer < 65_536
}

/// That number.
spec fn number_of(address: LayerAddress) -> u64 {
    ((address.x * 2_048 + address.y) * 65_536 + address.layer) as u64
}

fn is_compact(address: &LayerAddress) -> (result: bool)
    ensures
        result == compact(*address),
{
    address.x < MAP_CELLS && address.y < MAP_CELLS && address.layer < 65_536
}

fn compact_number(address: &LayerAddress) -> (number: u64)
    requires
        compact(*address),
    ensures
        number == number_of(*address),
        number == (address.x * 2_048 + address.y) * 65_536 + address.layer,
{
    (address.x as u64 * 2_048 + address.y as u64) * 65_536 + address.layer as u64
}

/// A set of layers. Those on the map are found by their number.
pub struct AddressSet {
    numbers: HashSet<u64>,
    list: Vec<LayerAddress>,
}

impl View for AddressSet {
    type V = Set<LayerAddress>;

    closed spec fn view(&self) -> Set<LayerAddress> {
        self.list@.to_set()
    }
}

impl AddressSet {
    pub closed spec fn well_formed(&self) -> bool {
        &&& forall|address: LayerAddress|
            compact(address) ==> (self.list@.contains(address) <==> self.numbers@.contains(
                #[trigger] number_of(address),
            ))
    }

    pub fn new() -> (set: AddressSet)
        ensures
            set.well_formed(),
            set@ == Set::<LayerAddress>::empty(),
    {
        let set = AddressSet { numbers: HashSet::new(), list: Vec::new() };
        assert(set@ =~= Set::<LayerAddress>::empty());
        set
    }

    pub fn contains(&self, address: LayerAddress) -> (found: bool)
        requires
            self.well_formed(),
        ensures
            found == self@.contains(address),
    {
        if is_compact(&address) {
            return self.numbers.contains(&compact_number(&address));
        }
        let mut next: usize = 0;
        while next < self.list.len()
            invariant
                next <= self.list@.len(),
                forall|k: int| 0 <= k < next ==> #[trigger] self.list@[k] != address,
            decreases self.list.len() - next,
        {
            let member = self.list[next];
            if member.x == address.x && member.y == address.y && member.layer == address.layer {
                assert(self.list@[next as int] == address);
                return true;
            }
            next += 1;
        }
        false
    }

    pub fn insert(&mut self, address: LayerAddress) -> (added: bool)
        requires
            old(self).well_formed(),
        ensures
            final(self).well_formed(),
            added == !old(self)@.contains(address),
            final(self)@ == old(self)@.insert(address),
    {
        if self.contains(address) {
            assert(self@ =~= old(self)@.insert(address));
            return false;
        }
        let ghost before = self.list@;
        if is_compact(&address) {
            self.numbers.insert(compact_number(&address));
        }
        self.list.push(address);
        proof {
            assert(self.list@[before.len() as int] == address);
            assert forall|other: LayerAddress| self.list@.contains(other) <==> before.contains(
                other,
            ) || other == address by {
                if before.contains(other) {
                    let k = choose|k: int| 0 <= k < before.len() && before[k] == other;
                    assert(self.list@[k] == other);
                }
                if self.list@.contains(other) {
                    let k = choose|k: int| 0 <= k < self.list@.len() && self.list@[k] == other;
                    if k < before.len() {
                        assert(before[k] == other);
                    }
                }
            }
            assert forall|other: LayerAddress| compact(other) && compact(address) && number_of(other)
                == number_of(address) implies other == address by {}
            assert(self@ =~= old(self)@.insert(address));
        }
        true
    }

    /// The members as a list.
    pub fn as_list(&self) -> (list: &Vec<LayerAddress>)
        ensures
            list@.to_set() == self@,
    {
        &self.list
    }
}

/// The selected cells and the simple blocks with a selected cell.
pub struct EditorSelectionLookup {
    cells: AddressSet,
    simple_blocks: Vec<bool>,
}

/// What an [`EditorSelectionLookup`] holds: layers, and numbers of blocks.
#[verifier::ext_equal]
pub struct LookupModel {
    pub cells: Set<LayerAddress>,
    pub simple_blocks: Set<int>,
}

/// Whether a cell lies in a simple block.
pub open spec fn in_simple_block(model: DocumentModel, address: LayerAddress) -> bool {
    grid::on_map(address.x as int, address.y as int) && model.blocks[grid::block_of(
        address.x as int,
        address.y as int,
    )].kind == EditableBlockType::Simple
}

impl LookupModel {
    /// The first layers of a selection: those of simple blocks by their block.
    pub open spec fn of(
        model: DocumentModel,
        selection: Seq<LayerAddress>,
        count: nat,
    ) -> LookupModel
        decreases count,
    {
        if count == 0 {
            LookupModel { cells: Set::empty(), simple_blocks: Set::empty() }
        } else {
            let before = Self::of(model, selection, (count - 1) as nat);
            let address = selection[count - 1];
            if in_simple_block(model, address) {
                LookupModel {
                    simple_blocks: before.simple_blocks.insert(
                        grid::block_of(address.x as int, address.y as int),
                    ),
                    ..before
                }
            } else {
                LookupModel { cells: before.cells.insert(address), ..before }
            }
        }
    }

    /// Whether a selected layer lies in the square that a coarse sample stands for.
    pub open spec fn area_selected(self, x: int, y: int, layer: int, stride: int) -> bool {
        exists|u: int, v: int|
            x <= u < x + stride && u < 2_048 && y <= v < y + stride && v < 2_048
                && #[trigger] self.cells.contains(selection::address(u, v, layer))
    }
}

impl View for EditorSelectionLookup {
    type V = LookupModel;

    closed spec fn view(&self) -> LookupModel {
        LookupModel {
            cells: self.cells@,
            simple_blocks: Set::new(
                |i: int| 0 <= i < self.simple_blocks@.len() && self.simple_blocks@[i],
            ),
        }
    }
}

impl EditorSelectionLookup {
    pub closed spec fn well_formed(&self) -> bool {
        self.cells.well_formed() && self.simple_blocks@.len() == 65_536
    }

    pub fn new(document: &Document, selection: &[LayerAddress]) -> (lookup: Self)
        requires
            document.well_formed(),
        ensures
            lookup.well_formed(),
            lookup@ == LookupModel::of(document@, selection@, selection@.len()),
    {
        let mut cells = AddressSet::new();
        let mut simple_blocks: Vec<bool> = vec![false; 65_536];
        let mut next: usize = 0;
        let ghost empty = LookupModel::of(document@, selection@, 0);
        assert(Set::new(|i: int| 0 <= i < simple_blocks@.len() && simple_blocks@[i])
            =~= empty.simple_blocks);
        while next < selection.len()
            invariant
                next <= selection@.len(),
                document.well_formed(),
                cells.well_formed(),
                simple_blocks@.len() == 65_536,
                cells@ == LookupModel::of(document@, selection@, next as nat).cells,
                Set::new(|i: int| 0 <= i < simple_blocks@.len() && simple_blocks@[i])
                    == LookupModel::of(document@, selection@, next as nat).simple_blocks,
            decreases selection.len() - next,
        {
            let address = selection[next];
            let ghost before = simple_blocks@;
            let block_x: usize = address.x / 8;
            let block_y: usize = address.y / 8;
            let simple = match document.block_type(block_x, block_y) {
                Some(EditableBlockType::Simple) => true,
                _ => false,
            };
            if simple {
                let number: usize = block_y + block_x * 256;
                simple_blocks[number] = true;
                proof {
                    assert(number == grid::block_of(address.x as int, address.y as int));
                    assert(Set::new(|i: int| 0 <= i < simple_blocks@.len() && simple_blocks@[i])
                        =~= Set::new(|i: int| 0 <= i < before.len() && before[i]).insert(
                        number as int,
                    ));
                }
            } else {
                cells.insert(address);
            }
            next += 1;
        }
        let lookup = EditorSelectionLookup { cells, simple_blocks };
        assert(lookup@ =~= LookupModel::of(document@, selection@, selection@.len()));
        lookup
    }

    pub fn contains_cell(&self, x: usize, y: usize, layer: usize) -> (found: bool)
        requires
            self.well_formed(),
        ensures
            found == self@.cells.contains(LayerAddress { x, y, layer }),
    {
        self.cells.contains(LayerAddress::new(x, y, layer))
    }

    pub fn contains_simple_block(&self, block_x: usize, block_y: usize) -> (found: bool)
        requires
            self.well_formed(),
        ensures
            found == (grid::block_on_map(block_x as int, block_y as int)
                && self@.simple_blocks.contains(
                grid::block_number(block_x as int, block_y as int),
            )),
    {
        if block_x >= 256 || block_y >= 256 {
            return false;
        }
        self.simple_blocks[block_y + block_x * 256]
    }

    pub fn sampled_area_contains_cell(
        &self,
        start_x: usize,
        start_y: usize,
        layer: usize,
        stride: usize,
    ) -> (found: bool)
        requires
            self.well_formed(),
        ensures
            found == self@.area_selected(
                start_x as int,
                start_y as int,
                layer as int,
                stride as int,
            ),
    {
        let end_x: usize = if stride > MAP_CELLS || start_x >= MAP_CELLS || start_x + stride
            > MAP_CELLS {
            MAP_CELLS
        } else {
            start_x + stride
        };
        let end_y: usize = if stride > MAP_CELLS || start_y >= MAP_CELLS || start_y + stride
            > MAP_CELLS {
            MAP_CELLS
        } else {
            start_y + stride
        };
        let mut x: usize = start_x;
        while x < end_x
            invariant
                start_x <= x,
                x <= end_x || start_x >= end_x,
                end_x <= 2_048,
                end_y <= 2_048,
                self.well_formed(),
                forall|u: int, v: int|
                    start_x <= u < x && start_y <= v < end_y ==> !#[trigger] self@.cells.contains(
                        selection::address(u, v, layer as int),
                    ),
                end_x == 2_048 && start_x + stride >= 2_048 || end_x == start_x + stride,
                end_y == 2_048 && start_y + stride >= 2_048 || end_y == start_y + stride,
            decreases end_x - x,
        {
            let mut y: usize = start_y;
            while y < end_y
                invariant
                    start_x <= x < end_x <= 2_048,
                    start_y <= y,
                    y <= end_y || start_y >= end_y,
                    end_y <= 2_048,
                    self.well_formed(),
                    forall|v: int|
                        start_y <= v < y ==> !#[trigger] self@.cells.contains(
                            selection::address(x as int, v, layer as int),
                        ),
                    end_x == 2_048 && start_x + stride >= 2_048 || end_x == start_x + stride,
                    end_y == 2_048 && start_y + stride >= 2_048 || end_y == start_y + stride,
                decreases end_y - y,
            {
                assert(selection::address(x as int, y as int, layer as int) == (LayerAddress {
                    x,
                    y,
                    layer,
                }));
                if self.cells.contains(LayerAddress::new(x, y, layer)) {
                    proof {
                        let (u, v) = (x as int, y as int);
                        assert(u < start_x + stride && v < start_y + stride);
                        assert(self@.cells.contains(selection::address(u, v, layer as int)));
                    }
                    return true;
                }
                y += 1;
            }
            x += 1;
        }
        false
    }

    /// The selected layers outside simple blocks.
    pub fn cell_set(&self) -> (cells: &AddressSet)
        requires
            self.well_formed(),
        ensures
            cells.well_formed(),
            cells@ == self@.cells,
    {
        &self.cells
    }
}

} // verus!
