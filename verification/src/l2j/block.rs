//! Cells, directions and the three kinds of block.

use vstd::prelude::*;
use vstd::slice::{slice_subrange, slice_to_vec};

use crate::error::{AppError, ErrorModel, Result};
use crate::l2j::height_order::sorted_by_height;
use crate::text::push_decimal;
use crate::l2j::height_order;
use crate::text;

verus! {

pub const BLOCKS_PER_AXIS: usize = 256;

pub const BLOCK_COUNT: usize = 65_536;

pub const CELLS_PER_BLOCK_AXIS: usize = 8;

pub const MAP_CELLS: usize = 2_048;

pub const COLUMNS_PER_BLOCK: usize = 64;

pub const NULL_HEIGHT: i16 = -16_384;

pub const MAX_WALKABLE_CLIMB: i16 = 16;

/// The four least-significant packed bits are reserved for NSWE. Heights are
/// consequently stored in eight-unit increments.
pub const HEIGHT_STEP: i16 = 8;

/// `NULL_HEIGHT` is the -16384 sentinel, so the first editable value is one
/// increment above it.
pub const MIN_EDITABLE_HEIGHT: i16 = -16_376;

pub const MAX_EDITABLE_HEIGHT: i16 = 16_376;

#[derive(Clone, Copy, Debug, PartialEq, Eq, Structural)]
pub struct Layer {
    pub height: i16,
    /// Bits follow the Lineage convention: N=8, S=4, W=2, E=1.
    pub nswe: u8,
}

impl Layer {
    pub const OPEN: u8 = 0x0f;

    /// A layer that a geodata file can hold: its height is a whole number of
    /// steps and its mask has four bits.
    pub open spec fn storable(self) -> bool {
        self.height as int % 8 == 0 && self.nswe < 16
    }
}

impl Default for Layer {
    fn default() -> (layer: Self)
        ensures
            layer.height == 0,
            layer.nswe == 0,
    {
        Layer { height: 0, nswe: 0 }
    }
}

#[derive(Clone, Copy, Debug, PartialEq, Eq, Structural)]
pub enum Direction {
    North,
    South,
    West,
    East,
}

impl Direction {
    pub const ALL: [Direction; 4] = [
        Direction::North,
        Direction::South,
        Direction::West,
        Direction::East,
    ];

    /// The mask bit that opens this side of a cell.
    pub open spec fn mask(self) -> u8 {
        match self {
            Direction::North => 8,
            Direction::South => 4,
            Direction::West => 2,
            Direction::East => 1,
        }
    }

    pub open spec fn reverse(self) -> Direction {
        match self {
            Direction::North => Direction::South,
            Direction::South => Direction::North,
            Direction::West => Direction::East,
            Direction::East => Direction::West,
        }
    }

    /// One step this way, as changes of x and y.
    pub open spec fn delta(self) -> (int, int) {
        match self {
            Direction::North => (0, -1),
            Direction::South => (0, 1),
            Direction::West => (-1, 0),
            Direction::East => (1, 0),
        }
    }

    /// The direction's name in messages.
    pub open spec fn title(self) -> Seq<char> {
        match self {
            Direction::North => "N"@,
            Direction::South => "S"@,
            Direction::West => "W"@,
            Direction::East => "E"@,
        }
    }

    pub fn bit(self) -> (bit: u8)
        ensures
            bit == self.mask(),
    {
        match self {
            Direction::North => 8,
            Direction::South => 4,
            Direction::West => 2,
            Direction::East => 1,
        }
    }

    pub fn opposite(self) -> (direction: Direction)
        ensures
            direction == self.reverse(),
    {
        match self {
            Direction::North => Direction::South,
            Direction::South => Direction::North,
            Direction::West => Direction::East,
            Direction::East => Direction::West,
        }
    }

    /// The direction's name in messages.
    pub fn name(self) -> (name: &'static str)
        ensures
            name@ == self.title(),
    {
        match self {
            Direction::North => "N",
            Direction::South => "S",
            Direction::West => "W",
            Direction::East => "E",
        }
    }

    pub fn offset(self) -> (step: (isize, isize))
        ensures
            step.0 == self.delta().0,
            step.1 == self.delta().1,
    {
        match self {
            Direction::North => (0, -1),
            Direction::South => (0, 1),
            Direction::West => (-1, 0),
            Direction::East => (1, 0),
        }
    }
}

/// A layer of a cell of the map.
#[derive(Clone, Copy, Debug, PartialEq, Eq, Structural)]
pub struct LayerAddress {
    pub x: usize,
    pub y: usize,
    pub layer: usize,
}

impl Default for LayerAddress {
    fn default() -> (address: Self)
        ensures
            address == (LayerAddress { x: 0, y: 0, layer: 0 }),
    {
        LayerAddress { x: 0, y: 0, layer: 0 }
    }
}

impl LayerAddress {
    pub fn new(x: usize, y: usize, layer: usize) -> (address: Self)
        ensures
            address == (LayerAddress { x, y, layer }),
    {
        LayerAddress { x, y, layer }
    }
}

#[derive(Clone, Copy, Debug, PartialEq, Eq, Structural)]
pub enum EditableBlockType {
    Simple,
    Complex,
    Multilayer,
}

/// Eight by eight cells. Column `y % 8 + (x % 8) * 8` holds the layers of a
/// cell; a multilayer block keeps all its layers in one vector, column after
/// column, with `offsets` marking where each column starts.
#[derive(Debug, PartialEq, Eq)]
pub enum EditableBlock {
    Simple(Layer),
    Complex([Layer; 64]),
    Multilayer { offsets: [u16; 65], layers: Vec<Layer> },
}

/// What a block holds: its kind and the layers of its 64 columns.
#[verifier::ext_equal]
pub struct BlockModel {
    pub kind: EditableBlockType,
    pub columns: Seq<Seq<Layer>>,
}

impl BlockModel {
    /// A block of 64 equal single-layer columns.
    pub open spec fn simple(layer: Layer) -> BlockModel {
        BlockModel { kind: EditableBlockType::Simple, columns: Seq::new(64, |i: int| seq![layer]) }
    }

    /// A block of 64 single-layer columns.
    pub open spec fn complex(cells: Seq<Layer>) -> BlockModel {
        BlockModel { kind: EditableBlockType::Complex, columns: Seq::new(64, |i: int| seq![cells[i]]) }
    }

    /// The same cells, each with a mask of its own: a simple block becomes
    /// complex, the other kinds stay.
    pub open spec fn promoted(self) -> BlockModel {
        if self.kind == EditableBlockType::Simple {
            BlockModel { kind: EditableBlockType::Complex, columns: self.columns }
        } else {
            self
        }
    }

    pub open spec fn with_kind(self, kind: EditableBlockType) -> BlockModel {
        BlockModel { kind, columns: self.columns }
    }

    pub open spec fn with_column(self, column: int, layers: Seq<Layer>) -> BlockModel {
        BlockModel { kind: self.kind, columns: self.columns.update(column, layers) }
    }

    /// The block with the mask of one layer replaced.
    pub open spec fn with_nswe(self, column: int, layer: int, nswe: u8) -> BlockModel {
        let old = self.columns[column];
        self.with_column(
            column,
            old.update(layer, Layer { height: old[layer].height, nswe }),
        )
    }

    /// The block with the height of one layer replaced and the layers of its
    /// column put back in height order.
    pub open spec fn with_height(self, column: int, layer: int, height: i16) -> BlockModel {
        let old = self.columns[column];
        self.with_column(
            column,
            height_order::by_height(old.update(layer, Layer { height, nswe: old[layer].nswe })),
        )
    }

    /// Every column has exactly one layer.
    pub open spec fn single_layered(self) -> bool {
        forall|i: int| 0 <= i < 64 ==> (#[trigger] self.columns[i]).len() == 1
    }

    /// All 64 columns hold one and the same fully open layer.
    pub open spec fn uniform_open(self) -> bool {
        &&& self.columns[0].len() == 1
        &&& self.columns[0][0].nswe == Layer::OPEN
        &&& forall|i: int| 0 <= i < 64 ==> #[trigger] self.columns[i] == self.columns[0]
    }

    /// What every block of a document satisfies.
    pub open spec fn valid(self) -> bool {
        &&& self.columns.len() == 64
        &&& forall|i: int| 0 <= i < 64 ==> (#[trigger] self.columns[i]).len() >= 1
        &&& forall|i: int, j: int|
            0 <= i < 64 && 0 <= j < self.columns[i].len() ==> (
            #[trigger] self.columns[i][j]).storable()
        &&& self.kind == EditableBlockType::Simple ==> self.uniform_open()
        &&& self.kind == EditableBlockType::Complex ==> self.single_layered()
    }
}

/// The number of layers of the first columns.
pub open spec fn layer_total(columns: Seq<Seq<Layer>>) -> nat
    decreases columns.len(),
{
    if columns.len() == 0 {
        0
    } else {
        layer_total(columns.drop_last()) + columns.last().len()
    }
}

impl View for EditableBlock {
    type V = BlockModel;

    open spec fn view(&self) -> BlockModel {
        match self {
            EditableBlock::Simple(layer) => BlockModel::simple(*layer),
            EditableBlock::Complex(cells) => BlockModel::complex(cells@),
            EditableBlock::Multilayer { offsets, layers } => BlockModel {
                kind: EditableBlockType::Multilayer,
                columns: Seq::new(
                    64,
                    |i: int| layers@.subrange(offsets@[i] as int, offsets@[i + 1] as int),
                ),
            },
        }
    }
}

impl EditableBlock {
    /// The offsets of a multilayer block cut its layers into 64 columns, none
    /// of them empty.
    pub open spec fn well_cut(&self) -> bool {
        match self {
            EditableBlock::Multilayer { offsets, layers } => {
                &&& offsets@[0] == 0
                &&& offsets@[64] == layers@.len()
                &&& forall|i: int, j: int|
                    0 <= i < j <= 64 ==> #[trigger] offsets@[i] < #[trigger] offsets@[j]
            },
            _ => true,
        }
    }

    pub open spec fn well_formed(&self) -> bool {
        self.well_cut() && self@.valid()
    }

    pub open spec fn has_column(&self, column: int) -> bool {
        match self {
            EditableBlock::Simple(_) => true,
            EditableBlock::Complex(_) => 0 <= column < 64,
            EditableBlock::Multilayer { offsets, layers } => {
                0 <= column < 64 && offsets@[column] <= offsets@[column + 1] <= layers@.len()
            },
        }
    }

    /// The layers of a column; every column of a simple block is its one layer.
    pub open spec fn column(&self, column: int) -> Seq<Layer> {
        match self {
            EditableBlock::Simple(layer) => seq![*layer],
            _ => self@.columns[column],
        }
    }

    pub fn kind(&self) -> (kind: EditableBlockType)
        ensures
            kind == self@.kind,
    {
        match self {
            EditableBlock::Simple(_) => EditableBlockType::Simple,
            EditableBlock::Complex(_) => EditableBlockType::Complex,
            EditableBlock::Multilayer { .. } => EditableBlockType::Multilayer,
        }
    }

    pub fn layers(&self, column: usize) -> (layers: &[Layer])
        requires
            self.has_column(column as int),
        ensures
            layers@ == self.column(column as int),
    {
        match self {
            EditableBlock::Simple(layer) => std::slice::from_ref(layer),
            EditableBlock::Complex(cells) => std::slice::from_ref(&cells[column]),
            EditableBlock::Multilayer { offsets, layers } => {
                slice_subrange(
                    layers.as_slice(),
                    offsets[column] as usize,
                    offsets[column + 1] as usize,
                )
            },
        }
    }

    /// One layer of a column, where the column has it.
    pub fn layer(&self, column: usize, layer: usize) -> (found: Option<Layer>)
        requires
            self.has_column(column as int),
        ensures
            found == if layer < self.column(column as int).len() {
                Some(self.column(column as int)[layer as int])
            } else {
                None
            },
    {
        let layers = self.layers(column);
        if layer < layers.len() {
            Some(layers[layer])
        } else {
            None
        }
    }

    pub fn layer_count(&self, column: usize) -> (count: usize)
        requires
            self.has_column(column as int),
        ensures
            count == self.column(column as int).len(),
    {
        self.layers(column).len()
    }

    /// The largest number of layers in any column.
    pub fn max_layer_count(&self) -> (count: usize)
        requires
            self.well_cut(),
        ensures
            exists|i: int| 0 <= i < 64 && count == (#[trigger] self@.columns[i]).len(),
            forall|i: int| 0 <= i < 64 ==> (#[trigger] self@.columns[i]).len() <= count,
    {
        proof {
            self.lemma_cut();
        }
        match self {
            EditableBlock::Multilayer { offsets, layers } => {
                let mut most: usize = (offsets[1] - offsets[0]) as usize;
                let mut column: usize = 1;
                assert(most == self@.columns[0].len());
                while column < 64
                    invariant
                        1 <= column <= 64,
                        self.well_cut(),
                        *self == (EditableBlock::Multilayer { offsets: *offsets, layers: *layers }),
                        forall|i: int| 0 <= i < 64 ==> self.has_column(i),
                        exists|i: int| 0 <= i < column && most == (#[trigger] self@.columns[i]).len(),
                        forall|i: int| 0 <= i < column ==> (#[trigger] self@.columns[i]).len() <= most,
                    decreases 64 - column,
                {
                    assert(self.has_column(column as int));
                    let count: usize = (offsets[column + 1] - offsets[column]) as usize;
                    assert(count == self@.columns[column as int].len());
                    if count > most {
                        most = count;
                    }
                    column += 1;
                }
                most
            },
            _ => {
                assert(self@.columns[0].len() == 1);
                1
            },
        }
    }

    /// Every column of a well cut block lies inside its layers.
    pub proof fn lemma_cut(&self)
        requires
            self.well_cut(),
        ensures
            self@.columns.len() == 64,
            forall|i: int| 0 <= i < 64 ==> self.has_column(i),
            forall|i: int| 0 <= i < 64 ==> self.column(i) == #[trigger] self@.columns[i],
            forall|i: int| 0 <= i < 64 ==> (#[trigger] self@.columns[i]).len() >= 1,
    {
        if let EditableBlock::Multilayer { offsets, layers } = self {
            assert forall|i: int| 0 <= i < 64 implies self.has_column(i) by {
                assert(offsets@[i] < offsets@[i + 1]);
                assert(offsets@[i + 1] <= offsets@[64]);
            }
        }
    }

    /// Gives a simple block masks of its own for every cell.
    pub fn promote_to_complex(&mut self) -> (promoted: bool)
        ensures
            promoted == (old(self)@.kind == EditableBlockType::Simple),
            final(self)@ == old(self)@.promoted(),
            old(self).well_formed() ==> final(self).well_formed(),
    {
        match self {
            EditableBlock::Simple(layer) => {
                let copy = *layer;
                *self = EditableBlock::Complex([copy;64]);
                assert(self@ =~= old(self)@.promoted());
                true
            },
            _ => false,
        }
    }

    /// Why the mask of a layer cannot be set, if so.
    pub open spec fn nswe_refusal(&self, column: int, layer: int) -> Option<ErrorModel> {
        match self {
            EditableBlock::Simple(_) => Some(
                ErrorModel::InvalidData("simple block must be promoted before a cell edit"@),
            ),
            EditableBlock::Complex(_) => if layer != 0 || column >= 64 {
                Some(ErrorModel::InvalidArgument("invalid complex cell layer"@))
            } else {
                None
            },
            EditableBlock::Multilayer { .. } => if layer >= self@.columns[column].len() {
                Some(ErrorModel::InvalidArgument("invalid multilayer cell layer"@))
            } else {
                None
            },
        }
    }

    /// Sets the mask of one layer.
    pub fn set_layer_nswe(&mut self, column: usize, layer: usize, nswe: u8) -> (result: Result<()>)
        requires
            old(self).well_cut(),
            (*old(self)) is Multilayer ==> column < 64,
        ensures
            match old(self).nswe_refusal(column as int, layer as int) {
                Some(error) => result is Err && result->Err_0@ == error && *final(self) == *old(self),
                None => {
                    &&& result is Ok
                    &&& final(self)@ == old(self)@.with_nswe(column as int, layer as int, nswe & 15)
                    &&& old(self).well_formed() ==> final(self).well_formed()
                },
            },
    {
        proof {
            self.lemma_cut();
            lemma_mask(nswe);
        }
        match self {
            EditableBlock::Simple(_) => Err(
                AppError::InvalidData("simple block must be promoted before a cell edit".to_owned()),
            ),
            EditableBlock::Complex(cells) => {
                if layer != 0 || column >= 64 {
                    return Err(AppError::InvalidArgument("invalid complex cell layer".to_owned()));
                }
                let cell = Layer { height: cells[column].height, nswe: nswe & 15 };
                cells[column] = cell;
                proof {
                    assert(final(self)@ =~~= old(self)@.with_nswe(column as int, 0, nswe & 15));
                }
                Ok(())
            },
            EditableBlock::Multilayer { offsets, layers } => {
                let start: usize = offsets[column] as usize;
                let end: usize = offsets[column + 1] as usize;
                if layer >= end - start {
                    return Err(
                        AppError::InvalidArgument("invalid multilayer cell layer".to_owned()),
                    );
                }
                let cell = Layer { height: layers[start + layer].height, nswe: nswe & 15 };
                layers[start + layer] = cell;
                proof {
                    let column = column as int;
                    assert(final(self).column(column) =~= old(self)@.columns[column].update(
                        layer as int,
                        cell,
                    ));
                    old(self).lemma_one_column(*final(self), column, final(self).column(column));
                }
                Ok(())
            },
        }
    }

    /// Two well cut multilayer blocks with the same offsets whose layers agree
    /// outside one column differ in that column only.
    proof fn lemma_one_column(self, after: EditableBlock, column: int, layers: Seq<Layer>)
        requires
            self.well_cut(),
            self is Multilayer,
            after is Multilayer,
            after->offsets == self->offsets,
            after->layers@.len() == self->layers@.len(),
            0 <= column < 64,
            forall|k: int|
                0 <= k < self->layers@.len() && !(self->offsets@[column] <= k
                    < self->offsets@[column + 1]) ==> #[trigger] after->layers@[k]
                    == self->layers@[k],
            layers == after->layers@.subrange(
                self->offsets@[column] as int,
                self->offsets@[column + 1] as int,
            ),
        ensures
            after.well_cut(),
            after@ == self@.with_column(column, layers),
            self.well_formed() && (forall|j: int|
                0 <= j < layers.len() ==> (#[trigger] layers[j]).storable()) ==> after.well_formed(),
    {
        self.lemma_cut();
        after.lemma_cut();
        let offsets = self->offsets@;
        assert forall|i: int| 0 <= i < 64 implies #[trigger] after@.columns[i] == self@.with_column(
            column,
            layers,
        ).columns[i] by {
            assert(after.has_column(i) && self.has_column(i));
            assert(self.has_column(column));
            assert(i < column ==> offsets[i + 1] <= offsets[column]);
            assert(i > column ==> offsets[column + 1] <= offsets[i]);
            assert(after@.columns[i] =~= self@.with_column(column, layers).columns[i]);
        }
        assert(after@ =~= self@.with_column(column, layers));
    }

    /// Why the height of a layer cannot be set, if so.
    pub open spec fn height_refusal(&self, column: int, layer: int) -> Option<ErrorModel> {
        match self {
            EditableBlock::Simple(_) => Some(
                ErrorModel::InvalidData("simple block must be promoted before a cell height edit"@),
            ),
            _ => self.nswe_refusal(column, layer),
        }
    }

    /// Sets the height of one layer. The layer order is height order: it is
    /// kept after a manual edit, so readers consistently find the floor before
    /// higher platforms in a multilayer column.
    pub fn set_layer_height(&mut self, column: usize, layer: usize, height: i16) -> (result: Result<
        (),
    >)
        requires
            old(self).well_cut(),
            (*old(self)) is Multilayer ==> column < 64,
        ensures
            match old(self).height_refusal(column as int, layer as int) {
                Some(error) => result is Err && result->Err_0@ == error && *final(self) == *old(self),
                None => {
                    &&& result is Ok
                    &&& final(self)@ == old(self)@.with_height(column as int, layer as int, height)
                    &&& old(self).well_formed() && height as int % 8 == 0 ==> final(self).well_formed()
                },
            },
    {
        proof {
            self.lemma_cut();
        }
        match self {
            EditableBlock::Simple(_) => Err(
                AppError::InvalidData(
                    "simple block must be promoted before a cell height edit".to_owned(),
                ),
            ),
            EditableBlock::Complex(cells) => {
                if layer != 0 || column >= 64 {
                    return Err(AppError::InvalidArgument("invalid complex cell layer".to_owned()));
                }
                let cell = Layer { height, nswe: cells[column].nswe };
                cells[column] = cell;
                proof {
                    let changed = old(self)@.columns[column as int].update(0, cell);
                    assert(changed =~= seq![cell]);
                    assert(changed.drop_last() =~= Seq::<Layer>::empty());
                    reveal_with_fuel(height_order::by_height, 2);
                    assert(height_order::by_height(changed) =~= seq![cell]);
                    assert(final(self)@ =~~= old(self)@.with_height(column as int, 0, height));
                }
                Ok(())
            },
            EditableBlock::Multilayer { offsets, layers } => {
                let start: usize = offsets[column] as usize;
                let end: usize = offsets[column + 1] as usize;
                if layer >= end - start {
                    return Err(
                        AppError::InvalidArgument("invalid multilayer cell layer".to_owned()),
                    );
                }
                let ghost before = layers@;
                let cell = Layer { height, nswe: layers[start + layer].nswe };
                layers[start + layer] = cell;
                let sorted = sorted_by_height(slice_subrange(layers.as_slice(), start, end));
                let ghost changed = layers@.subrange(start as int, end as int);
                proof {
                    assert(changed =~= before.subrange(start as int, end as int).update(
                        layer as int,
                        cell,
                    ));
                    height_order::height_order_is_sorted(changed);
                }
                let mut next: usize = 0;
                while next < sorted.len()
                    invariant
                        next <= sorted.len(),
                        sorted.len() == end - start,
                        start <= end <= layers@.len(),
                        layers@.len() == before.len(),
                        forall|k: int| 0 <= k < next ==> #[trigger] layers@[start + k] == sorted@[k],
                        forall|k: int|
                            0 <= k < layers@.len() && !(start <= k < end) ==> #[trigger] layers@[k]
                                == before[k],
                    decreases sorted.len() - next,
                {
                    layers[start + next] = sorted[next];
                    next += 1;
                }
                proof {
                    let column = column as int;
                    let now = layers@.subrange(start as int, end as int);
                    assert forall|k: int| 0 <= k < now.len() implies #[trigger] now[k] == sorted@[k] by {
                        assert(layers@[start + k] == sorted@[k]);
                    }
                    assert(now =~= sorted@);
                    old(self).lemma_one_column(*final(self), column, sorted@);
                    if old(self).well_formed() && height as int % 8 == 0 {
                        assert forall|j: int| 0 <= j < sorted@.len() implies (
                        #[trigger] sorted@[j]).storable() by {
                            height_order::lemma_order_keeps(changed, j);
                            let m = choose|m: int| 0 <= m < changed.len() && changed[m] == sorted@[j];
                            if m != layer {
                                assert(changed[m] == old(self)@.columns[column][m]);
                            } else {
                                assert(old(self)@.columns[column][m].storable());
                            }
                        }
                    }
                }
                Ok(())
            },
        }
    }

    /// Stores every column as a column of a multilayer block.
    pub fn to_multilayer(&mut self)
        requires
            old(self).well_cut(),
        ensures
            final(self)@ == old(self)@.with_kind(EditableBlockType::Multilayer),
            final(self).well_cut(),
            old(self).well_formed() ==> final(self).well_formed(),
    {
        if let EditableBlock::Multilayer { .. } = self {
            return;
        }
        let mut offsets: [u16; 65] = [0;65];
        let mut layers: Vec<Layer> = Vec::new();
        let mut column: usize = 0;
        while column < 64
            invariant
                column <= 64,
                *self == *old(self),
                !((*self) is Multilayer),
                layers.len() == column,
                forall|i: int| 0 <= i <= column ==> #[trigger] offsets@[i] == i,
                forall|i: int| 0 <= i < column ==> #[trigger] layers@[i] == self@.columns[i][0],
            decreases 64 - column,
        {
            layers.push(self.layers(column)[0]);
            offsets[column + 1] = layers.len() as u16;
            column += 1;
        }
        *self = EditableBlock::Multilayer { offsets, layers };
        proof {
            assert forall|i: int| 0 <= i < 64 implies #[trigger] self@.columns[i] == old(self)@.columns[i] by {
                assert(offsets@[i] == i && offsets@[i + 1] == i + 1);
                assert(self@.columns[i] =~= old(self)@.columns[i]);
            }
            assert(self@ =~= old(self)@.with_kind(EditableBlockType::Multilayer));
        }
    }

    /// Why a block cannot become complex by dropping its offsets, if so.
    pub open spec fn complex_refusal(&self) -> Option<ErrorModel> {
        if !(self is Multilayer) {
            Some(ErrorModel::InvalidArgument("only a multilayer block can become complex"@))
        } else if !self@.single_layered() {
            Some(
                ErrorModel::InvalidArgument(
                    "multilayer needs one layer in every column to become complex"@,
                ),
            )
        } else {
            None
        }
    }

    /// Turns a multilayer block with one layer in every column into a complex one.
    pub fn collapse_to_complex(&mut self) -> (result: Result<()>)
        requires
            old(self).well_cut(),
        ensures
            match old(self).complex_refusal() {
                Some(error) => result is Err && result->Err_0@ == error && *final(self) == *old(self),
                None => {
                    &&& result is Ok
                    &&& final(self)@ == old(self)@.with_kind(EditableBlockType::Complex)
                    &&& final(self).well_cut()
                    &&& old(self).well_formed() ==> final(self).well_formed()
                },
            },
    {
        proof {
            self.lemma_cut();
        }
        match self {
            EditableBlock::Multilayer { .. } => {},
            _ => {
                return Err(
                    AppError::InvalidArgument(
                        "only a multilayer block can become complex".to_owned(),
                    ),
                );
            },
        }
        let mut cells: [Layer; 64] = [Layer { height: 0, nswe: 0 };64];
        let mut column: usize = 0;
        while column < 64
            invariant
                column <= 64,
                *self == *old(self),
                forall|i: int| 0 <= i < 64 ==> self.has_column(i),
                forall|i: int| 0 <= i < 64 ==> self.column(i) == #[trigger] self@.columns[i],
                (*self) is Multilayer,
                forall|i: int|
                    0 <= i < column ==> #[trigger] self@.columns[i] == seq![cells@[i]],
            decreases 64 - column,
        {
            assert(self.has_column(column as int));
            let layers = self.layers(column);
            assert(layers@ == self@.columns[column as int]);
            if layers.len() != 1 {
                return Err(
                    AppError::InvalidArgument(
                        "multilayer needs one layer in every column to become complex".to_owned(),
                    ),
                );
            }
            let ghost filled = cells@;
            cells[column] = layers[0];
            proof {
                assert(self@.columns[column as int] =~= seq![cells@[column as int]]);
                assert forall|i: int| 0 <= i < column implies #[trigger] self@.columns[i]
                    == seq![cells@[i]] by {
                    assert(cells@[i] == filled[i]);
                }
            }
            column += 1;
        }
        assert(self@.single_layered());
        *self = EditableBlock::Complex(cells);
        assert(self@ =~~= old(self)@.with_kind(EditableBlockType::Complex));
        Ok(())
    }

    /// Why a block cannot become simple, if so.
    pub open spec fn simple_refusal(&self) -> Option<ErrorModel> {
        if self.column(0).len() == 0 {
            Some(ErrorModel::InvalidData("L2J block starts with an empty column"@))
        } else if !self@.uniform_open() {
            Some(
                ErrorModel::InvalidArgument(
                    "simple needs 64 equal one-layer cells with NSWE aberto"@,
                ),
            )
        } else {
            None
        }
    }

    /// Turns a block of 64 equal open cells into a simple one.
    pub fn collapse_to_simple(&mut self) -> (result: Result<()>)
        requires
            forall|i: int| 0 <= i < 64 ==> old(self).has_column(i),
        ensures
            match old(self).simple_refusal() {
                Some(error) => result is Err && result->Err_0@ == error && *final(self) == *old(self),
                None => {
                    &&& result is Ok
                    &&& final(self)@ == old(self)@.with_kind(EditableBlockType::Simple)
                    &&& final(self).well_cut()
                    &&& old(self).well_formed() ==> final(self).well_formed()
                },
            },
    {
        assert(self.has_column(0));
        assert(self@.columns.len() == 64);
        if self.layer_count(0) == 0 {
            return Err(AppError::InvalidData("L2J block starts with an empty column".to_owned()));
        }
        let first = self.layers(0)[0];
        let mut uniform = first.nswe == Layer::OPEN;
        let mut column: usize = 0;
        while column < 64
            invariant
                column <= 64,
                *self == *old(self),
                forall|i: int| 0 <= i < 64 ==> self.has_column(i),
                self@.columns[0].len() > 0,
                first == self@.columns[0][0],
                uniform <==> first.nswe == Layer::OPEN && forall|i: int|
                    0 <= i < column ==> #[trigger] self@.columns[i] == seq![first],
            decreases 64 - column,
        {
            assert(self.has_column(column as int));
            let layers = self.layers(column);
            assert(layers@ == self@.columns[column as int]);
            if layers.len() != 1 || layers[0].height != first.height || layers[0].nswe
                != first.nswe {
                uniform = false;
            } else {
                assert(self@.columns[column as int] =~= seq![first]);
            }
            column += 1;
        }
        assert(uniform <==> self@.uniform_open()) by {
            if self@.uniform_open() {
                assert(self@.columns[0] =~= seq![first]);
            }
            if uniform {
                assert(self@.columns[0] == seq![first]);
            }
        }
        if !uniform {
            return Err(
                AppError::InvalidArgument(
                    "simple needs 64 equal one-layer cells with NSWE aberto".to_owned(),
                ),
            );
        }
        *self = EditableBlock::Simple(first);
        proof {
            assert forall|i: int| 0 <= i < 64 implies #[trigger] old(self)@.columns[i] == seq![
                first,
            ] by {}
            assert(self@ =~= old(self)@.with_kind(EditableBlockType::Simple));
            if old(self).well_formed() {
                assert(old(self)@.columns[0][0].storable());
            }
        }
        Ok(())
    }

    /// Checks that the offsets of a multilayer block cut its layers into 64
    /// columns, none of them empty.
    pub fn validate(&self, index: usize) -> (result: Result<()>)
        ensures
            result is Ok <==> self.well_cut(),
            result is Err ==> result->Err_0@ == ErrorModel::InvalidData(
                "invalid multilayer block "@ + text::decimal(index as nat),
            ),
    {
        if let EditableBlock::Multilayer { offsets, layers } = self {
            let mut sound = offsets[0] == 0 && offsets[64] as usize == layers.len();
            let mut column: usize = 0;
            while column < 64
                invariant
                    column <= 64,
                    *self == (EditableBlock::Multilayer { offsets: *offsets, layers: *layers }),
                    sound ==> offsets@[0] == 0 && offsets@[64] == layers@.len(),
                    sound ==> forall|i: int, j: int|
                        0 <= i < j <= column ==> #[trigger] offsets@[i] < #[trigger] offsets@[j],
                    !sound ==> !self.well_cut(),
                decreases 64 - column,
            {
                if offsets[column] >= offsets[column + 1] {
                    sound = false;
                }
                column += 1;
            }
            if !sound {
                let mut message = "invalid multilayer block ".to_owned();
                push_decimal(&mut message, index as u64);
                return Err(AppError::InvalidData(message));
            }
        }
        Ok(())
    }

    /// Whether two blocks are of one kind and hold the same layers.
    pub fn same_as(&self, other: &EditableBlock) -> (same: bool)
        requires
            self.well_cut(),
            other.well_cut(),
        ensures
            same == (self@ == other@),
    {
        proof {
            self.lemma_cut();
            other.lemma_cut();
        }
        if self.kind() != other.kind() {
            return false;
        }
        if let (EditableBlock::Simple(left), EditableBlock::Simple(right)) = (self, other) {
            let same = left.height == right.height && left.nswe == right.nswe;
            assert(same ==> self@ =~= other@);
            assert(self@.columns[0][0] == *left && other@.columns[0][0] == *right);
            return same;
        }
        let mut column: usize = 0;
        while column < 64
            invariant
                column <= 64,
                self.well_cut(),
                other.well_cut(),
                self@.columns.len() == 64,
                other@.columns.len() == 64,
                forall|i: int| 0 <= i < 64 ==> self.has_column(i),
                forall|i: int| 0 <= i < 64 ==> self.column(i) == #[trigger] self@.columns[i],
                forall|i: int| 0 <= i < 64 ==> other.has_column(i),
                forall|i: int| 0 <= i < 64 ==> other.column(i) == #[trigger] other@.columns[i],
                forall|i: int|
                    0 <= i < column ==> #[trigger] self@.columns[i] == other@.columns[i],
            decreases 64 - column,
        {
            assert(self.has_column(column as int) && other.has_column(column as int));
            let left = self.layers(column);
            let right = other.layers(column);
            assert(left@ == self@.columns[column as int]);
            assert(right@ == other@.columns[column as int]);
            if !same_layers(left, right) {
                return false;
            }
            column += 1;
        }
        assert(self@ =~= other@);
        true
    }
}

/// Whether two columns hold the same layers.
pub fn same_layers(left: &[Layer], right: &[Layer]) -> (same: bool)
    ensures
        same == (left@ == right@),
{
    if left.len() != right.len() {
        return false;
    }
    let mut i: usize = 0;
    while i < left.len()
        invariant
            i <= left.len(),
            left.len() == right.len(),
            forall|k: int| 0 <= k < i ==> #[trigger] left@[k] == right@[k],
        decreases left.len() - i,
    {
        if left[i].height != right[i].height || left[i].nswe != right[i].nswe {
            return false;
        }
        i += 1;
    }
    assert(left@ =~= right@);
    true
}

impl Clone for EditableBlock {
    fn clone(&self) -> (copy: Self)
        ensures
            copy@ == self@,
            self.well_cut() ==> copy.well_cut(),
            self.well_formed() ==> copy.well_formed(),
    {
        match self {
            EditableBlock::Simple(layer) => EditableBlock::Simple(*layer),
            EditableBlock::Complex(cells) => EditableBlock::Complex(*cells),
            EditableBlock::Multilayer { offsets, layers } => {
                let layers = slice_to_vec(layers.as_slice());
                EditableBlock::Multilayer { offsets: *offsets, layers }
            },
        }
    }
}


/// The low four bits of a mask are a mask.
pub proof fn lemma_mask(nswe: u8)
    ensures
        nswe & 15 < 16,
        nswe < 16 ==> nswe & 15 == nswe,
{
    assert(nswe & 15 < 16) by (bit_vector);
    assert(nswe < 16 ==> nswe & 15 == nswe) by (bit_vector);
}


/// `std::slice::from_ref`: a slice whose only item is the one referred to.
pub assume_specification<T>[ std::slice::from_ref::<T> ](item: &T) -> (slice: &[T])
    ensures
        slice@ == seq![*item],
;

} // verus!
