//! Edits of masks and heights, and conversions of blocks.

use vstd::prelude::*;
use vstd::string::StringExecFns;

use crate::error::{AppError, ErrorModel, Result};
use crate::l2j::block::{
    BlockModel, Direction, EditableBlock, EditableBlockType, Layer, LayerAddress, NULL_HEIGHT,
};
use crate::l2j::document::edit_laws;
use crate::l2j::document::{note, BlockState, Document, DocumentModel, EditOperation, Placed};
use crate::l2j::grid::{cell_location, checked_block_index, neighbour};
use crate::l2j::{block, document, grid};
use crate::text;
use crate::text::{copied_texts, push_decimal, push_signed};

verus! {

/// What a mask edit did.
#[derive(Debug)]
pub struct EditResult {
    pub changed_cells: usize,
    pub changed_links: usize,
    pub promoted_blocks: usize,
    pub rejected_links: Vec<String>,
}

/// What a height edit did.
#[derive(Debug)]
pub struct HeightEditResult {
    pub changed_cells: usize,
    pub promoted_blocks: usize,
    pub height: i16,
    pub rejected_cells: Vec<String>,
}

/// What an edit did: layers changed, mirrored sides changed, blocks that got
/// masks of their own, and the reasons why something was left out.
#[verifier::ext_equal]
pub struct ResultModel {
    pub changed_cells: nat,
    pub changed_links: nat,
    pub promoted_blocks: nat,
    pub rejected: Seq<Seq<char>>,
}

/// Blocks in the course of an edit, with what it did so far.
#[verifier::ext_equal]
pub struct EditModel {
    pub blocks: Seq<BlockModel>,
    pub result: ResultModel,
}

impl View for EditResult {
    type V = ResultModel;

    open spec fn view(&self) -> ResultModel {
        ResultModel {
            changed_cells: self.changed_cells as nat,
            changed_links: self.changed_links as nat,
            promoted_blocks: self.promoted_blocks as nat,
            rejected: text::texts(self.rejected_links@),
        }
    }
}

impl Clone for EditResult {
    fn clone(&self) -> (copy: Self)
        ensures
            copy@ == self@,
    {
        EditResult {
            changed_cells: self.changed_cells,
            changed_links: self.changed_links,
            promoted_blocks: self.promoted_blocks,
            rejected_links: copied_texts(&self.rejected_links),
        }
    }
}

impl Default for EditResult {
    fn default() -> (result: Self)
        ensures
            result@ == ResultModel::nothing(),
    {
        let result = EditResult {
            changed_cells: 0,
            changed_links: 0,
            promoted_blocks: 0,
            rejected_links: Vec::new(),
        };
        assert(result@ =~= ResultModel::nothing());
        result
    }
}

impl Clone for HeightEditResult {
    fn clone(&self) -> (copy: Self)
        ensures
            copy.changed_cells == self.changed_cells,
            copy.promoted_blocks == self.promoted_blocks,
            copy.height == self.height,
            text::texts(copy.rejected_cells@) == text::texts(self.rejected_cells@),
    {
        HeightEditResult {
            changed_cells: self.changed_cells,
            promoted_blocks: self.promoted_blocks,
            height: self.height,
            rejected_cells: copied_texts(&self.rejected_cells),
        }
    }
}

impl Default for HeightEditResult {
    fn default() -> (result: Self)
        ensures
            result.changed_cells == 0,
            result.promoted_blocks == 0,
            result.height == 0,
            result.rejected_cells@.len() == 0,
    {
        HeightEditResult {
            changed_cells: 0,
            promoted_blocks: 0,
            height: 0,
            rejected_cells: Vec::new(),
        }
    }
}

impl ResultModel {
    pub open spec fn nothing() -> ResultModel {
        ResultModel { changed_cells: 0, changed_links: 0, promoted_blocks: 0, rejected: Seq::empty() }
    }
}

pub open spec fn outside_grid(x: int, y: int) -> Seq<char> {
    "outside grid: "@ + text::decimal(x as nat) + ","@ + text::decimal(y as nat)
}

pub open spec fn no_such_layer(layer: int, x: int, y: int) -> Seq<char> {
    "layer "@ + text::decimal(layer as nat) + " does not exist at "@ + text::decimal(x as nat)
        + ","@ + text::decimal(y as nat)
}

pub open spec fn null_layer(layer: int, x: int, y: int) -> Seq<char> {
    "layer "@ + text::decimal(layer as nat) + " at "@ + text::decimal(x as nat) + ","@
        + text::decimal(y as nat) + " is a null-height sentinel"@
}

pub open spec fn leaves_map(direction: Direction) -> Seq<char> {
    direction.title() + " leaves the map"@
}

pub open spec fn no_neighbour(direction: Direction, x: int, y: int) -> Seq<char> {
    direction.title() + " at "@ + text::decimal(x as nat) + ","@ + text::decimal(y as nat)
        + " has no neighbour within climb "@ + text::decimal(16)
}

pub open spec fn distance(a: i16, b: i16) -> int {
    if a >= b {
        a - b
    } else {
        b - a
    }
}

/// A layer of the column that is nearest to a height; of equally near ones the
/// first. Sentinels do not count.
pub open spec fn is_nearest(column: Seq<Layer>, height: i16, layer: int) -> bool {
    &&& 0 <= layer < column.len()
    &&& column[layer].height != NULL_HEIGHT
    &&& forall|j: int|
        0 <= j < column.len() && (#[trigger] column[j]).height != NULL_HEIGHT ==> distance(
            column[layer].height,
            height,
        ) <= distance(column[j].height, height)
    &&& forall|j: int|
        0 <= j < layer && (#[trigger] column[j]).height != NULL_HEIGHT ==> distance(
            column[layer].height,
            height,
        ) < distance(column[j].height, height)
}

pub open spec fn nearest(column: Seq<Layer>, height: i16) -> Option<int> {
    if exists|layer: int| is_nearest(column, height, layer) {
        Some(choose|layer: int| is_nearest(column, height, layer))
    } else {
        None
    }
}

/// The nearest layer, where a step to it can be climbed.
pub open spec fn compatible(column: Seq<Layer>, height: i16) -> Option<int> {
    match nearest(column, height) {
        Some(layer) => if distance(column[layer].height, height) <= 16 {
            Some(layer)
        } else {
            None
        },
        None => None,
    }
}

impl EditModel {
    /// An edit that has not begun.
    pub open spec fn start(blocks: Seq<BlockModel>) -> EditModel {
        EditModel { blocks, result: ResultModel::nothing() }
    }

    pub open spec fn rejecting(self, reason: Seq<char>) -> EditModel {
        EditModel {
            result: ResultModel { rejected: self.result.rejected.push(reason), ..self.result },
            ..self
        }
    }

    /// The layers of a cell.
    pub open spec fn column(self, x: int, y: int) -> Seq<Layer> {
        self.blocks[grid::block_of(x, y)].columns[grid::column_of(x, y)]
    }

    /// The cell's block with a mask of its own for every cell.
    pub open spec fn touching(self, block: int) -> EditModel {
        EditModel {
            blocks: self.blocks.update(block, self.blocks[block].promoted()),
            result: ResultModel {
                promoted_blocks: self.result.promoted_blocks + if self.blocks[block].kind
                    == EditableBlockType::Simple {
                    1nat
                } else {
                    0nat
                },
                ..self.result
            },
        }
    }

    /// The mask of one layer replaced, in a block with masks of its own.
    pub open spec fn masking(self, block: int, column: int, layer: int, nswe: u8) -> EditModel {
        let touched = self.touching(block);
        EditModel {
            blocks: touched.blocks.update(
                block,
                touched.blocks[block].with_nswe(column, layer, nswe),
            ),
            ..touched
        }
    }

    /// One side of one layer opened or closed; counts where that changes it.
    pub open spec fn mirroring(self, x: int, y: int, layer: int, bit: u8, open: bool) -> EditModel {
        let old = self.column(x, y)[layer].nswe;
        let new = if open {
            old | bit
        } else {
            old & !bit
        };
        if old == new {
            self
        } else {
            let edit = self.masking(grid::block_of(x, y), grid::column_of(x, y), layer, new);
            EditModel {
                result: ResultModel {
                    changed_links: edit.result.changed_links + 1,
                    ..edit.result
                },
                ..edit
            }
        }
    }

    /// One side of the first layers of a cell closed.
    pub open spec fn closing(self, x: int, y: int, bit: u8, layers: nat) -> EditModel
        decreases layers,
    {
        if layers == 0 {
            self
        } else {
            self.closing(x, y, bit, (layers - 1) as nat).mirroring(
                x,
                y,
                layers - 1,
                bit,
                false,
            )
        }
    }

    /// The side of the neighbour that faces a cell, brought in line with what is
    /// asked of the cell; and the cell's mask, with the side closed where it
    /// leads nowhere. Closing a side without a compatible layer behind it closes
    /// every layer there: an old file can hold a one-way link to a layer beyond
    /// the climb limit.
    #[verifier::opaque]
    pub open spec fn linking(
        self,
        mask: u8,
        x: int,
        y: int,
        height: i16,
        requested: u8,
        direction: Direction,
    ) -> (EditModel, u8) {
        let wants_open = requested & direction.mask() != 0;
        let shut = mask & !direction.mask();
        let bit = direction.reverse().mask();
        match grid::next_cell(x, y, direction) {
            None => if wants_open {
                (self.rejecting(leaves_map(direction)), shut)
            } else {
                (self, shut)
            },
            Some((nx, ny)) => match compatible(self.column(nx, ny), height) {
                Some(layer) => (self.mirroring(nx, ny, layer, bit, wants_open), mask),
                None => if wants_open {
                    (self.rejecting(no_neighbour(direction, x, y)), shut)
                } else {
                    (self.closing(nx, ny, bit, self.column(nx, ny).len()), mask)
                },
            },
        }
    }

    /// The mask of one layer set, and its neighbours with it.
    pub open spec fn setting(self, target: LayerAddress, requested: u8) -> EditModel {
        let x = target.x as int;
        let y = target.y as int;
        let layer = target.layer as int;
        if !grid::on_map(x, y) {
            self.rejecting(outside_grid(x, y))
        } else if layer >= self.column(x, y).len() {
            self.rejecting(no_such_layer(layer, x, y))
        } else {
            let height = self.column(x, y)[layer].height;
            let start = self.touching(grid::block_of(x, y));
            let north = start.linking(requested, x, y, height, requested, Direction::North);
            let south = north.0.linking(north.1, x, y, height, requested, Direction::South);
            let west = south.0.linking(south.1, x, y, height, requested, Direction::West);
            let east = west.0.linking(west.1, x, y, height, requested, Direction::East);
            east.0.finishing(x, y, layer, east.1)
        }
    }

    /// The mask of a layer set; counts where that changes it.
    pub open spec fn finishing(self, x: int, y: int, layer: int, mask: u8) -> EditModel {
        if self.column(x, y)[layer].nswe == mask {
            self
        } else {
            let edit = self.masking(grid::block_of(x, y), grid::column_of(x, y), layer, mask);
            EditModel {
                result: ResultModel {
                    changed_cells: edit.result.changed_cells + 1,
                    ..edit.result
                },
                ..edit
            }
        }
    }

    /// The masks of the first targets set.
    pub open spec fn setting_all(
        self,
        targets: Seq<LayerAddress>,
        requested: u8,
        count: nat,
    ) -> EditModel
        decreases count,
    {
        if count == 0 {
            self
        } else {
            self.setting_all(targets, requested, (count - 1) as nat).setting(
                targets[count - 1],
                requested,
            )
        }
    }

    /// The side of the neighbour that faces a cell, brought in line with what is
    /// asked of the cell, in the layer nearest to it.
    pub open spec fn facing(
        self,
        x: int,
        y: int,
        height: i16,
        requested: u8,
        direction: Direction,
    ) -> EditModel {
        match grid::next_cell(x, y, direction) {
            None => self,
            Some((nx, ny)) => match nearest(self.column(nx, ny), height) {
                None => self,
                Some(layer) => self.mirroring(
                    nx,
                    ny,
                    layer,
                    direction.reverse().mask(),
                    requested & direction.mask() != 0,
                ),
            },
        }
    }

    /// The mask of one layer set as asked, whatever its neighbours are.
    pub open spec fn forcing(self, target: LayerAddress, requested: u8) -> EditModel {
        let x = target.x as int;
        let y = target.y as int;
        let layer = target.layer as int;
        if !grid::on_map(x, y) {
            self.rejecting(outside_grid(x, y))
        } else if layer >= self.column(x, y).len() {
            self.rejecting(no_such_layer(layer, x, y))
        } else if self.column(x, y)[layer].height == NULL_HEIGHT {
            self.rejecting(null_layer(layer, x, y))
        } else {
            let height = self.column(x, y)[layer].height;
            self.finishing(x, y, layer, requested).facing(
                x,
                y,
                height,
                requested,
                Direction::North,
            ).facing(x, y, height, requested, Direction::South).facing(
                x,
                y,
                height,
                requested,
                Direction::West,
            ).facing(x, y, height, requested, Direction::East)
        }
    }

    /// The masks of the first targets set as asked.
    pub open spec fn forcing_all(
        self,
        targets: Seq<LayerAddress>,
        requested: u8,
        count: nat,
    ) -> EditModel
        decreases count,
    {
        if count == 0 {
            self
        } else {
            self.forcing_all(targets, requested, (count - 1) as nat).forcing(
                targets[count - 1],
                requested,
            )
        }
    }

    /// The height of one layer set.
    pub open spec fn raising(self, target: LayerAddress, height: i16) -> EditModel {
        let x = target.x as int;
        let y = target.y as int;
        let layer = target.layer as int;
        if !grid::on_map(x, y) {
            self.rejecting(outside_grid(x, y))
        } else if layer >= self.column(x, y).len() {
            self.rejecting(no_such_layer(layer, x, y))
        } else if self.column(x, y)[layer].height == NULL_HEIGHT {
            self.rejecting(null_layer(layer, x, y))
        } else if self.column(x, y)[layer].height == height {
            self
        } else {
            let block = grid::block_of(x, y);
            let touched = self.touching(block);
            EditModel {
                blocks: touched.blocks.update(
                    block,
                    touched.blocks[block].with_height(grid::column_of(x, y), layer, height),
                ),
                result: ResultModel {
                    changed_cells: touched.result.changed_cells + 1,
                    ..touched.result
                },
            }
        }
    }

    /// The heights of the first targets set.
    pub open spec fn raising_all(
        self,
        targets: Seq<LayerAddress>,
        height: i16,
        count: nat,
    ) -> EditModel
        decreases count,
    {
        if count == 0 {
            self
        } else {
            self.raising_all(targets, height, (count - 1) as nat).raising(
                targets[count - 1],
                height,
            )
        }
    }
}

/// The blocks that an edit touched, as they were before it.
struct Snapshot {
    touched: Vec<bool>,
    entries: Vec<(usize, EditableBlock)>,
}

impl Snapshot {
    /// Every block is either untouched and as it was at the start, or kept here
    /// as it was at the start.
    spec fn tracks(&self, start: Seq<BlockModel>, blocks: Seq<BlockState>) -> bool {
        &&& start.len() == 65_536
        &&& self.touched@.len() == 65_536
        &&& document::entries_ok(self.entries@)
        &&& forall|k: int|
            0 <= k < self.entries@.len() ==> self.touched@[(#[trigger] self.entries@[k]).0 as int]
                && self.entries@[k].1@ == start[self.entries@[k].0 as int]
        &&& forall|i: int|
            0 <= i < 65_536 && #[trigger] self.touched@[i] ==> exists|k: int|
                0 <= k < self.entries@.len() && (#[trigger] self.entries@[k]).0 == i
        &&& forall|i: int|
            0 <= i < 65_536 && !#[trigger] self.touched@[i] ==> blocks[i].current@ == start[i]
    }

    fn new(Ghost(start): Ghost<Seq<BlockModel>>, Ghost(blocks): Ghost<Seq<BlockState>>) -> (snapshot:
        Self)
        requires
            start == document::current_models(blocks),
            start.len() == 65_536,
        ensures
            snapshot.tracks(start, blocks),
    {
        Snapshot { touched: vec![false; 65_536], entries: Vec::new() }
    }
}

/// The state of an edit: well formed blocks, placed as they were, whose start is kept.
spec fn in_progress(
    blocks: Seq<BlockState>,
    before: Snapshot,
    start: Seq<BlockModel>,
    placed: Seq<Placed>,
) -> bool {
    &&& blocks.len() == 65_536
    &&& document::states_ok(blocks)
    &&& document::placed_models(blocks) == placed
    &&& before.tracks(start, blocks)
}

/// Keeps a block as it was before the edit.
fn snapshot(
    blocks: &Vec<BlockState>,
    before: &mut Snapshot,
    index: usize,
    Ghost(start): Ghost<Seq<BlockModel>>,
    Ghost(placed): Ghost<Seq<Placed>>,
)
    requires
        in_progress(blocks@, *old(before), start, placed),
        index < 65_536,
    ensures
        in_progress(blocks@, *final(before), start, placed),
        final(before).touched@[index as int],
{
    if before.touched[index] {
        return;
    }
    let ghost entries = before.entries@;
    assert(blocks@[index as int].current.well_formed());
    before.entries.push((index, blocks[index].current.clone()));
    before.touched[index] = true;
    proof {
        let now = before.entries@;
        assert forall|j: int, k: int| 0 <= j < k < now.len() implies (#[trigger] now[j]).0 != (
        #[trigger] now[k]).0 by {
            if k == entries.len() {
                assert(old(before).touched@[entries[j].0 as int]);
            }
        }
        assert forall|i: int| 0 <= i < 65_536 && #[trigger] before.touched@[i] implies exists|k: int|
            0 <= k < now.len() && (#[trigger] now[k]).0 == i by {
            if i == index {
                assert(now[entries.len() as int].0 == i);
            } else {
                assert(old(before).touched@[i]);
                let k = choose|k: int| 0 <= k < entries.len() && (#[trigger] entries[k]).0 == i;
                assert(now[k].0 == i);
            }
        }
        assert forall|k: int| 0 <= k < now.len() implies before.touched@[(
        #[trigger] now[k]).0 as int] && now[k].1@ == start[now[k].0 as int] by {
            if k < entries.len() {
                assert(old(before).touched@[entries[k].0 as int]);
            }
        }
    }
}

/// Replaces the current state of a block that is kept.
proof fn lemma_replaced(
    old_blocks: Seq<BlockState>,
    blocks: Seq<BlockState>,
    before: Snapshot,
    start: Seq<BlockModel>,
    placed: Seq<Placed>,
    index: int,
)
    requires
        in_progress(old_blocks, before, start, placed),
        0 <= index < 65_536,
        before.touched@[index],
        blocks.len() == 65_536,
        blocks[index].current.well_formed(),
        blocks[index].original == old_blocks[index].original,
        blocks[index].start == old_blocks[index].start,
        blocks[index].end == old_blocks[index].end,
        forall|i: int| 0 <= i < 65_536 && i != index ==> #[trigger] blocks[i] == old_blocks[i],
    ensures
        in_progress(blocks, before, start, placed),
        document::current_models(blocks) == document::current_models(old_blocks).update(index, blocks[index].current@),
{
    assert forall|i: int| 0 <= i < 65_536 implies #[trigger] document::placed_models(blocks)[i]
        == document::placed_models(old_blocks)[i] by {
        if i != index {
            assert(blocks[i] == old_blocks[i]);
        }
    }
    assert(document::placed_models(blocks) =~= document::placed_models(old_blocks));
    assert forall|i: int| 0 <= i < 65_536 implies (#[trigger] blocks[i]).original.well_formed()
        && blocks[i].current.well_formed() by {
        assert(old_blocks[i].original.well_formed());
        if i != index {
            assert(blocks[i] == old_blocks[i]);
        }
    }
    assert(document::current_models(blocks) =~= document::current_models(old_blocks).update(
        index,
        blocks[index].current@,
    ));
}

/// Keeps a block and gives it masks of its own.
fn touch(
    blocks: &mut Vec<BlockState>,
    before: &mut Snapshot,
    promoted: &mut usize,
    index: usize,
    Ghost(start): Ghost<Seq<BlockModel>>,
    Ghost(placed): Ghost<Seq<Placed>>,
)
    requires
        in_progress(old(blocks)@, *old(before), start, placed),
        index < 65_536,
        *old(promoted) < usize::MAX,
    ensures
        in_progress(final(blocks)@, *final(before), start, placed),
        final(before).touched@[index as int],
        document::current_models(final(blocks)@) == document::current_models(old(blocks)@).update(
            index as int,
            document::current_models(old(blocks)@)[index as int].promoted(),
        ),
        *final(promoted) == *old(promoted) + if document::current_models(old(blocks)@)[index as int].kind
            == EditableBlockType::Simple {
            1nat
        } else {
            0nat
        },
{
    snapshot(blocks, before, index, Ghost(start), Ghost(placed));
    let ghost old_blocks = blocks@;
    assert(blocks@[index as int].current.well_formed());
    if blocks[index].current.promote_to_complex() {
        *promoted += 1;
    }
    proof {
        lemma_replaced(old_blocks, blocks@, *before, start, placed, index as int);
    }
}

proof fn lemma_bits(old: u8, bit: u8)
    requires
        old < 16,
        bit == 1 || bit == 2 || bit == 4 || bit == 8,
    ensures
        old | bit < 16,
        old & !bit < 16,
{
    assert(old | bit < 16) by (bit_vector)
        requires
            old < 16,
            bit == 1 || bit == 2 || bit == 4 || bit == 8,
    ;
    assert(old & !bit < 16) by (bit_vector)
        requires
            old < 16,
    ;
}

/// Sets the mask of a layer that exists.
fn put_mask(
    blocks: &mut Vec<BlockState>,
    before: &mut Snapshot,
    promoted: &mut usize,
    place: (usize, usize),
    layer: usize,
    nswe: u8,
    Ghost(start): Ghost<Seq<BlockModel>>,
    Ghost(placed): Ghost<Seq<Placed>>,
    Ghost(edit): Ghost<EditModel>,
)
    requires
        in_progress(old(blocks)@, *old(before), start, placed),
        place.0 < 65_536,
        place.1 < 64,
        nswe < 16,
        *old(promoted) < usize::MAX,
        edit.blocks == document::current_models(old(blocks)@),
        edit.result.promoted_blocks == *old(promoted),
        layer < edit.blocks[place.0 as int].columns[place.1 as int].len(),
    ensures
        in_progress(final(blocks)@, *final(before), start, placed),
        ({
            let after = edit.masking(place.0 as int, place.1 as int, layer as int, nswe);
            &&& after.blocks == document::current_models(final(blocks)@)
            &&& after.result.promoted_blocks == *final(promoted)
        }),
        *final(promoted) <= *old(promoted) + 1,
{
    let (index, column) = place;
    touch(blocks, before, promoted, index, Ghost(start), Ghost(placed));
    let ghost old_blocks = blocks@;
    let ghost current = blocks@[index as int].current;
    proof {
        assert(current.well_formed());
        current.lemma_cut();
        assert(current@ == edit.touching(index as int).blocks[index as int]);
        assert(current@.columns == edit.blocks[index as int].columns);
        block::lemma_mask(nswe);
        if current is Complex {
            assert(current@.columns[column as int].len() == 1);
        }
    }
    let _ = blocks[index].current.set_layer_nswe(column, layer, nswe);
    proof {
        assert(current.nswe_refusal(column as int, layer as int) is None);
        lemma_replaced(old_blocks, blocks@, *before, start, placed, index as int);
        assert(edit.masking(index as int, column as int, layer as int, nswe).blocks
            =~= document::current_models(blocks@));
    }
}

fn report_outside(x: usize, y: usize) -> (message: String)
    ensures
        message@ == outside_grid(x as int, y as int),
{
    let mut message = "outside grid: ".to_owned();
    push_decimal(&mut message, x as u64);
    message.append(",");
    push_decimal(&mut message, y as u64);
    message
}

fn report_no_layer(target: LayerAddress) -> (message: String)
    ensures
        message@ == no_such_layer(target.layer as int, target.x as int, target.y as int),
{
    let mut message = "layer ".to_owned();
    push_decimal(&mut message, target.layer as u64);
    message.append(" does not exist at ");
    push_decimal(&mut message, target.x as u64);
    message.append(",");
    push_decimal(&mut message, target.y as u64);
    message
}

fn report_null(target: LayerAddress) -> (message: String)
    ensures
        message@ == null_layer(target.layer as int, target.x as int, target.y as int),
{
    let mut message = "layer ".to_owned();
    push_decimal(&mut message, target.layer as u64);
    message.append(" at ");
    push_decimal(&mut message, target.x as u64);
    message.append(",");
    push_decimal(&mut message, target.y as u64);
    message.append(" is a null-height sentinel");
    message
}

fn report_edge(direction: Direction) -> (message: String)
    ensures
        message@ == leaves_map(direction),
{
    let mut message = direction.name().to_owned();
    message.append(" leaves the map");
    message
}

fn report_no_neighbour(direction: Direction, x: usize, y: usize) -> (message: String)
    ensures
        message@ == no_neighbour(direction, x as int, y as int),
{
    let mut message = direction.name().to_owned();
    message.append(" at ");
    push_decimal(&mut message, x as u64);
    message.append(",");
    push_decimal(&mut message, y as u64);
    message.append(" has no neighbour within climb ");
    push_decimal(&mut message, 16);
    message
}

fn height_distance(a: i16, b: i16) -> (result: i32)
    ensures
        result == distance(a, b),
        result >= 0,
{
    if a >= b {
        a as i32 - b as i32
    } else {
        b as i32 - a as i32
    }
}

/// The layer of a column that is nearest to a height.
pub fn find_nearest_layer(column: &[Layer], height: i16) -> (found: Option<usize>)
    ensures
        match found {
            Some(layer) => nearest(column@, height) == Some(layer as int) && layer < column@.len(),
            None => nearest(column@, height) is None,
        },
{
    let mut best: Option<usize> = None;
    let mut next: usize = 0;
    while next < column.len()
        invariant
            next <= column.len(),
            match best {
                Some(layer) => {
                    &&& layer < next
                    &&& column@[layer as int].height != NULL_HEIGHT
                    &&& forall|j: int|
                        0 <= j < next && (#[trigger] column@[j]).height != NULL_HEIGHT ==> distance(
                            column@[layer as int].height,
                            height,
                        ) <= distance(column@[j].height, height)
                    &&& forall|j: int|
                        0 <= j < layer && (#[trigger] column@[j]).height != NULL_HEIGHT
                            ==> distance(column@[layer as int].height, height) < distance(
                            column@[j].height,
                            height,
                        )
                },
                None => forall|j: int|
                    0 <= j < next ==> (#[trigger] column@[j]).height == NULL_HEIGHT,
            },
        decreases column.len() - next,
    {
        if column[next].height != NULL_HEIGHT {
            match best {
                Some(layer) => {
                    if height_distance(column[next].height, height) < height_distance(
                        column[layer].height,
                        height,
                    ) {
                        best = Some(next);
                    }
                },
                None => {
                    best = Some(next);
                },
            }
        }
        next += 1;
    }
    proof {
        if let Some(layer) = best {
            assert(is_nearest(column@, height, layer as int));
            lemma_nearest(column@, height, layer as int);
        } else {
            assert forall|layer: int| !is_nearest(column@, height, layer) by {}
        }
    }
    best
}

/// There is one nearest layer at most.
pub proof fn lemma_nearest(column: Seq<Layer>, height: i16, layer: int)
    requires
        is_nearest(column, height, layer),
    ensures
        nearest(column, height) == Some(layer),
{
    let other = nearest(column, height)->0;
    assert(is_nearest(column, height, other));
    assert(column[other].height != NULL_HEIGHT && column[layer].height != NULL_HEIGHT);
}

/// The nearest layer, where a step to it can be climbed.
pub fn find_compatible_layer(column: &[Layer], height: i16) -> (found: Option<usize>)
    ensures
        match found {
            Some(layer) => compatible(column@, height) == Some(layer as int) && layer
                < column@.len(),
            None => compatible(column@, height) is None,
        },
{
    match find_nearest_layer(column, height) {
        Some(layer) => if height_distance(column[layer].height, height) <= 16 {
            Some(layer)
        } else {
            None
        },
        None => None,
    }
}

/// Counters that can still grow by some steps.
spec fn has_room(result: EditResult, steps: int) -> bool {
    &&& result.changed_cells + steps <= usize::MAX
    &&& result.changed_links + steps <= usize::MAX
    &&& result.promoted_blocks + steps <= usize::MAX
}

/// Counters that grew by some steps at most.
spec fn grew(before: EditResult, after: EditResult, steps: int) -> bool {
    &&& before.changed_cells <= after.changed_cells <= before.changed_cells + steps
    &&& before.changed_links <= after.changed_links <= before.changed_links + steps
    &&& before.promoted_blocks <= after.promoted_blocks <= before.promoted_blocks + steps
}

/// The exact state of an edit.
spec fn at_edit(blocks: Seq<BlockState>, result: EditResult, edit: EditModel) -> bool {
    edit.blocks == document::current_models(blocks) && edit.result == result@
}

/// The layers of a cell in the course of an edit.
fn column_of_cell(
    blocks: &Vec<BlockState>,
    place: (usize, usize),
    Ghost(edit): Ghost<EditModel>,
) -> (column: &[Layer])
    requires
        blocks@.len() == 65_536,
        document::states_ok(blocks@),
        place.0 < 65_536,
        place.1 < 64,
        edit.blocks == document::current_models(blocks@),
    ensures
        column@ == edit.blocks[place.0 as int].columns[place.1 as int],
        column@.len() <= 65_535,
        forall|j: int| 0 <= j < column@.len() ==> (#[trigger] column@[j]).nswe < 16,
{
    let current = &blocks[place.0].current;
    proof {
        assert(blocks@[place.0 as int].current.well_formed());
        current.lemma_cut();
        assert(current.has_column(place.1 as int));
        assert(current.column(place.1 as int) == current@.columns[place.1 as int]);
        assert forall|j: int| 0 <= j < current@.columns[place.1 as int].len() implies (
        #[trigger] current@.columns[place.1 as int][j]).nswe < 16 by {
            assert(current@.columns[place.1 as int][j].storable());
        }
    }
    current.layers(place.1)
}

/// Opens or closes one side of one layer of a cell.
fn mirror(
    blocks: &mut Vec<BlockState>,
    before: &mut Snapshot,
    result: &mut EditResult,
    x: usize,
    y: usize,
    layer: usize,
    bit: u8,
    open: bool,
    Ghost(start): Ghost<Seq<BlockModel>>,
    Ghost(placed): Ghost<Seq<Placed>>,
    Ghost(edit): Ghost<EditModel>,
)
    requires
        in_progress(old(blocks)@, *old(before), start, placed),
        at_edit(old(blocks)@, *old(result), edit),
        grid::on_map(x as int, y as int),
        layer < edit.column(x as int, y as int).len(),
        bit == 1 || bit == 2 || bit == 4 || bit == 8,
        has_room(*old(result), 1),
    ensures
        in_progress(final(blocks)@, *final(before), start, placed),
        at_edit(
            final(blocks)@,
            *final(result),
            edit.mirroring(x as int, y as int, layer as int, bit, open),
        ),
        grew(*old(result), *final(result), 1),
{
    let place = match cell_location(x, y) {
        Some(place) => place,
        None => vstd::pervasive::unreached(),
    };
    let old_mask: u8 = column_of_cell(blocks, place, Ghost(edit))[layer].nswe;
    proof {
        lemma_bits(old_mask, bit);
    }
    let new_mask: u8 = if open {
        old_mask | bit
    } else {
        old_mask & !bit
    };
    if old_mask != new_mask {
        put_mask(
            blocks,
            before,
            &mut result.promoted_blocks,
            place,
            layer,
            new_mask,
            Ghost(start),
            Ghost(placed),
            Ghost(edit),
        );
        result.changed_links += 1;
        proof {
            let after = edit.mirroring(x as int, y as int, layer as int, bit, open);
            assert(after.result =~= result@);
        }
    }
}

/// Closes one side of every layer of a cell.
fn close_all(
    blocks: &mut Vec<BlockState>,
    before: &mut Snapshot,
    result: &mut EditResult,
    x: usize,
    y: usize,
    bit: u8,
    Ghost(start): Ghost<Seq<BlockModel>>,
    Ghost(placed): Ghost<Seq<Placed>>,
    Ghost(edit): Ghost<EditModel>,
)
    requires
        in_progress(old(blocks)@, *old(before), start, placed),
        at_edit(old(blocks)@, *old(result), edit),
        grid::on_map(x as int, y as int),
        bit == 1 || bit == 2 || bit == 4 || bit == 8,
        has_room(*old(result), edit.column(x as int, y as int).len() as int),
    ensures
        in_progress(final(blocks)@, *final(before), start, placed),
        at_edit(
            final(blocks)@,
            *final(result),
            edit.closing(x as int, y as int, bit, edit.column(x as int, y as int).len()),
        ),
        grew(*old(result), *final(result), edit.column(x as int, y as int).len() as int),
{
    let place = match cell_location(x, y) {
        Some(place) => place,
        None => vstd::pervasive::unreached(),
    };
    let count: usize = column_of_cell(blocks, place, Ghost(edit)).len();
    let mut layer: usize = 0;
    while layer < count
        invariant
            layer <= count,
            grid::on_map(x as int, y as int),
            bit == 1 || bit == 2 || bit == 4 || bit == 8,
            count == edit.column(x as int, y as int).len(),
            has_room(*old(result), count as int),
            in_progress(blocks@, *before, start, placed),
            at_edit(blocks@, *result, edit.closing(x as int, y as int, bit, layer as nat)),
            edit.closing(x as int, y as int, bit, layer as nat).column(x as int, y as int).len()
                == count,
            grew(*old(result), *result, layer as int),
        decreases count - layer,
    {
        let ghost now = edit.closing(x as int, y as int, bit, layer as nat);
        proof {
            now.lemma_mirroring_keeps(x as int, y as int, layer as int, bit, false);
        }
        mirror(
            blocks,
            before,
            result,
            x,
            y,
            layer,
            bit,
            false,
            Ghost(start),
            Ghost(placed),
            Ghost(now),
        );
        layer += 1;
    }
}

impl EditModel {
    /// The blocks of an edit are those of a map.
    pub open spec fn sound(self) -> bool {
        self.blocks.len() == 65_536 && forall|b: int|
            0 <= b < 65_536 ==> (#[trigger] self.blocks[b]).columns.len() == 64
    }

    /// A mask edit keeps the length and the heights of every column.
    pub proof fn lemma_masking_keeps(self, block: int, column: int, layer: int, nswe: u8)
        requires
            0 <= block < self.blocks.len(),
            0 <= column < self.blocks[block].columns.len(),
            0 <= layer < self.blocks[block].columns[column].len(),
        ensures
            ({
                let after = self.masking(block, column, layer, nswe);
                &&& after.blocks.len() == self.blocks.len()
                &&& forall|b: int|
                    0 <= b < self.blocks.len() ==> (#[trigger] after.blocks[b]).columns.len()
                        == self.blocks[b].columns.len()
                &&& forall|b: int, c: int|
                    0 <= b < self.blocks.len() && 0 <= c < self.blocks[b].columns.len() ==> (
                    #[trigger] after.blocks[b].columns[c]).len() == self.blocks[b].columns[c].len()
                &&& forall|b: int, c: int, l: int|
                    0 <= b < self.blocks.len() && 0 <= c < self.blocks[b].columns.len() && 0 <= l
                        < self.blocks[b].columns[c].len() ==> (
                    #[trigger] after.blocks[b].columns[c][l]).height
                        == self.blocks[b].columns[c][l].height
                &&& forall|b: int, c: int, l: int|
                    0 <= b < self.blocks.len() && 0 <= c < self.blocks[b].columns.len() && 0 <= l
                        < self.blocks[b].columns[c].len() && !(b == block && c == column && l
                        == layer) ==> #[trigger] after.blocks[b].columns[c][l]
                        == self.blocks[b].columns[c][l]
                &&& after.blocks[block].columns[column][layer].nswe == nswe
            }),
    {
    }

    pub proof fn lemma_mirroring_keeps(self, x: int, y: int, layer: int, bit: u8, open: bool)
        requires
            grid::on_map(x, y),
            self.blocks.len() == 65_536,
            self.blocks[grid::block_of(x, y)].columns.len() == 64,
            0 <= layer < self.column(x, y).len(),
        ensures
            self.mirroring(x, y, layer, bit, open).column(x, y).len() == self.column(x, y).len(),
            self.mirroring(x, y, layer, bit, open).blocks.len() == 65_536,
            self.mirroring(x, y, layer, bit, open).blocks[grid::block_of(x, y)].columns.len() == 64,
    {
        let old = self.column(x, y)[layer].nswe;
        let new = if open {
            old | bit
        } else {
            old & !bit
        };
        self.lemma_masking_keeps(grid::block_of(x, y), grid::column_of(x, y), layer, new);
    }
}

/// Brings the neighbour of a cell in line with what is asked of the cell, and
/// gives the cell's mask with the side closed where it leads nowhere.
fn link(
    blocks: &mut Vec<BlockState>,
    before: &mut Snapshot,
    result: &mut EditResult,
    mask: u8,
    target: LayerAddress,
    height: i16,
    requested: u8,
    direction: Direction,
    Ghost(start): Ghost<Seq<BlockModel>>,
    Ghost(placed): Ghost<Seq<Placed>>,
    Ghost(edit): Ghost<EditModel>,
    Ghost(layers): Ghost<nat>,
) -> (new_mask: u8)
    requires
        in_progress(old(blocks)@, *old(before), start, placed),
        at_edit(old(blocks)@, *old(result), edit),
        grid::on_map(target.x as int, target.y as int),
        mask < 16,
        shallow(edit.blocks, layers),
        has_room(*old(result), layers as int),
    ensures
        in_progress(final(blocks)@, *final(before), start, placed),
        ({
            let after = edit.linking(
                mask,
                target.x as int,
                target.y as int,
                height,
                requested,
                direction,
            );
            at_edit(final(blocks)@, *final(result), after.0) && new_mask == after.1
        }),
        new_mask < 16,
        grew(*old(result), *final(result), layers as int),
{
    let wants_open = requested & direction.bit() != 0;
    let opposite: u8 = direction.opposite().bit();
    proof {
        reveal(EditModel::linking);
        lemma_bits(mask, direction.mask());
    }
    match neighbour(target.x, target.y, direction) {
        None => {
            if wants_open {
                result.rejected_links.push(report_edge(direction));
                assert(result@ =~= edit.rejecting(leaves_map(direction)).result);
            }
            mask & !direction.bit()
        },
        Some((nx, ny)) => {
            let place = match cell_location(nx, ny) {
                Some(place) => place,
                None => vstd::pervasive::unreached(),
            };
            assert(edit.blocks[place.0 as int].columns[place.1 as int].len() <= layers);
            let found = find_compatible_layer(
                column_of_cell(blocks, place, Ghost(edit)),
                height,
            );
            match found {
                Some(layer) => {
                    mirror(
                        blocks,
                        before,
                        result,
                        nx,
                        ny,
                        layer,
                        opposite,
                        wants_open,
                        Ghost(start),
                        Ghost(placed),
                        Ghost(edit),
                    );
                    mask
                },
                None => {
                    if wants_open {
                        result.rejected_links.push(
                            report_no_neighbour(direction, target.x, target.y),
                        );
                        assert(result@ =~= edit.rejecting(
                            no_neighbour(direction, target.x as int, target.y as int),
                        ).result);
                        mask & !direction.bit()
                    } else {
                        close_all(
                            blocks,
                            before,
                            result,
                            nx,
                            ny,
                            opposite,
                            Ghost(start),
                            Ghost(placed),
                            Ghost(edit),
                        );
                        mask
                    }
                },
            }
        },
    }
}

/// Sets the mask of a layer that exists, and counts the change.
fn finish(
    blocks: &mut Vec<BlockState>,
    before: &mut Snapshot,
    result: &mut EditResult,
    target: LayerAddress,
    mask: u8,
    Ghost(start): Ghost<Seq<BlockModel>>,
    Ghost(placed): Ghost<Seq<Placed>>,
    Ghost(edit): Ghost<EditModel>,
)
    requires
        in_progress(old(blocks)@, *old(before), start, placed),
        at_edit(old(blocks)@, *old(result), edit),
        grid::on_map(target.x as int, target.y as int),
        target.layer < edit.column(target.x as int, target.y as int).len(),
        mask < 16,
        has_room(*old(result), 1),
    ensures
        in_progress(final(blocks)@, *final(before), start, placed),
        at_edit(
            final(blocks)@,
            *final(result),
            edit.finishing(target.x as int, target.y as int, target.layer as int, mask),
        ),
        grew(*old(result), *final(result), 1),
{
    let place = match cell_location(target.x, target.y) {
        Some(place) => place,
        None => vstd::pervasive::unreached(),
    };
    let old_mask: u8 = column_of_cell(blocks, place, Ghost(edit))[target.layer].nswe;
    if old_mask != mask {
        put_mask(
            blocks,
            before,
            &mut result.promoted_blocks,
            place,
            target.layer,
            mask,
            Ghost(start),
            Ghost(placed),
            Ghost(edit),
        );
        result.changed_cells += 1;
        proof {
            let after = edit.finishing(
                target.x as int,
                target.y as int,
                target.layer as int,
                mask,
            );
            assert(after.result =~= result@);
        }
    }
}

/// No column of some blocks has more than a number of layers.
pub open spec fn shallow(blocks: Seq<BlockModel>, layers: nat) -> bool {
    forall|b: int, c: int|
        0 <= b < blocks.len() && 0 <= c < blocks[b].columns.len() ==> (
        #[trigger] blocks[b].columns[c]).len() <= layers
}

/// Changes that setting the mask of one layer makes at most: one to the block
/// and the layer each, and on every side one to each layer of the neighbour.
pub open spec fn setting_steps(layers: nat) -> nat {
    4 * layers + 2
}

/// The changes that setting the masks of some layers makes can be counted.
pub open spec fn countable(blocks: Seq<BlockModel>, targets: nat) -> bool {
    exists|layers: nat| #[trigger]
        shallow(blocks, layers) && targets * setting_steps(layers) <= usize::MAX
}

fn set_one_nswe(
    blocks: &mut Vec<BlockState>,
    before: &mut Snapshot,
    result: &mut EditResult,
    target: LayerAddress,
    requested: u8,
    Ghost(start): Ghost<Seq<BlockModel>>,
    Ghost(placed): Ghost<Seq<Placed>>,
    Ghost(edit): Ghost<EditModel>,
    Ghost(layers): Ghost<nat>,
)
    requires
        in_progress(old(blocks)@, *old(before), start, placed),
        at_edit(old(blocks)@, *old(result), edit),
        requested < 16,
        shallow(edit.blocks, layers),
        has_room(*old(result), setting_steps(layers) as int),
    ensures
        in_progress(final(blocks)@, *final(before), start, placed),
        at_edit(final(blocks)@, *final(result), edit.setting(target, requested)),
        grew(*old(result), *final(result), setting_steps(layers) as int),
{
    let ghost x = target.x as int;
    let ghost y = target.y as int;
    let place = match cell_location(target.x, target.y) {
        Some(place) => place,
        None => {
            result.rejected_links.push(report_outside(target.x, target.y));
            assert(result@ =~= edit.rejecting(outside_grid(x, y)).result);
            return;
        },
    };
    let column = column_of_cell(blocks, place, Ghost(edit));
    if target.layer >= column.len() {
        result.rejected_links.push(report_no_layer(target));
        assert(result@ =~= edit.rejecting(no_such_layer(target.layer as int, x, y)).result);
        return;
    }
    let height: i16 = column[target.layer].height;
    touch(blocks, before, &mut result.promoted_blocks, place.0, Ghost(start), Ghost(placed));
    let ghost first = edit.touching(place.0 as int);
    proof {
        assert(first.result =~= result@);
        assert(at_edit(blocks@, *result, first));
    }
    proof {
        assert(edit.same_shape(first));
        lemma_still_shallow(edit, first, layers);
        first.lemma_linking_shape(requested, x, y, height, requested, Direction::North);
    }
    let north: u8 = link(
        blocks,
        before,
        result,
        requested,
        target,
        height,
        requested,
        Direction::North,
        Ghost(start),
        Ghost(placed),
        Ghost(first),
        Ghost(layers),
    );
    let ghost after_north = first.linking(requested, x, y, height, requested, Direction::North);
    proof {
        lemma_still_shallow(first, after_north.0, layers);
        after_north.0.lemma_linking_shape(
            after_north.1,
            x,
            y,
            height,
            requested,
            Direction::South,
        );
    }
    let south: u8 = link(
        blocks,
        before,
        result,
        north,
        target,
        height,
        requested,
        Direction::South,
        Ghost(start),
        Ghost(placed),
        Ghost(after_north.0),
        Ghost(layers),
    );
    let ghost after_south = after_north.0.linking(
        after_north.1,
        x,
        y,
        height,
        requested,
        Direction::South,
    );
    proof {
        lemma_still_shallow(after_north.0, after_south.0, layers);
        after_south.0.lemma_linking_shape(
            after_south.1,
            x,
            y,
            height,
            requested,
            Direction::West,
        );
    }
    let west: u8 = link(
        blocks,
        before,
        result,
        south,
        target,
        height,
        requested,
        Direction::West,
        Ghost(start),
        Ghost(placed),
        Ghost(after_south.0),
        Ghost(layers),
    );
    let ghost after_west = after_south.0.linking(
        after_south.1,
        x,
        y,
        height,
        requested,
        Direction::West,
    );
    proof {
        lemma_still_shallow(after_south.0, after_west.0, layers);
    }
    let east: u8 = link(
        blocks,
        before,
        result,
        west,
        target,
        height,
        requested,
        Direction::East,
        Ghost(start),
        Ghost(placed),
        Ghost(after_west.0),
        Ghost(layers),
    );
    let ghost after_east = after_west.0.linking(
        after_west.1,
        x,
        y,
        height,
        requested,
        Direction::East,
    );
    proof {
        first.lemma_four_links(requested, x, y, height, requested, target.layer as int);
    }
    finish(
        blocks,
        before,
        result,
        target,
        east,
        Ghost(start),
        Ghost(placed),
        Ghost(after_east.0),
    );
}

/// Blocks of the same shape have as many layers.
proof fn lemma_still_shallow(first: EditModel, later: EditModel, layers: nat)
    requires
        shallow(first.blocks, layers),
        first.same_shape(later),
    ensures
        shallow(later.blocks, layers),
{
    assert forall|b: int, c: int|
        0 <= b < later.blocks.len() && 0 <= c < later.blocks[b].columns.len() implies (
    #[trigger] later.blocks[b].columns[c]).len() <= layers by {
        assert(later.blocks[b].columns.len() == first.blocks[b].columns.len());
        assert(first.blocks[b].columns[c].len() <= layers);
    }
}

impl EditModel {
    /// An edit of masks leaves every column its length and heights.
    pub open spec fn same_shape(self, other: EditModel) -> bool {
        &&& other.blocks.len() == self.blocks.len()
        &&& forall|b: int|
            0 <= b < self.blocks.len() ==> (#[trigger] other.blocks[b]).columns.len()
                == self.blocks[b].columns.len()
        &&& forall|b: int, c: int|
            0 <= b < self.blocks.len() && 0 <= c < self.blocks[b].columns.len() ==> (
            #[trigger] other.blocks[b].columns[c]).len() == self.blocks[b].columns[c].len()
        &&& forall|b: int, c: int, l: int|
            0 <= b < self.blocks.len() && 0 <= c < self.blocks[b].columns.len() && 0 <= l
                < self.blocks[b].columns[c].len() ==> (
            #[trigger] other.blocks[b].columns[c][l]).height == self.blocks[b].columns[c][l].height
    }

    proof fn lemma_mirroring_shape(self, x: int, y: int, layer: int, bit: u8, open: bool)
        requires
            self.sound(),
            grid::on_map(x, y),
            0 <= layer < self.column(x, y).len(),
        ensures
            self.mirroring(x, y, layer, bit, open).sound(),
            self.same_shape(self.mirroring(x, y, layer, bit, open)),
    {
        let old = self.column(x, y)[layer].nswe;
        let new = if open {
            old | bit
        } else {
            old & !bit
        };
        self.lemma_masking_keeps(grid::block_of(x, y), grid::column_of(x, y), layer, new);
    }

    proof fn lemma_closing_shape(self, x: int, y: int, bit: u8, layers: nat)
        requires
            self.sound(),
            grid::on_map(x, y),
            layers <= self.column(x, y).len(),
        ensures
            self.closing(x, y, bit, layers).sound(),
            self.same_shape(self.closing(x, y, bit, layers)),
        decreases layers,
    {
        if layers > 0 {
            self.lemma_closing_shape(x, y, bit, (layers - 1) as nat);
            let before = self.closing(x, y, bit, (layers - 1) as nat);
            grid::lemma_location(x, y);
            assert(before.column(x, y).len() == self.column(x, y).len());
            before.lemma_mirroring_shape(x, y, layers - 1, bit, false);
        }
    }

    pub proof fn lemma_linking_shape(
        self,
        mask: u8,
        x: int,
        y: int,
        height: i16,
        requested: u8,
        direction: Direction,
    )
        requires
            self.sound(),
            grid::on_map(x, y),
        ensures
            self.linking(mask, x, y, height, requested, direction).0.sound(),
            self.same_shape(self.linking(mask, x, y, height, requested, direction).0),
    {
        reveal(EditModel::linking);
        let bit = direction.reverse().mask();
        if let Some((nx, ny)) = grid::next_cell(x, y, direction) {
            let column = self.column(nx, ny);
            match compatible(column, height) {
                Some(layer) => {
                    let near = choose|layer: int| is_nearest(column, height, layer);
                    self.lemma_mirroring_shape(
                        nx,
                        ny,
                        layer,
                        bit,
                        requested & direction.mask() != 0,
                    );
                },
                None => {
                    self.lemma_closing_shape(nx, ny, bit, column.len());
                },
            }
        }
    }

    proof fn lemma_four_links(
        self,
        mask: u8,
        x: int,
        y: int,
        height: i16,
        requested: u8,
        layer: int,
    )
        requires
            self.sound(),
            grid::on_map(x, y),
            0 <= layer < self.column(x, y).len(),
        ensures
            ({
                let north = self.linking(mask, x, y, height, requested, Direction::North);
                let south = north.0.linking(north.1, x, y, height, requested, Direction::South);
                let west = south.0.linking(south.1, x, y, height, requested, Direction::West);
                let east = west.0.linking(west.1, x, y, height, requested, Direction::East);
                &&& east.0.sound()
                &&& self.same_shape(east.0)
                &&& layer < east.0.column(x, y).len()
            }),
    {
        grid::lemma_location(x, y);
        let north = self.linking(mask, x, y, height, requested, Direction::North);
        self.lemma_linking_shape(mask, x, y, height, requested, Direction::North);
        let south = north.0.linking(north.1, x, y, height, requested, Direction::South);
        north.0.lemma_linking_shape(north.1, x, y, height, requested, Direction::South);
        let west = south.0.linking(south.1, x, y, height, requested, Direction::West);
        south.0.lemma_linking_shape(south.1, x, y, height, requested, Direction::West);
        let east = west.0.linking(west.1, x, y, height, requested, Direction::East);
        west.0.lemma_linking_shape(west.1, x, y, height, requested, Direction::East);
        self.lemma_shape_chain(north.0, south.0);
        self.lemma_shape_chain(south.0, west.0);
        self.lemma_shape_chain(west.0, east.0);
    }

    /// Keeping the shape twice keeps it.
    pub proof fn lemma_shape_chain(self, middle: EditModel, last: EditModel)
        requires
            self.same_shape(middle),
            middle.same_shape(last),
        ensures
            self.same_shape(last),
    {
        assert forall|b: int, c: int|
            0 <= b < self.blocks.len() && 0 <= c < self.blocks[b].columns.len() implies (
        #[trigger] last.blocks[b].columns[c]).len() == self.blocks[b].columns[c].len() by {
            assert(middle.blocks[b].columns.len() == self.blocks[b].columns.len());
            assert(middle.blocks[b].columns[c].len() == self.blocks[b].columns[c].len());
        }
        assert forall|b: int, c: int, l: int|
            0 <= b < self.blocks.len() && 0 <= c < self.blocks[b].columns.len() && 0 <= l
                < self.blocks[b].columns[c].len() implies (
        #[trigger] last.blocks[b].columns[c][l]).height == self.blocks[b].columns[c][l].height by {
            assert(middle.blocks[b].columns.len() == self.blocks[b].columns.len());
            assert(middle.blocks[b].columns[c].len() == self.blocks[b].columns[c].len());
            assert(middle.blocks[b].columns[c][l].height == self.blocks[b].columns[c][l].height);
        }
        assert forall|b: int| 0 <= b < self.blocks.len() implies (
        #[trigger] last.blocks[b]).columns.len() == self.blocks[b].columns.len() by {
            assert(middle.blocks[b].columns.len() == self.blocks[b].columns.len());
        }
    }
}

/// Brings the nearest layer next to a cell in line with what is asked of the cell.
fn face(
    blocks: &mut Vec<BlockState>,
    before: &mut Snapshot,
    result: &mut EditResult,
    target: LayerAddress,
    height: i16,
    requested: u8,
    direction: Direction,
    Ghost(start): Ghost<Seq<BlockModel>>,
    Ghost(placed): Ghost<Seq<Placed>>,
    Ghost(edit): Ghost<EditModel>,
)
    requires
        in_progress(old(blocks)@, *old(before), start, placed),
        at_edit(old(blocks)@, *old(result), edit),
        grid::on_map(target.x as int, target.y as int),
        has_room(*old(result), 1),
    ensures
        in_progress(final(blocks)@, *final(before), start, placed),
        at_edit(
            final(blocks)@,
            *final(result),
            edit.facing(target.x as int, target.y as int, height, requested, direction),
        ),
        grew(*old(result), *final(result), 1),
{
    if let Some((nx, ny)) = neighbour(target.x, target.y, direction) {
        let place = match cell_location(nx, ny) {
            Some(place) => place,
            None => vstd::pervasive::unreached(),
        };
        let found = find_nearest_layer(column_of_cell(blocks, place, Ghost(edit)), height);
        if let Some(layer) = found {
            let open = requested & direction.bit() != 0;
            mirror(
                blocks,
                before,
                result,
                nx,
                ny,
                layer,
                direction.opposite().bit(),
                open,
                Ghost(start),
                Ghost(placed),
                Ghost(edit),
            );
        }
    }
}

fn force_one_nswe(
    blocks: &mut Vec<BlockState>,
    before: &mut Snapshot,
    result: &mut EditResult,
    target: LayerAddress,
    requested: u8,
    Ghost(start): Ghost<Seq<BlockModel>>,
    Ghost(placed): Ghost<Seq<Placed>>,
    Ghost(edit): Ghost<EditModel>,
)
    requires
        in_progress(old(blocks)@, *old(before), start, placed),
        at_edit(old(blocks)@, *old(result), edit),
        requested < 16,
        has_room(*old(result), 5),
    ensures
        in_progress(final(blocks)@, *final(before), start, placed),
        at_edit(final(blocks)@, *final(result), edit.forcing(target, requested)),
        grew(*old(result), *final(result), 5),
{
    let ghost x = target.x as int;
    let ghost y = target.y as int;
    let place = match cell_location(target.x, target.y) {
        Some(place) => place,
        None => {
            result.rejected_links.push(report_outside(target.x, target.y));
            assert(result@ =~= edit.rejecting(outside_grid(x, y)).result);
            return;
        },
    };
    let column = column_of_cell(blocks, place, Ghost(edit));
    if target.layer >= column.len() {
        result.rejected_links.push(report_no_layer(target));
        assert(result@ =~= edit.rejecting(no_such_layer(target.layer as int, x, y)).result);
        return;
    }
    let height: i16 = column[target.layer].height;
    if height == NULL_HEIGHT {
        result.rejected_links.push(report_null(target));
        assert(result@ =~= edit.rejecting(null_layer(target.layer as int, x, y)).result);
        return;
    }
    finish(
        blocks,
        before,
        result,
        target,
        requested,
        Ghost(start),
        Ghost(placed),
        Ghost(edit),
    );
    let ghost set = edit.finishing(x, y, target.layer as int, requested);
    face(
        blocks,
        before,
        result,
        target,
        height,
        requested,
        Direction::North,
        Ghost(start),
        Ghost(placed),
        Ghost(set),
    );
    let ghost north = set.facing(x, y, height, requested, Direction::North);
    face(
        blocks,
        before,
        result,
        target,
        height,
        requested,
        Direction::South,
        Ghost(start),
        Ghost(placed),
        Ghost(north),
    );
    let ghost south = north.facing(x, y, height, requested, Direction::South);
    face(
        blocks,
        before,
        result,
        target,
        height,
        requested,
        Direction::West,
        Ghost(start),
        Ghost(placed),
        Ghost(south),
    );
    let ghost west = south.facing(x, y, height, requested, Direction::West);
    face(
        blocks,
        before,
        result,
        target,
        height,
        requested,
        Direction::East,
        Ghost(start),
        Ghost(placed),
        Ghost(west),
    );
}

fn raise_one(
    blocks: &mut Vec<BlockState>,
    before: &mut Snapshot,
    result: &mut EditResult,
    target: LayerAddress,
    height: i16,
    Ghost(start): Ghost<Seq<BlockModel>>,
    Ghost(placed): Ghost<Seq<Placed>>,
    Ghost(edit): Ghost<EditModel>,
)
    requires
        in_progress(old(blocks)@, *old(before), start, placed),
        at_edit(old(blocks)@, *old(result), edit),
        height as int % 8 == 0,
        has_room(*old(result), 1),
    ensures
        in_progress(final(blocks)@, *final(before), start, placed),
        at_edit(final(blocks)@, *final(result), edit.raising(target, height)),
        grew(*old(result), *final(result), 1),
{
    let ghost x = target.x as int;
    let ghost y = target.y as int;
    let place = match cell_location(target.x, target.y) {
        Some(place) => place,
        None => {
            result.rejected_links.push(report_outside(target.x, target.y));
            assert(result@ =~= edit.rejecting(outside_grid(x, y)).result);
            return;
        },
    };
    let column = column_of_cell(blocks, place, Ghost(edit));
    if target.layer >= column.len() {
        result.rejected_links.push(report_no_layer(target));
        assert(result@ =~= edit.rejecting(no_such_layer(target.layer as int, x, y)).result);
        return;
    }
    let previous: i16 = column[target.layer].height;
    if previous == NULL_HEIGHT {
        result.rejected_links.push(report_null(target));
        assert(result@ =~= edit.rejecting(null_layer(target.layer as int, x, y)).result);
        return;
    }
    if previous == height {
        return;
    }
    let (index, column) = place;
    touch(blocks, before, &mut result.promoted_blocks, index, Ghost(start), Ghost(placed));
    let ghost old_blocks = blocks@;
    let ghost current = blocks@[index as int].current;
    proof {
        assert(current.well_formed());
        current.lemma_cut();
        assert(current@ == edit.touching(index as int).blocks[index as int]);
        assert(current@.columns == edit.blocks[index as int].columns);
        if current is Complex {
            assert(current@.columns[column as int].len() == 1);
        }
    }
    let _ = blocks[index].current.set_layer_height(column, target.layer, height);
    result.changed_cells += 1;
    proof {
        assert(current.height_refusal(column as int, target.layer as int) is None);
        lemma_replaced(old_blocks, blocks@, *before, start, placed, index as int);
        let after = edit.raising(target, height);
        assert(after.blocks =~= document::current_models(blocks@));
        assert(after.result =~= result@);
    }
}

/// A height rounded toward zero to a whole number of steps.
pub open spec fn normalized(value: int) -> int {
    if value >= 0 {
        value / 8 * 8
    } else {
        -(-value / 8 * 8)
    }
}

pub open spec fn editable(value: int) -> bool {
    -16_376 <= normalized(value) <= 16_376
}

pub open spec fn height_out_of_range() -> ErrorModel {
    ErrorModel::InvalidArgument(
        "height must be between "@ + text::signed_decimal(-16_376) + " and "@
            + text::signed_decimal(16_376),
    )
}

/// Rounds a height toward zero to a whole number of steps.
pub fn normalize_editable_height(value: i32) -> (result: Result<i16>)
    ensures
        match result {
            Ok(height) => editable(value as int) && height == normalized(value as int),
            Err(error) => !editable(value as int) && error@ == height_out_of_range(),
        },
{
    let wide: i64 = value as i64;
    let rounded: i64 = if wide >= 0 {
        wide / 8 * 8
    } else {
        -(-wide / 8 * 8)
    };
    if rounded < -16_376 || rounded > 16_376 {
        let mut message = "height must be between ".to_owned();
        push_signed(&mut message, -16_376);
        message.append(" and ");
        push_signed(&mut message, 16_376);
        return Err(AppError::InvalidArgument(message));
    }
    Ok(rounded as i16)
}

impl DocumentModel {
    /// An edit keeps a document valid.
    proof fn lemma_edited(self, blocks: Seq<BlockModel>, label: Seq<char>)
        requires
            self.valid(),
            blocks.len() == 65_536,
            forall|i: int| 0 <= i < 65_536 ==> (#[trigger] blocks[i]).valid(),
        ensures
            self.edited(blocks, label).valid(),
    {
        if blocks != self.blocks {
            let edited = self.edited(blocks, label);
            document::lemma_difference(self.blocks, blocks);
            assert(edited.undo.drop_last() =~= self.undo);
        }
    }
}

impl Document {
    /// Everything but the blocks is as in a model.
    spec fn around(&self, model: DocumentModel) -> bool {
        &&& self.format@ == model.format
        &&& self.original_bytes@ == model.body
        &&& model.path == match self.original_path {
            Some(path) => Some(path@),
            None => None,
        }
        &&& document::operations(self.undo@) == model.undo
        &&& document::operations(self.redo@) == model.redo
        &&& document::numbers(self.render_changes@) == model.repaint
        &&& forall|k: int|
            0 <= k < self.render_changes@.len() ==> #[trigger] self.render_changes@[k] < 65_536
        &&& forall|k: int| 0 <= k < self.undo@.len() ==> (#[trigger] self.undo@[k]).ok()
        &&& forall|k: int| 0 <= k < self.redo@.len() ==> (#[trigger] self.redo@[k]).ok()
    }

    /// Records an edit whose blocks are in place.
    fn commit(&mut self, label: String, before: Snapshot, Ghost(model): Ghost<DocumentModel>)
        requires
            model.valid(),
            old(self).around(model),
            in_progress(old(self).blocks@, before, model.blocks, model.placed),
        ensures
            final(self).well_formed(),
            final(self)@ == model.edited(document::current_models(old(self).blocks@), label@),
    {
        let ghost entries = before.entries@;
        let ghost touched = before.touched@;
        let ghost now = document::current_models(self.blocks@);
        let mut rest = before.entries;
        let mut kept: Vec<(usize, EditableBlock)> = Vec::new();
        let mut after: Vec<(usize, EditableBlock)> = Vec::new();
        while rest.len() > 0
            invariant
                *self == *old(self),
                self.blocks@.len() == 65_536,
                document::states_ok(self.blocks@),
                now == document::current_models(self.blocks@),
                document::entries_ok(entries),
                forall|k: int|
                    0 <= k < entries.len() ==> (#[trigger] entries[k]).1@
                        == model.blocks[entries[k].0 as int],
                rest@.len() <= entries.len(),
                rest@ == entries.take(rest@.len() as int),
                document::entries_ok(kept@),
                document::entries_ok(after@),
                kept@.len() == after@.len(),
                forall|j: int| 0 <= j < kept@.len() ==> (#[trigger] kept@[j]).0 == after@[j].0,
                forall|j: int|
                    0 <= j < kept@.len() ==> (#[trigger] kept@[j]).1@
                        == model.blocks[kept@[j].0 as int] && now[kept@[j].0 as int]
                        != model.blocks[kept@[j].0 as int],
                forall|j: int|
                    0 <= j < after@.len() ==> (#[trigger] after@[j]).1@ == now[after@[j].0 as int],
                forall|j: int, k: int|
                    0 <= j < kept@.len() && 0 <= k < rest@.len() ==> (#[trigger] kept@[j]).0 != (
                    #[trigger] entries[k]).0,
                forall|k: int|
                    rest@.len() <= k < entries.len() && now[(#[trigger] entries[k]).0 as int]
                        != model.blocks[entries[k].0 as int] ==> exists|j: int|
                        0 <= j < kept@.len() && (#[trigger] kept@[j]).0 == entries[k].0,
            decreases rest@.len(),
        {
            let ghost last = rest@.len() - 1;
            let ghost kept_before = kept@;
            let (index, block) = match rest.pop() {
                Some(entry) => entry,
                None => vstd::pervasive::unreached(),
            };
            assert(entries[last].0 == index && entries[last].1 == block);
            assert(rest@ =~= entries.take(last));
            let current = &self.blocks[index].current;
            assert(self.blocks@[index as int].current.well_formed());
            if !current.same_as(&block) {
                let copy = current.clone();
                kept.push((index, block));
                after.push((index, copy));
                proof {
                    assert forall|j: int, k: int| 0 <= j < k < kept@.len() implies (
                    #[trigger] kept@[j]).0 != (#[trigger] kept@[k]).0 by {
                        if k == kept_before.len() {
                            assert(kept_before[j].0 != entries[last].0);
                        }
                    }
                    assert forall|j: int, k: int| 0 <= j < k < after@.len() implies (
                    #[trigger] after@[j]).0 != (#[trigger] after@[k]).0 by {
                        assert(kept@[j].0 != kept@[k].0);
                    }
                }
            }
            proof {
                assert forall|k: int|
                    rest@.len() <= k < entries.len() && now[(#[trigger] entries[k]).0 as int]
                        != model.blocks[entries[k].0 as int] implies exists|j: int|
                    0 <= j < kept@.len() && (#[trigger] kept@[j]).0 == entries[k].0 by {
                    if k == last {
                        assert(kept@[kept_before.len() as int].0 == entries[k].0);
                    } else {
                        let j = choose|j: int|
                            0 <= j < kept_before.len() && (#[trigger] kept_before[j]).0
                                == entries[k].0;
                        assert(kept@[j].0 == entries[k].0);
                    }
                }
                assert forall|j: int, k: int|
                    0 <= j < kept@.len() && 0 <= k < rest@.len() implies (#[trigger] kept@[j]).0
                    != (#[trigger] entries[k]).0 by {
                    if j == kept_before.len() {
                        assert(entries[k].0 != entries[last].0);
                    }
                }
            }
        }
        proof {
            assert forall|i: int| 0 <= i < 65_536 && now[i] != model.blocks[i] implies exists|j: int|
                0 <= j < kept@.len() && (#[trigger] kept@[j]).0 == i by {
                assert(touched[i]);
                let k = choose|k: int| 0 <= k < entries.len() && (#[trigger] entries[k]).0 == i;
                assert(entries[k].0 == i);
            }
            assert forall|i: int| 0 <= i < 65_536 implies (#[trigger] now[i]).valid() by {
                assert(self.blocks@[i].current.well_formed());
            }
            model.lemma_edited(now, label@);
        }
        if kept.len() == 0 {
            proof {
                assert(now =~= model.blocks);
                assert(self@ =~= model);
            }
            return;
        }
        proof {
            assert(now != model.blocks) by {
                assert(now[kept@[0].0 as int] != model.blocks[kept@[0].0 as int]);
            }
            lemma_recorded(kept@, model.blocks, now);
            assert forall|j: int| 0 <= j < after@.len() implies (#[trigger] after@[j]).1@
                == now[after@[j].0 as int] && now[after@[j].0 as int]
                != model.blocks[after@[j].0 as int] by {
                assert(kept@[j].0 == after@[j].0);
            }
            assert forall|i: int| 0 <= i < 65_536 && now[i] != model.blocks[i] implies exists|j: int|
                0 <= j < after@.len() && (#[trigger] after@[j]).0 == i by {
                let j = choose|j: int| 0 <= j < kept@.len() && (#[trigger] kept@[j]).0 == i;
                assert(after@[j].0 == i);
            }
            lemma_recorded(after@, now, model.blocks);
        }
        let ghost undo = self.undo@;
        note(&mut self.render_changes, &kept);
        self.undo.push(EditOperation { label, before: kept, after });
        self.redo = Vec::new();
        proof {
            assert(document::operations(self.undo@) =~= document::operations(undo).push(
                self.undo@.last().model(),
            ));
            assert(self@ =~= model.edited(now, label@));
        }
    }

    /// Puts a block in place of another one, as an edit of its own.
    fn replace_block(&mut self, index: usize, block: EditableBlock, label: &str)
        requires
            old(self).well_formed(),
            index < 65_536,
            block.well_formed(),
        ensures
            final(self).well_formed(),
            final(self)@ == old(self)@.edited(
                old(self)@.blocks.update(index as int, block@),
                label@,
            ),
    {
        let ghost model = self@;
        let mut before = Snapshot::new(Ghost(model.blocks), Ghost(self.blocks@));
        snapshot(&self.blocks, &mut before, index, Ghost(model.blocks), Ghost(model.placed));
        let ghost old_blocks = self.blocks@;
        self.blocks[index].current = block;
        proof {
            lemma_replaced(
                old_blocks,
                self.blocks@,
                before,
                model.blocks,
                model.placed,
                index as int,
            );
        }
        self.commit(label.to_owned(), before, Ghost(model));
    }
}

/// Entries for exactly the blocks that differ make up the difference.
proof fn lemma_recorded(
    entries: Seq<(usize, EditableBlock)>,
    from: Seq<BlockModel>,
    to: Seq<BlockModel>,
)
    requires
        from.len() == 65_536,
        to.len() == 65_536,
        document::entries_ok(entries),
        forall|j: int|
            0 <= j < entries.len() ==> (#[trigger] entries[j]).1@ == from[entries[j].0 as int]
                && from[entries[j].0 as int] != to[entries[j].0 as int],
        forall|i: int|
            0 <= i < 65_536 && from[i] != to[i] ==> exists|j: int|
                0 <= j < entries.len() && (#[trigger] entries[j]).0 == i,
    ensures
        document::changes(entries) == document::difference(from, to),
{
    let left = document::changes(entries);
    let right = document::difference(from, to);
    assert forall|i: int| left.dom().contains(i) <==> right.dom().contains(i) by {
        if left.dom().contains(i) {
            let j = choose|j: int| 0 <= j < entries.len() && (#[trigger] entries[j]).0 == i;
            assert(entries[j].0 == i);
        }
    }
    assert(left.dom() =~= right.dom());
    assert forall|i: int| #[trigger] left.dom().contains(i) implies left[i] == right[i] by {
        let j = choose|j: int| 0 <= j < entries.len() && (#[trigger] entries[j]).0 == i;
        document::lemma_change(entries, j);
    }
    assert(left =~= right);
}

impl Document {
    /// Sets the masks of some layers. A side stays closed where it leads off
    /// the map or to no layer within the climb limit, and the neighbours that
    /// face the layers are opened and closed with them.
    pub fn set_nswe(&mut self, targets: &[LayerAddress], requested_mask: u8, label: &str) -> (result:
        EditResult)
        requires
            old(self).well_formed(),
            countable(old(self)@.blocks, targets@.len()),
        ensures
            final(self).well_formed(),
            ({
                let edit = EditModel::start(old(self)@.blocks).setting_all(
                    targets@,
                    requested_mask & 15,
                    targets@.len(),
                );
                &&& final(self)@ == old(self)@.edited(edit.blocks, label@)
                &&& result@ == edit.result
            }),
    {
        let requested: u8 = requested_mask & 15;
        proof {
            block::lemma_mask(requested_mask);
        }
        let ghost model = self@;
        let ghost first = EditModel::start(model.blocks);
        let ghost layers = choose|layers: nat| #[trigger]
            shallow(model.blocks, layers) && targets@.len() * setting_steps(layers) <= usize::MAX;
        let mut before = Snapshot::new(Ghost(model.blocks), Ghost(self.blocks@));
        let mut result = EditResult::default();
        let mut next: usize = 0;
        while next < targets.len()
            invariant
                next <= targets@.len(),
                targets@.len() * setting_steps(layers) <= usize::MAX,
                shallow(first.blocks, layers),
                first.sound(),
                model.valid(),
                self.around(model),
                requested < 16,
                first.blocks == model.blocks,
                in_progress(self.blocks@, before, model.blocks, model.placed),
                at_edit(
                    self.blocks@,
                    result,
                    first.setting_all(targets@, requested, next as nat),
                ),
                result.changed_cells <= next * setting_steps(layers),
                result.changed_links <= next * setting_steps(layers),
                result.promoted_blocks <= next * setting_steps(layers),
            decreases targets.len() - next,
        {
            let ghost now = first.setting_all(targets@, requested, next as nat);
            proof {
                let steps = setting_steps(layers) as int;
                assert((next + 1) * steps <= targets@.len() * steps && (next + 1) * steps == next
                    * steps + steps) by (nonlinear_arith)
                    requires
                        next + 1 <= targets@.len(),
                        steps >= 0,
                ;
                edit_laws::mask_edits_keep_heights(first, targets@, requested, next as nat);
                lemma_still_shallow(first, now, layers);
            }
            set_one_nswe(
                &mut self.blocks,
                &mut before,
                &mut result,
                targets[next],
                requested,
                Ghost(model.blocks),
                Ghost(model.placed),
                Ghost(now),
                Ghost(layers),
            );
            next += 1;
        }
        self.commit(label.to_owned(), before, Ghost(model));
        result
    }

    /// Applies an explicit override. Unlike [`Document::set_nswe`], an open side
    /// is kept even when there is no neighbour within the climb limit, or at the
    /// edge of the map. When a neighbouring layer exists, the side that faces
    /// the cell is mirrored in the one with the closest height.
    pub fn force_set_nswe(&mut self, targets: &[LayerAddress], requested_mask: u8, label: &str) -> (
    result: EditResult)
        requires
            old(self).well_formed(),
            targets@.len() * 5 <= usize::MAX,
        ensures
            final(self).well_formed(),
            ({
                let edit = EditModel::start(old(self)@.blocks).forcing_all(
                    targets@,
                    requested_mask & 15,
                    targets@.len(),
                );
                &&& final(self)@ == old(self)@.edited(edit.blocks, label@)
                &&& result@ == edit.result
            }),
    {
        let requested: u8 = requested_mask & 15;
        proof {
            block::lemma_mask(requested_mask);
        }
        let ghost model = self@;
        let ghost first = EditModel::start(model.blocks);
        let mut before = Snapshot::new(Ghost(model.blocks), Ghost(self.blocks@));
        let mut result = EditResult::default();
        let mut next: usize = 0;
        while next < targets.len()
            invariant
                next <= targets@.len(),
                targets@.len() * 5 <= usize::MAX,
                model.valid(),
                self.around(model),
                requested < 16,
                first.blocks == model.blocks,
                in_progress(self.blocks@, before, model.blocks, model.placed),
                at_edit(
                    self.blocks@,
                    result,
                    first.forcing_all(targets@, requested, next as nat),
                ),
                result.changed_cells <= next * 5,
                result.changed_links <= next * 5,
                result.promoted_blocks <= next * 5,
            decreases targets.len() - next,
        {
            force_one_nswe(
                &mut self.blocks,
                &mut before,
                &mut result,
                targets[next],
                requested,
                Ghost(model.blocks),
                Ghost(model.placed),
                Ghost(first.forcing_all(targets@, requested, next as nat)),
            );
            next += 1;
        }
        self.commit(label.to_owned(), before, Ghost(model));
        result
    }

    /// Changes the floor height of some layers. Heights are stored in steps of
    /// eight units, so values between steps are rounded toward zero. An edit of
    /// a cell of a simple block gives the block heights of its own.
    pub fn set_height(&mut self, targets: &[LayerAddress], requested_height: i32, label: &str) -> (
    result: Result<HeightEditResult>)
        requires
            old(self).well_formed(),
        ensures
            final(self).well_formed(),
            match result {
                Ok(outcome) => {
                    let height = normalized(requested_height as int) as i16;
                    let edit = EditModel::start(old(self)@.blocks).raising_all(
                        targets@,
                        height,
                        targets@.len(),
                    );
                    &&& editable(requested_height as int)
                    &&& final(self)@ == old(self)@.edited(edit.blocks, label@)
                    &&& outcome.height == height
                    &&& outcome.changed_cells == edit.result.changed_cells
                    &&& outcome.promoted_blocks == edit.result.promoted_blocks
                    &&& text::texts(outcome.rejected_cells@) == edit.result.rejected
                },
                Err(error) => {
                    &&& !editable(requested_height as int)
                    &&& error@ == height_out_of_range()
                    &&& final(self)@ == old(self)@
                },
            },
    {
        let height: i16 = match normalize_editable_height(requested_height) {
            Ok(height) => height,
            Err(error) => {
                return Err(error);
            },
        };
        let ghost model = self@;
        let ghost first = EditModel::start(model.blocks);
        let mut before = Snapshot::new(Ghost(model.blocks), Ghost(self.blocks@));
        let mut result = EditResult::default();
        let count: usize = targets.len();
        let mut next: usize = 0;
        while next < count
            invariant
                next <= targets@.len(),
                targets@.len() == count,
                model.valid(),
                self.around(model),
                height as int % 8 == 0,
                first.blocks == model.blocks,
                in_progress(self.blocks@, before, model.blocks, model.placed),
                at_edit(
                    self.blocks@,
                    result,
                    first.raising_all(targets@, height, next as nat),
                ),
                result.changed_cells <= next,
                result.changed_links <= next,
                result.promoted_blocks <= next,
            decreases count - next,
        {
            raise_one(
                &mut self.blocks,
                &mut before,
                &mut result,
                targets[next],
                height,
                Ghost(model.blocks),
                Ghost(model.placed),
                Ghost(first.raising_all(targets@, height, next as nat)),
            );
            next += 1;
        }
        self.commit(label.to_owned(), before, Ghost(model));
        Ok(
            HeightEditResult {
                changed_cells: result.changed_cells,
                promoted_blocks: result.promoted_blocks,
                height,
                rejected_cells: result.rejected_links,
            },
        )
    }

    /// Puts a block back as it was opened. False where it had not changed.
    pub fn restore_block(&mut self, block_x: usize, block_y: usize) -> (result: Result<bool>)
        requires
            old(self).well_formed(),
        ensures
            final(self).well_formed(),
            ({
                let index = grid::block_number(block_x as int, block_y as int);
                match result {
                    Ok(changed) => {
                        &&& grid::block_on_map(block_x as int, block_y as int)
                        &&& changed == old(self)@.dirty(index)
                        &&& final(self)@ == old(self)@.edited(
                            old(self)@.blocks.update(index, old(self)@.placed[index].block),
                            "Restaurar bloco"@,
                        )
                    },
                    Err(error) => {
                        &&& !grid::block_on_map(block_x as int, block_y as int)
                        &&& error@ == grid::no_such_block(block_x as int, block_y as int)
                        &&& final(self)@ == old(self)@
                    },
                }
            }),
    {
        let index = match checked_block_index(block_x, block_y) {
            Ok(index) => index,
            Err(error) => {
                return Err(error);
            },
        };
        proof {
            self.lemma_state(index as int);
        }
        if !self.blocks[index].dirty() {
            assert(self@.blocks.update(index as int, self@.placed[index as int].block)
                =~= self@.blocks);
            return Ok(false);
        }
        let original = self.blocks[index].original.clone();
        self.replace_block(index, original, "Restaurar bloco");
        Ok(true)
    }
}

/// A converted block, or why it cannot be converted.
pub type Converted = std::result::Result<BlockModel, ErrorModel>;

/// A block with masks of its own for every cell.
pub open spec fn as_promoted(block: BlockModel) -> Converted {
    Ok(block.promoted())
}

pub open spec fn complex_as_multilayer(block: BlockModel) -> Converted {
    if block.kind == EditableBlockType::Complex {
        Ok(block.with_kind(EditableBlockType::Multilayer))
    } else {
        Err(ErrorModel::InvalidArgument("select a complex block to convert to multilayer"@))
    }
}

pub open spec fn multilayer_as_complex(block: BlockModel) -> Converted {
    if block.kind != EditableBlockType::Multilayer {
        Err(ErrorModel::InvalidArgument("only a multilayer block can become complex"@))
    } else if !block.single_layered() {
        Err(
            ErrorModel::InvalidArgument(
                "multilayer needs one layer in every column to become complex"@,
            ),
        )
    } else {
        Ok(block.with_kind(EditableBlockType::Complex))
    }
}

pub open spec fn as_simple(block: BlockModel) -> Converted {
    if block.uniform_open() {
        Ok(block.with_kind(EditableBlockType::Simple))
    } else {
        Err(
            ErrorModel::InvalidArgument("simple needs 64 equal one-layer cells with NSWE aberto"@),
        )
    }
}

/// A block of another kind with the same cells, where that kind can hold them.
pub open spec fn converted(block: BlockModel, target: EditableBlockType) -> Converted {
    if block.kind == target {
        Ok(block)
    } else {
        match target {
            EditableBlockType::Simple => as_simple(block),
            EditableBlockType::Complex => if block.kind == EditableBlockType::Simple {
                as_promoted(block)
            } else {
                multilayer_as_complex(block)
            },
            EditableBlockType::Multilayer => Ok(block.with_kind(EditableBlockType::Multilayer)),
        }
    }
}

/// What a conversion does to a document and returns. `changed` says what it
/// returns for a block that it converted.
pub open spec fn conversion_done(
    before: DocumentModel,
    after: DocumentModel,
    x: int,
    y: int,
    outcome: Converted,
    changed: bool,
    label: Seq<char>,
    result: Result<bool>,
) -> bool {
    match result {
        Ok(answer) => {
            &&& grid::block_on_map(x, y)
            &&& outcome is Ok
            &&& answer == changed
            &&& after == before.edited(
                before.blocks.update(grid::block_number(x, y), outcome->Ok_0),
                label,
            )
        },
        Err(error) => {
            &&& after == before
            &&& if !grid::block_on_map(x, y) {
                error@ == grid::no_such_block(x, y)
            } else {
                outcome is Err && error@ == outcome->Err_0
            }
        },
    }
}

impl Document {
    pub fn convert_simple_to_complex(&mut self, x: usize, y: usize) -> (result: Result<bool>)
        requires
            old(self).well_formed(),
        ensures
            final(self).well_formed(),
            ({
                let block = old(self)@.blocks[grid::block_number(x as int, y as int)];
                conversion_done(
                    old(self)@,
                    final(self)@,
                    x as int,
                    y as int,
                    as_promoted(block),
                    block.kind == EditableBlockType::Simple,
                    "Simple → complex"@,
                    result,
                )
            }),
    {
        let index = match checked_block_index(x, y) {
            Ok(index) => index,
            Err(error) => {
                return Err(error);
            },
        };
        proof {
            self.lemma_state(index as int);
        }
        let mut block = self.blocks[index].current.clone();
        let changed = block.promote_to_complex();
        if changed {
            self.replace_block(index, block, "Simple → complex");
        } else {
            assert(self@.blocks.update(index as int, block@) =~= self@.blocks);
        }
        Ok(changed)
    }

    pub fn convert_complex_to_multilayer(&mut self, x: usize, y: usize) -> (result: Result<bool>)
        requires
            old(self).well_formed(),
        ensures
            final(self).well_formed(),
            ({
                let block = old(self)@.blocks[grid::block_number(x as int, y as int)];
                conversion_done(
                    old(self)@,
                    final(self)@,
                    x as int,
                    y as int,
                    complex_as_multilayer(block),
                    true,
                    "Complex → multilayer"@,
                    result,
                )
            }),
    {
        let index = match checked_block_index(x, y) {
            Ok(index) => index,
            Err(error) => {
                return Err(error);
            },
        };
        proof {
            self.lemma_state(index as int);
        }
        let mut block = self.blocks[index].current.clone();
        if block.kind() != EditableBlockType::Complex {
            return Err(
                AppError::InvalidArgument(
                    "select a complex block to convert to multilayer".to_owned(),
                ),
            );
        }
        block.to_multilayer();
        self.replace_block(index, block, "Complex → multilayer");
        Ok(true)
    }

    pub fn convert_multilayer_to_complex(&mut self, x: usize, y: usize) -> (result: Result<bool>)
        requires
            old(self).well_formed(),
        ensures
            final(self).well_formed(),
            ({
                let block = old(self)@.blocks[grid::block_number(x as int, y as int)];
                conversion_done(
                    old(self)@,
                    final(self)@,
                    x as int,
                    y as int,
                    multilayer_as_complex(block),
                    true,
                    "Multilayer → complex"@,
                    result,
                )
            }),
    {
        let index = match checked_block_index(x, y) {
            Ok(index) => index,
            Err(error) => {
                return Err(error);
            },
        };
        proof {
            self.lemma_state(index as int);
        }
        let mut block = self.blocks[index].current.clone();
        match block.collapse_to_complex() {
            Ok(_) => {
                self.replace_block(index, block, "Multilayer → complex");
                Ok(true)
            },
            Err(error) => Err(error),
        }
    }

    pub fn convert_to_simple(&mut self, x: usize, y: usize) -> (result: Result<bool>)
        requires
            old(self).well_formed(),
        ensures
            final(self).well_formed(),
            ({
                let block = old(self)@.blocks[grid::block_number(x as int, y as int)];
                conversion_done(
                    old(self)@,
                    final(self)@,
                    x as int,
                    y as int,
                    as_simple(block),
                    true,
                    "Converter em simple"@,
                    result,
                )
            }),
    {
        let index = match checked_block_index(x, y) {
            Ok(index) => index,
            Err(error) => {
                return Err(error);
            },
        };
        proof {
            self.lemma_state(index as int);
        }
        let mut block = self.blocks[index].current.clone();
        proof {
            block.lemma_cut();
            assert(block.column(0) == block@.columns[0]);
        }
        match block.collapse_to_simple() {
            Ok(_) => {
                self.replace_block(index, block, "Converter em simple");
                Ok(true)
            },
            Err(error) => Err(error),
        }
    }

    /// Converts a block directly to a type. Each successful conversion is one
    /// undoable operation, even when a simple block needs masks of its own
    /// before it becomes multilayer.
    pub fn convert_to_type(&mut self, x: usize, y: usize, target: EditableBlockType) -> (result:
        Result<bool>)
        requires
            old(self).well_formed(),
        ensures
            final(self).well_formed(),
            ({
                let block = old(self)@.blocks[grid::block_number(x as int, y as int)];
                conversion_done(
                    old(self)@,
                    final(self)@,
                    x as int,
                    y as int,
                    converted(block, target),
                    block.kind != target,
                    match target {
                        EditableBlockType::Simple => "Converter em simple"@,
                        EditableBlockType::Complex => "Converter em complex"@,
                        EditableBlockType::Multilayer => "Converter em multilayer"@,
                    },
                    result,
                )
            }),
    {
        let index = match checked_block_index(x, y) {
            Ok(index) => index,
            Err(error) => {
                return Err(error);
            },
        };
        let label = match target {
            EditableBlockType::Simple => "Converter em simple",
            EditableBlockType::Complex => "Converter em complex",
            EditableBlockType::Multilayer => "Converter em multilayer",
        };
        proof {
            self.lemma_state(index as int);
        }
        let mut block = self.blocks[index].current.clone();
        proof {
            block.lemma_cut();
            assert(block.column(0) == block@.columns[0]);
            assert(self@.blocks.update(index as int, block@) =~= self@.blocks);
        }
        if block.kind() == target {
            return Ok(false);
        }
        match target {
            EditableBlockType::Simple => {
                if let Err(error) = block.collapse_to_simple() {
                    return Err(error);
                }
            },
            EditableBlockType::Complex => {
                if !block.promote_to_complex() {
                    if let Err(error) = block.collapse_to_complex() {
                        return Err(error);
                    }
                }
            },
            EditableBlockType::Multilayer => {
                block.promote_to_complex();
                block.to_multilayer();
            },
        }
        self.replace_block(index, block, label);
        Ok(true)
    }
}

} // verus!
