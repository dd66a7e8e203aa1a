//! The editable document: blocks as opened and as edited, with undo and redo.
//!
//! Clean blocks are copied straight from the opened file. This keeps the low
//! nibbles of simple blocks, which readers ignore, so an unedited export is
//! byte-for-byte identical to its input.

pub mod change_laws;
pub mod edit_laws;
pub mod edits;
pub mod export;
pub mod history_laws;
pub mod laws;
pub mod link_laws;
pub mod save_laws;
pub mod summary_laws;

use vstd::prelude::*;
use vstd::slice::slice_to_vec;
use vstd::string::StringExecFns;

use crate::error::{AppError, ErrorModel, Result};
use crate::l2j::block::{
    BlockModel, EditableBlock, EditableBlockType, Layer, LayerAddress, BLOCK_COUNT, MAP_CELLS,
};
use crate::l2j::codec::parse_block;
use crate::l2j::grid::{block_index, cell_location};
use crate::l2j::storage::{decode_storage, FormatModel, StorageFormat};
use crate::l2j::{block, codec, grid, storage};
use crate::text;
use crate::text::push_decimal;

verus! {

#[derive(Debug)]
struct BlockState {
    original: EditableBlock,
    current: EditableBlock,
    /// The bytes of the block in the opened file.
    start: usize,
    end: usize,
}

#[derive(Debug)]
struct EditOperation {
    label: String,
    before: Vec<(usize, EditableBlock)>,
    after: Vec<(usize, EditableBlock)>,
}

/// Editable, validated `.l2j`, `.l2g` or `_conv.dat` file.
#[derive(Debug)]
pub struct Document {
    original_bytes: Vec<u8>,
    format: StorageFormat,
    blocks: Vec<BlockState>,
    original_path: Option<String>,
    undo: Vec<EditOperation>,
    redo: Vec<EditOperation>,
    /// Numbers of the blocks that changed since they were last drawn.
    render_changes: Vec<usize>,
}

/// One edit: its label, and the blocks that it changed as they were before and
/// are after it.
#[verifier::ext_equal]
pub struct OperationModel {
    pub label: Seq<char>,
    pub before: Map<int, BlockModel>,
    pub after: Map<int, BlockModel>,
}

/// A block of a file with the place of its bytes.
#[verifier::ext_equal]
pub struct Placed {
    pub block: BlockModel,
    pub start: int,
    pub end: int,
}

/// The blocks of a file, or why it has none.
pub type Blocks = std::result::Result<Seq<Placed>, ErrorModel>;

/// What a document holds.
#[verifier::ext_equal]
pub struct DocumentModel {
    pub format: FormatModel,
    /// The plain bytes of the blocks as opened.
    pub body: Seq<u8>,
    /// The blocks as opened.
    pub placed: Seq<Placed>,
    /// The blocks as edited.
    pub blocks: Seq<BlockModel>,
    pub path: Option<Seq<char>>,
    pub undo: Seq<OperationModel>,
    pub redo: Seq<OperationModel>,
    /// The blocks that changed since they were last drawn.
    pub repaint: Set<int>,
}

/// Where the blocks read so far end.
pub open spec fn end_of(placed: Seq<Placed>) -> int {
    if placed.len() == 0 {
        0
    } else {
        placed.last().end
    }
}

/// The first blocks of a file.
pub open spec fn blocks_at(data: Seq<u8>, wide: bool, count: nat) -> Blocks
    decreases count,
{
    if count == 0 {
        Ok(Seq::empty())
    } else {
        match blocks_at(data, wide, (count - 1) as nat) {
            Err(error) => Err(error),
            Ok(done) => match codec::block_at(data, end_of(done), wide, count - 1) {
                Err(error) => Err(error),
                Ok((block, end)) => Ok(done.push(Placed { block, start: end_of(done), end })),
            },
        }
    }
}

pub open spec fn bytes_remain(count: int, format: FormatModel) -> ErrorModel {
    ErrorModel::InvalidData(
        text::decimal(count as nat) + " bytes remain after the 65,536 "@ + format.name()
            + " blocks"@,
    )
}

/// The 65,536 blocks that the plain bytes of a file hold, to the last byte.
pub open spec fn parsed_blocks(format: FormatModel, body: Seq<u8>) -> Blocks {
    match blocks_at(body, format.wide(), 65_536) {
        Err(error) => Err(error),
        Ok(placed) => if end_of(placed) != body.len() {
            Err(bytes_remain(body.len() - end_of(placed), format))
        } else {
            Ok(placed)
        },
    }
}

/// The blocks without their places.
pub open spec fn models(placed: Seq<Placed>) -> Seq<BlockModel> {
    placed.map_values(|p: Placed| p.block)
}

/// The blocks with some of them replaced.
pub open spec fn patched(blocks: Seq<BlockModel>, changes: Map<int, BlockModel>) -> Seq<
    BlockModel,
> {
    Seq::new(
        blocks.len(),
        |i: int|
            if changes.dom().contains(i) {
                changes[i]
            } else {
                blocks[i]
            },
    )
}

/// The blocks of `from` that differ in `to`.
pub open spec fn difference(from: Seq<BlockModel>, to: Seq<BlockModel>) -> Map<int, BlockModel> {
    Map::new(|i: int| 0 <= i < from.len() && from[i] != to[i], |i: int| from[i])
}

/// Whether some changes are what the blocks already hold.
pub open spec fn in_effect(blocks: Seq<BlockModel>, changes: Map<int, BlockModel>) -> bool {
    forall|i: int| #[trigger]
        changes.dom().contains(i) ==> 0 <= i < blocks.len() && blocks[i] == changes[i]
}

/// Undoing step after step leads through blocks that each step fits.
pub open spec fn undo_chain(blocks: Seq<BlockModel>, undo: Seq<OperationModel>) -> bool
    decreases undo.len(),
{
    undo.len() == 0 || {
        &&& undo.last().before.dom() == undo.last().after.dom()
        &&& in_effect(blocks, undo.last().after)
        &&& undo_chain(patched(blocks, undo.last().before), undo.drop_last())
    }
}

/// Redoing step after step leads through blocks that each step fits.
pub open spec fn redo_chain(blocks: Seq<BlockModel>, redo: Seq<OperationModel>) -> bool
    decreases redo.len(),
{
    redo.len() == 0 || {
        &&& redo.last().before.dom() == redo.last().after.dom()
        &&& in_effect(blocks, redo.last().before)
        &&& redo_chain(patched(blocks, redo.last().after), redo.drop_last())
    }
}

impl DocumentModel {
    /// A document that was just opened.
    pub open spec fn fresh(
        format: FormatModel,
        body: Seq<u8>,
        placed: Seq<Placed>,
        path: Option<Seq<char>>,
    ) -> DocumentModel {
        DocumentModel {
            format,
            body,
            placed,
            blocks: models(placed),
            path,
            undo: Seq::empty(),
            redo: Seq::empty(),
            repaint: Set::empty(),
        }
    }

    /// The document after an edit. Blocks that stay the same leave no trace;
    /// otherwise the edit can be undone, and what was undone before is forgotten.
    pub open spec fn edited(self, blocks: Seq<BlockModel>, label: Seq<char>) -> DocumentModel {
        if blocks == self.blocks {
            self
        } else {
            DocumentModel {
                blocks,
                undo: self.undo.push(
                    OperationModel {
                        label,
                        before: difference(self.blocks, blocks),
                        after: difference(blocks, self.blocks),
                    },
                ),
                redo: Seq::empty(),
                repaint: self.repaint.union(difference(self.blocks, blocks).dom()),
                ..self
            }
        }
    }

    pub open spec fn undone(self) -> DocumentModel {
        if self.undo.len() == 0 {
            self
        } else {
            DocumentModel {
                blocks: patched(self.blocks, self.undo.last().before),
                undo: self.undo.drop_last(),
                redo: self.redo.push(self.undo.last()),
                repaint: self.repaint.union(self.undo.last().before.dom()),
                ..self
            }
        }
    }

    pub open spec fn redone(self) -> DocumentModel {
        if self.redo.len() == 0 {
            self
        } else {
            DocumentModel {
                blocks: patched(self.blocks, self.redo.last().after),
                undo: self.undo.push(self.redo.last()),
                redo: self.redo.drop_last(),
                repaint: self.repaint.union(self.redo.last().after.dom()),
                ..self
            }
        }
    }

    /// What every document satisfies: its blocks are valid, the opened ones are
    /// what its bytes hold, and its history fits.
    pub open spec fn valid(self) -> bool {
        &&& self.format.valid()
        &&& self.blocks.len() == 65_536
        &&& parsed_blocks(self.format, self.body) == Blocks::Ok(self.placed)
        &&& self.placed.len() == 65_536
        &&& forall|i: int| 0 <= i < 65_536 ==> (#[trigger] self.blocks[i]).valid()
        &&& undo_chain(self.blocks, self.undo)
        &&& redo_chain(self.blocks, self.redo)
    }

    /// The layers of a cell.
    pub open spec fn column(self, x: int, y: int) -> Seq<Layer> {
        self.blocks[grid::block_of(x, y)].columns[grid::column_of(x, y)]
    }

    /// One layer of the map, where there is one.
    pub open spec fn cell(self, x: int, y: int, layer: int) -> Option<Layer> {
        if grid::on_map(x, y) && 0 <= layer < self.column(x, y).len() {
            Some(self.column(x, y)[layer])
        } else {
            None
        }
    }

    /// Whether a block differs from the opened one.
    pub open spec fn dirty(self, index: int) -> bool {
        self.blocks[index] != self.placed[index].block
    }
}

/// The blocks of some entries by their number.
spec fn changes(entries: Seq<(usize, EditableBlock)>) -> Map<int, BlockModel> {
    Map::new(
        |i: int| exists|k: int| 0 <= k < entries.len() && (#[trigger] entries[k]).0 == i,
        |i: int|
            entries[choose|k: int| 0 <= k < entries.len() && (#[trigger] entries[k]).0 == i].1@,
    )
}

/// Entries for different blocks of the map, all of them well formed.
spec fn entries_ok(entries: Seq<(usize, EditableBlock)>) -> bool {
    &&& forall|k: int|
        0 <= k < entries.len() ==> (#[trigger] entries[k]).0 < 65_536 && entries[k].1.well_formed()
    &&& forall|j: int, k: int|
        0 <= j < k < entries.len() ==> (#[trigger] entries[j]).0 != (#[trigger] entries[k]).0
}

proof fn lemma_change(entries: Seq<(usize, EditableBlock)>, k: int)
    requires
        entries_ok(entries),
        0 <= k < entries.len(),
    ensures
        changes(entries).dom().contains(entries[k].0 as int),
        changes(entries)[entries[k].0 as int] == entries[k].1@,
{
    let i = entries[k].0 as int;
    let j = choose|j: int| 0 <= j < entries.len() && (#[trigger] entries[j]).0 == i;
    assert(entries[j].0 == i);
    if j < k {
        assert(entries[j].0 != entries[k].0);
    } else if k < j {
        assert(entries[k].0 != entries[j].0);
    }
}

impl EditOperation {
    spec fn model(&self) -> OperationModel {
        OperationModel {
            label: self.label@,
            before: changes(self.before@),
            after: changes(self.after@),
        }
    }

    spec fn ok(&self) -> bool {
        entries_ok(self.before@) && entries_ok(self.after@)
    }
}

spec fn operations(list: Seq<EditOperation>) -> Seq<OperationModel> {
    list.map_values(|operation: EditOperation| operation.model())
}

spec fn current_models(blocks: Seq<BlockState>) -> Seq<BlockModel> {
    blocks.map_values(|state: BlockState| state.current@)
}

spec fn placed_models(blocks: Seq<BlockState>) -> Seq<Placed> {
    blocks.map_values(
        |state: BlockState|
            Placed { block: state.original@, start: state.start as int, end: state.end as int },
    )
}

spec fn states_ok(blocks: Seq<BlockState>) -> bool {
    forall|i: int|
        0 <= i < blocks.len() ==> (#[trigger] blocks[i]).original.well_formed()
            && blocks[i].current.well_formed()
}

impl View for Document {
    type V = DocumentModel;

    closed spec fn view(&self) -> DocumentModel {
        DocumentModel {
            format: self.format@,
            body: self.original_bytes@,
            placed: placed_models(self.blocks@),
            blocks: current_models(self.blocks@),
            path: match self.original_path {
                Some(path) => Some(path@),
                None => None,
            },
            undo: operations(self.undo@),
            redo: operations(self.redo@),
            repaint: numbers(self.render_changes@),
        }
    }
}

/// The blocks of some numbers.
spec fn numbers(list: Seq<usize>) -> Set<int> {
    Set::new(|i: int| exists|k: int| 0 <= k < list.len() && #[trigger] list[k] == i)
}

fn copied_states(blocks: &Vec<BlockState>) -> (copy: Vec<BlockState>)
    ensures
        placed_models(copy@) == placed_models(blocks@),
        current_models(copy@) == current_models(blocks@),
        states_ok(blocks@) ==> states_ok(copy@),
{
    let mut copy: Vec<BlockState> = Vec::new();
    let mut next: usize = 0;
    while next < blocks.len()
        invariant
            next <= blocks@.len(),
            copy@.len() == next,
            forall|i: int|
                0 <= i < next ==> (#[trigger] copy@[i]).original@ == blocks@[i].original@
                    && copy@[i].current@ == blocks@[i].current@ && copy@[i].start
                    == blocks@[i].start && copy@[i].end == blocks@[i].end && (
                blocks@[i].original.well_formed() ==> copy@[i].original.well_formed()) && (
                blocks@[i].current.well_formed() ==> copy@[i].current.well_formed()),
        decreases blocks.len() - next,
    {
        let state = &blocks[next];
        copy.push(
            BlockState {
                original: state.original.clone(),
                current: state.current.clone(),
                start: state.start,
                end: state.end,
            },
        );
        next += 1;
    }
    assert(placed_models(copy@) =~= placed_models(blocks@));
    assert(current_models(copy@) =~= current_models(blocks@));
    copy
}

fn copied_entries(entries: &Vec<(usize, EditableBlock)>) -> (copy: Vec<(usize, EditableBlock)>)
    ensures
        entries_ok(entries@) ==> entries_ok(copy@) && changes(copy@) == changes(entries@),
{
    let mut copy: Vec<(usize, EditableBlock)> = Vec::new();
    let mut next: usize = 0;
    while next < entries.len()
        invariant
            next <= entries@.len(),
            copy@.len() == next,
            forall|i: int|
                0 <= i < next ==> (#[trigger] copy@[i]).0 == entries@[i].0 && copy@[i].1@
                    == entries@[i].1@ && (entries@[i].1.well_formed()
                    ==> copy@[i].1.well_formed()),
        decreases entries.len() - next,
    {
        copy.push((entries[next].0, entries[next].1.clone()));
        next += 1;
    }
    proof {
        if entries_ok(entries@) {
            assert forall|j: int, k: int| 0 <= j < k < copy@.len() implies (
            #[trigger] copy@[j]).0 != (#[trigger] copy@[k]).0 by {
                assert(entries@[j].0 != entries@[k].0);
            }
            let one = changes(copy@);
            let two = changes(entries@);
            assert forall|i: int| one.dom().contains(i) <==> two.dom().contains(i) by {
                if one.dom().contains(i) {
                    let k = choose|k: int| 0 <= k < copy@.len() && (#[trigger] copy@[k]).0 == i;
                    assert(entries@[k].0 == i);
                }
                if two.dom().contains(i) {
                    let k = choose|k: int|
                        0 <= k < entries@.len() && (#[trigger] entries@[k]).0 == i;
                    assert(copy@[k].0 == i);
                }
            }
            assert forall|i: int| #[trigger] one.dom().contains(i) implies one[i] == two[i] by {
                let k = choose|k: int| 0 <= k < copy@.len() && (#[trigger] copy@[k]).0 == i;
                lemma_change(copy@, k);
                lemma_change(entries@, k);
            }
            assert(one =~= two);
        }
    }
    copy
}

fn copied_operations(list: &Vec<EditOperation>) -> (copy: Vec<EditOperation>)
    ensures
        (forall|k: int| 0 <= k < list@.len() ==> (#[trigger] list@[k]).ok()) ==> operations(copy@)
            == operations(list@) && forall|k: int|
            0 <= k < copy@.len() ==> (#[trigger] copy@[k]).ok(),
{
    let mut copy: Vec<EditOperation> = Vec::new();
    let mut next: usize = 0;
    while next < list.len()
        invariant
            next <= list@.len(),
            copy@.len() == next,
            forall|i: int|
                0 <= i < next && list@[i].ok() ==> (#[trigger] copy@[i]).ok() && copy@[i].model()
                    == list@[i].model(),
        decreases list.len() - next,
    {
        let operation = &list[next];
        copy.push(
            EditOperation {
                label: operation.label.as_str().to_owned(),
                before: copied_entries(&operation.before),
                after: copied_entries(&operation.after),
            },
        );
        next += 1;
    }
    proof {
        if forall|k: int| 0 <= k < list@.len() ==> (#[trigger] list@[k]).ok() {
            assert forall|k: int| 0 <= k < copy@.len() implies (#[trigger] copy@[k]).ok()
                && copy@[k].model() == list@[k].model() by {
                assert(list@[k].ok());
            }
            assert(operations(copy@) =~= operations(list@));
        }
    }
    copy
}

impl Clone for Document {
    fn clone(&self) -> (copy: Self)
        ensures
            self.well_formed() ==> copy.well_formed() && copy@ == self@,
    {
        let copy = Document {
            original_bytes: slice_to_vec(self.original_bytes.as_slice()),
            format: self.format.clone(),
            blocks: copied_states(&self.blocks),
            original_path: match &self.original_path {
                Some(path) => Some(path.as_str().to_owned()),
                None => None,
            },
            undo: copied_operations(&self.undo),
            redo: copied_operations(&self.redo),
            render_changes: slice_to_vec(self.render_changes.as_slice()),
        };
        proof {
            if self.well_formed() {
                assert(copy@ =~= self@);
            }
        }
        copy
    }
}

impl Document {
    /// The parts of the document agree with one another.
    pub closed spec fn inner_ok(&self) -> bool {
        &&& states_ok(self.blocks@)
        &&& forall|k: int|
            0 <= k < self.render_changes@.len() ==> #[trigger] self.render_changes@[k] < 65_536
        &&& forall|k: int| 0 <= k < self.undo@.len() ==> (#[trigger] self.undo@[k]).ok()
        &&& forall|k: int| 0 <= k < self.redo@.len() ==> (#[trigger] self.redo@[k]).ok()
    }

    /// What every document satisfies.
    pub open spec fn well_formed(&self) -> bool {
        self.inner_ok() && self@.valid()
    }

    /// Reads the plain bytes of a file.
    fn from_storage_bytes(original_bytes: Vec<u8>, format: StorageFormat) -> (result: Result<Self>)
        requires
            format@.valid(),
        ensures
            match (result, parsed_blocks(format@, original_bytes@)) {
                (Ok(document), Ok(placed)) => document.well_formed() && document@
                    == DocumentModel::fresh(format@, original_bytes@, placed, None),
                (Err(error), Err(expected)) => error@ == expected,
                _ => false,
            },
    {
        let wide = format.is_wide();
        let mut blocks: Vec<BlockState> = Vec::new();
        let mut position: usize = 0;
        let mut index: usize = 0;
        assert(placed_models(blocks@) =~= Seq::<Placed>::empty());
        while index < BLOCK_COUNT
            invariant
                index <= 65_536,
                position <= original_bytes@.len(),
                wide == format@.wide(),
                blocks@.len() == index,
                states_ok(blocks@),
                current_models(blocks@) == models(placed_models(blocks@)),
                position == end_of(placed_models(blocks@)),
                blocks_at(original_bytes@, wide, index as nat) == Blocks::Ok(
                    placed_models(blocks@),
                ),
            decreases 65_536 - index,
        {
            let ghost before = blocks@;
            match parse_block(original_bytes.as_slice(), position, wide, index) {
                Ok((original, end)) => {
                    let current = original.clone();
                    let ghost placed = Placed {
                        block: original@,
                        start: position as int,
                        end: end as int,
                    };
                    blocks.push(BlockState { original, current, start: position, end });
                    position = end;
                    proof {
                        assert(placed_models(blocks@) =~= placed_models(before).push(placed));
                        assert(blocks_at(original_bytes@, wide, (index + 1) as nat) == Blocks::Ok(
                            placed_models(before).push(placed),
                        ));
                        assert forall|i: int| 0 <= i <= index implies #[trigger] current_models(
                            blocks@,
                        )[i] == models(placed_models(blocks@))[i] by {
                            if i < index {
                                assert(current_models(before)[i] == models(
                                    placed_models(before),
                                )[i]);
                            }
                        }
                        assert(current_models(blocks@) =~= models(placed_models(blocks@)));
                    }
                },
                Err(error) => {
                    proof {
                        lemma_blocks_fail(original_bytes@, wide, (index + 1) as nat, 65_536);
                    }
                    return Err(error);
                },
            }
            index += 1;
        }
        if position != original_bytes.len() {
            let mut message = String::new();
            push_decimal(&mut message, (original_bytes.len() - position) as u64);
            message.append(" bytes remain after the 65,536 ");
            message.append(format.format_name());
            message.append(" blocks");
            proof {
                let count = text::decimal((original_bytes@.len() - position) as nat);
                assert(Seq::<char>::empty() + count =~= count);
            }
            return Err(AppError::InvalidData(message));
        }
        let document = Document {
            original_bytes,
            format,
            blocks,
            original_path: None,
            undo: Vec::new(),
            redo: Vec::new(),
            render_changes: Vec::new(),
        };
        proof {
            assert(document@.repaint =~= Set::empty());
            assert(document@.undo =~= Seq::empty());
            assert(document@.redo =~= Seq::empty());
            assert forall|i: int| 0 <= i < 65_536 implies (#[trigger] document@.blocks[i]).valid() by {
                assert(blocks@[i].current.well_formed());
            }
        }
        Ok(document)
    }

    /// Reads the plain bytes of an `.l2j` file.
    pub fn from_bytes(original_bytes: Vec<u8>) -> (result: Result<Self>)
        ensures
            match (result, parsed_blocks(FormatModel::L2j, original_bytes@)) {
                (Ok(document), Ok(placed)) => document.well_formed() && document@
                    == DocumentModel::fresh(FormatModel::L2j, original_bytes@, placed, None),
                (Err(error), Err(expected)) => error@ == expected,
                _ => false,
            },
    {
        Self::from_storage_bytes(original_bytes, StorageFormat::L2j)
    }
}

proof fn lemma_blocks_fail(data: Seq<u8>, wide: bool, few: nat, many: nat)
    requires
        few <= many,
        blocks_at(data, wide, few) is Err,
    ensures
        blocks_at(data, wide, many) == blocks_at(data, wide, few),
    decreases many,
{
    if few < many {
        lemma_blocks_fail(data, wide, few, (many - 1) as nat);
    }
}

/// How many of the first blocks differ from the opened ones.
pub open spec fn dirty_count(model: DocumentModel, count: nat) -> nat
    decreases count,
{
    if count == 0 {
        0
    } else {
        dirty_count(model, (count - 1) as nat) + if model.dirty(count - 1) {
            1nat
        } else {
            0nat
        }
    }
}

impl BlockState {
    fn dirty(&self) -> (dirty: bool)
        requires
            self.original.well_formed(),
            self.current.well_formed(),
        ensures
            dirty == (self.current@ != self.original@),
    {
        !self.current.same_as(&self.original)
    }
}

impl Document {
    /// Any block of the document, with what is known of it.
    proof fn lemma_state(&self, index: int)
        requires
            self.well_formed(),
            0 <= index < 65_536,
        ensures
            self.blocks@.len() == 65_536,
            self.blocks@[index].current.well_formed(),
            self.blocks@[index].original.well_formed(),
            self.blocks@[index].current@ == self@.blocks[index],
            self.blocks@[index].original@ == self@.placed[index].block,
            forall|column: int|
                0 <= column < 64 ==> self.blocks@[index].current.has_column(column),
            forall|column: int|
                0 <= column < 64 ==> self.blocks@[index].current.column(column)
                    == #[trigger] self@.blocks[index].columns[column],
    {
        assert(self.blocks@[index].current.well_formed());
        self.blocks@[index].current.lemma_cut();
    }

    /// No cell has more layers than an offset can count.
    pub proof fn lemma_column_size(&self, x: int, y: int)
        requires
            self.well_formed(),
            grid::on_map(x, y),
        ensures
            1 <= self@.column(x, y).len() <= 65_535,
    {
        grid::lemma_location(x, y);
        lemma_column(self@, x, y);
        self.lemma_state(grid::block_of(x, y));
        let block = self.blocks@[grid::block_of(x, y)].current;
        assert(block.has_column(grid::column_of(x, y)));
        assert(block.column(grid::column_of(x, y)) == self@.column(x, y));
    }

    /// A canvas of flat, open blocks for the welcome screen.
    pub fn blank() -> (document: Self)
        ensures
            document.well_formed(),
            document@ == DocumentModel::blank(),
    {
        let mut bytes: Vec<u8> = Vec::new();
        let mut next: usize = 0;
        while next < 196_608
            invariant
                next <= 196_608,
                bytes@ == Seq::new(next as nat, |k: int| 0u8),
            decreases 196_608 - next,
        {
            bytes.push(0);
            next += 1;
            assert(bytes@ =~= Seq::new(next as nat, |k: int| 0u8));
        }
        proof {
            DocumentModel::lemma_blank(65_536);
        }
        let ghost body = bytes@;
        match Self::from_bytes(bytes) {
            Ok(document) => {
                assert(document@ =~= DocumentModel::blank());
                document
            },
            Err(_) => {
                assert(parsed_blocks(FormatModel::L2j, body) is Ok);
                vstd::pervasive::unreached()
            },
        }
    }

    /// Reads a geodata file. Its name tells the format.
    pub fn open(path: &str, bytes: Vec<u8>) -> (result: Result<Self>)
        ensures
            match (result, opened_file(path@, bytes@)) {
                (Ok(document), Ok(model)) => document.well_formed() && document@ == model,
                (Err(error), Err(expected)) => error@ == expected,
                _ => false,
            },
    {
        match decode_storage(path, bytes) {
            Ok((format, body)) => match Self::from_storage_bytes(body, format) {
                Ok(document) => {
                    let mut document = document;
                    let ghost before = document@;
                    document.original_path = Some(path.to_owned());
                    assert(document@ =~= (DocumentModel { path: Some(path@), ..before }));
                    Ok(document)
                },
                Err(error) => Err(error),
            },
            Err(error) => Err(error),
        }
    }

    /// The path that the document was opened from.
    pub fn original_path(&self) -> (path: Option<&str>)
        ensures
            match path {
                Some(path) => self@.path == Some(path@),
                None => self@.path is None,
            },
    {
        match &self.original_path {
            Some(path) => Some(path.as_str()),
            None => None,
        }
    }

    /// Cells along each axis of the map.
    pub fn dimensions() -> (size: (usize, usize))
        ensures
            size == (2_048usize, 2_048usize),
    {
        (MAP_CELLS, MAP_CELLS)
    }

    pub fn block_type(&self, block_x: usize, block_y: usize) -> (kind: Option<EditableBlockType>)
        requires
            self.well_formed(),
        ensures
            kind == if grid::block_on_map(block_x as int, block_y as int) {
                Some(self@.blocks[grid::block_number(block_x as int, block_y as int)].kind)
            } else {
                None
            },
    {
        match block_index(block_x, block_y) {
            Some(index) => Some(self.blocks[index].current.kind()),
            None => None,
        }
    }

    pub fn is_block_dirty(&self, block_x: usize, block_y: usize) -> (dirty: bool)
        requires
            self.well_formed(),
        ensures
            dirty == (grid::block_on_map(block_x as int, block_y as int) && self@.dirty(
                grid::block_number(block_x as int, block_y as int),
            )),
    {
        match block_index(block_x, block_y) {
            Some(index) => {
                proof {
                    self.lemma_state(index as int);
                }
                self.blocks[index].dirty()
            },
            None => false,
        }
    }

    /// The number of blocks that differ from the opened file.
    pub fn changed_blocks(&self) -> (count: usize)
        requires
            self.well_formed(),
        ensures
            count == dirty_count(self@, 65_536),
    {
        let mut count: usize = 0;
        let mut index: usize = 0;
        while index < BLOCK_COUNT
            invariant
                index <= 65_536,
                self.well_formed(),
                count == dirty_count(self@, index as nat),
                count <= index,
            decreases 65_536 - index,
        {
            proof {
                self.lemma_state(index as int);
            }
            if self.blocks[index].dirty() {
                count += 1;
            }
            index += 1;
        }
        count
    }

    /// One layer of the map, where there is one.
    pub fn cell(&self, address: LayerAddress) -> (layer: Option<Layer>)
        requires
            self.well_formed(),
        ensures
            layer == self@.cell(address.x as int, address.y as int, address.layer as int),
    {
        match cell_location(address.x, address.y) {
            Some((block, column)) => {
                proof {
                    self.lemma_state(block as int);
                    assert(self.blocks@[block as int].current.has_column(column as int));
                }
                self.blocks[block].current.layer(column, address.layer)
            },
            None => None,
        }
    }

    /// The number of layers of a cell.
    pub fn layer_count(&self, x: usize, y: usize) -> (count: Option<usize>)
        requires
            self.well_formed(),
        ensures
            match count {
                Some(count) => grid::on_map(x as int, y as int) && count == self@.column(
                    x as int,
                    y as int,
                ).len(),
                None => !grid::on_map(x as int, y as int),
            },
    {
        match cell_location(x, y) {
            Some((block, column)) => {
                proof {
                    self.lemma_state(block as int);
                    assert(self.blocks@[block as int].current.has_column(column as int));
                }
                Some(self.blocks[block].current.layer_count(column))
            },
            None => None,
        }
    }

    /// The largest number of layers in any column of the map.
    pub fn max_layer_count(&self) -> (count: usize)
        requires
            self.well_formed(),
        ensures
            forall|b: int, c: int|
                0 <= b < 65_536 && 0 <= c < 64 ==> (#[trigger] self@.blocks[b].columns[c]).len()
                    <= count,
            exists|b: int, c: int|
                0 <= b < 65_536 && 0 <= c < 64 && (#[trigger] self@.blocks[b].columns[c]).len()
                    == count,
    {
        let mut most: usize = 0;
        let mut index: usize = 0;
        while index < BLOCK_COUNT
            invariant
                index <= 65_536,
                self.well_formed(),
                forall|b: int, c: int|
                    0 <= b < index && 0 <= c < 64 ==> (#[trigger] self@.blocks[b].columns[c]).len()
                        <= most,
                index > 0 ==> exists|b: int, c: int|
                    0 <= b < index && 0 <= c < 64 && (#[trigger] self@.blocks[b].columns[c]).len()
                        == most,
            decreases 65_536 - index,
        {
            proof {
                self.lemma_state(index as int);
            }
            let count: usize = self.blocks[index].current.max_layer_count();
            proof {
                let c = choose|c: int|
                    0 <= c < 64 && count == (
                    #[trigger] self.blocks@[index as int].current@.columns[c]).len();
                assert(self@.blocks[index as int].columns[c].len() == count);
                if index == 0 {
                    assert(count >= 0);
                }
            }
            if count > most || index == 0 {
                most = count;
            }
            index += 1;
        }
        most
    }

    pub fn block(&self, block_x: usize, block_y: usize) -> (block: Option<&EditableBlock>)
        requires
            self.well_formed(),
        ensures
            match block {
                Some(block) => {
                    &&& grid::block_on_map(block_x as int, block_y as int)
                    &&& block.well_formed()
                    &&& block@ == self@.blocks[grid::block_number(block_x as int, block_y as int)]
                },
                None => !grid::block_on_map(block_x as int, block_y as int),
            },
    {
        match block_index(block_x, block_y) {
            Some(index) => {
                proof {
                    self.lemma_state(index as int);
                }
                Some(&self.blocks[index].current)
            },
            None => None,
        }
    }

    /// Checks the number of blocks and the offsets of every multilayer block.
    pub fn validate(&self) -> (result: Result<()>)
        ensures
            match result {
                Ok(_) => self.block_count() == 65_536 && forall|i: int|
                    0 <= i < 65_536 ==> self.block_cut(i),
                Err(error) => if self.block_count() != 65_536 {
                    error@ == ErrorModel::InvalidData("invalid L2J block count"@)
                } else {
                    exists|i: int|
                        0 <= i < 65_536 && !(#[trigger] self.block_cut(i)) && error@
                            == ErrorModel::InvalidData(
                            "invalid multilayer block "@ + text::decimal(i as nat),
                        ) && forall|j: int| 0 <= j < i ==> self.block_cut(j)
                },
            },
            self.well_formed() ==> result is Ok,
    {
        if self.blocks.len() != BLOCK_COUNT {
            return Err(AppError::InvalidData("invalid L2J block count".to_owned()));
        }
        let mut index: usize = 0;
        while index < BLOCK_COUNT
            invariant
                index <= 65_536,
                self.block_count() == 65_536,
                forall|i: int| 0 <= i < index ==> self.block_cut(i),
            decreases 65_536 - index,
        {
            match self.blocks[index].current.validate(index) {
                Ok(_) => {
                    assert(self.block_cut(index as int));
                },
                Err(error) => {
                    assert(!self.block_cut(index as int));
                    proof {
                        if self.well_formed() {
                            self.lemma_state(index as int);
                        }
                    }
                    return Err(error);
                },
            }
            index += 1;
        }
        Ok(())
    }

    /// The number of blocks held.
    pub closed spec fn block_count(&self) -> nat {
        self.blocks@.len()
    }

    /// Whether the columns of a block are in order.
    pub closed spec fn block_cut(&self, index: int) -> bool {
        self.blocks@[index].current.well_cut()
    }

    /// Takes the last edit back.
    pub fn undo(&mut self) -> (undone: bool)
        requires
            old(self).well_formed(),
        ensures
            final(self).well_formed(),
            undone == (old(self)@.undo.len() > 0),
            final(self)@ == old(self)@.undone(),
    {
        match self.undo.pop() {
            None => {
                assert(self.undo@ =~= old(self).undo@);
                false
            },
            Some(operation) => {
                proof {
                    assert(old(self).undo@[old(self).undo@.len() - 1].ok());
                    assert(operation.model() == old(self)@.undo.last());
                    assert(operations(self.undo@) =~= old(self)@.undo.drop_last());
                }
                patch(&mut self.blocks, &operation.before);
                note(&mut self.render_changes, &operation.before);
                self.redo.push(operation);
                proof {
                    assert(self@.blocks =~= patched(old(self)@.blocks, operation.model().before));
                    assert(self@.redo =~= old(self)@.redo.push(operation.model()));
                    assert(self@.placed =~= old(self)@.placed);
                    assert(self@ =~= old(self)@.undone());
                    old(self)@.lemma_undone();
                }
                true
            },
        }
    }

    /// Makes the last edit that was taken back again.
    pub fn redo(&mut self) -> (redone: bool)
        requires
            old(self).well_formed(),
        ensures
            final(self).well_formed(),
            redone == (old(self)@.redo.len() > 0),
            final(self)@ == old(self)@.redone(),
    {
        match self.redo.pop() {
            None => {
                assert(self.redo@ =~= old(self).redo@);
                false
            },
            Some(operation) => {
                proof {
                    assert(old(self).redo@[old(self).redo@.len() - 1].ok());
                    assert(operation.model() == old(self)@.redo.last());
                    assert(operations(self.redo@) =~= old(self)@.redo.drop_last());
                }
                patch(&mut self.blocks, &operation.after);
                note(&mut self.render_changes, &operation.after);
                self.undo.push(operation);
                proof {
                    assert(self@.blocks =~= patched(old(self)@.blocks, operation.model().after));
                    assert(self@.undo =~= old(self)@.undo.push(operation.model()));
                    assert(self@.placed =~= old(self)@.placed);
                    assert(self@ =~= old(self)@.redone());
                    old(self)@.lemma_redone();
                }
                true
            },
        }
    }

    /// Hands out the blocks that changed since the last call, by column and row.
    pub fn take_render_changes(&mut self) -> (changes: Vec<(usize, usize)>)
        requires
            old(self).well_formed(),
        ensures
            final(self).well_formed(),
            final(self)@ == (DocumentModel { repaint: Set::empty(), ..old(self)@ }),
            forall|k: int|
                0 <= k < changes@.len() ==> grid::block_on_map(
                    (#[trigger] changes@[k]).0 as int,
                    changes@[k].1 as int,
                ) && old(self)@.repaint.contains(
                    grid::block_number(changes@[k].0 as int, changes@[k].1 as int),
                ),
            forall|i: int| #[trigger]
                old(self)@.repaint.contains(i) ==> exists|k: int|
                    0 <= k < changes@.len() && grid::block_number(
                        (#[trigger] changes@[k]).0 as int,
                        changes@[k].1 as int,
                    ) == i,
    {
        let mut changes: Vec<(usize, usize)> = Vec::new();
        let mut next: usize = 0;
        while next < self.render_changes.len()
            invariant
                *self == *old(self),
                next <= self.render_changes@.len(),
                changes@.len() == next,
                forall|k: int|
                    0 <= k < self.render_changes@.len() ==> #[trigger] self.render_changes@[k]
                        < 65_536,
                forall|k: int|
                    0 <= k < next ==> grid::block_on_map(
                        (#[trigger] changes@[k]).0 as int,
                        changes@[k].1 as int,
                    ) && grid::block_number(changes@[k].0 as int, changes@[k].1 as int)
                        == self.render_changes@[k],
            decreases self.render_changes.len() - next,
        {
            let number: usize = self.render_changes[next];
            changes.push((number / 256, number % 256));
            next += 1;
        }
        self.render_changes = Vec::new();
        proof {
            assert(self@.repaint =~= Set::empty());
            assert forall|i: int| #[trigger] old(self)@.repaint.contains(i) implies exists|k: int|
                0 <= k < changes@.len() && grid::block_number(
                    (#[trigger] changes@[k]).0 as int,
                    changes@[k].1 as int,
                ) == i by {
                let list = old(self).render_changes@;
                let k = choose|k: int| 0 <= k < list.len() && #[trigger] list[k] == i;
                assert(grid::block_number(changes@[k].0 as int, changes@[k].1 as int) == i);
            }
            assert forall|k: int| 0 <= k < changes@.len() implies old(self)@.repaint.contains(
                grid::block_number((#[trigger] changes@[k]).0 as int, changes@[k].1 as int),
            ) by {
                assert(old(self).render_changes@[k] == old(self).render_changes@[k]);
            }
        }
        changes
    }

    /// What [`Document::undo`] would take back.
    pub fn undo_label(&self) -> (label: Option<&str>)
        ensures
            match label {
                Some(label) => self@.undo.len() > 0 && label@ == self@.undo.last().label,
                None => self@.undo.len() == 0,
            },
    {
        if self.undo.len() == 0 {
            None
        } else {
            Some(self.undo[self.undo.len() - 1].label.as_str())
        }
    }

    /// What [`Document::redo`] would make again.
    pub fn redo_label(&self) -> (label: Option<&str>)
        ensures
            match label {
                Some(label) => self@.redo.len() > 0 && label@ == self@.redo.last().label,
                None => self@.redo.len() == 0,
            },
    {
        if self.redo.len() == 0 {
            None
        } else {
            Some(self.redo[self.redo.len() - 1].label.as_str())
        }
    }
}

/// Adds the numbers of some blocks to those that are to be drawn again.
fn note(list: &mut Vec<usize>, entries: &Vec<(usize, EditableBlock)>)
    requires
        entries_ok(entries@),
        forall|k: int| 0 <= k < old(list)@.len() ==> #[trigger] old(list)@[k] < 65_536,
    ensures
        forall|k: int| 0 <= k < final(list)@.len() ==> #[trigger] final(list)@[k] < 65_536,
        numbers(final(list)@) == numbers(old(list)@).union(changes(entries@).dom()),
{
    let mut next: usize = 0;
    while next < entries.len()
        invariant
            next <= entries@.len(),
            entries_ok(entries@),
            forall|k: int| 0 <= k < list@.len() ==> #[trigger] list@[k] < 65_536,
            list@.len() == old(list)@.len() + next,
            forall|k: int| 0 <= k < old(list)@.len() ==> #[trigger] list@[k] == old(list)@[k],
            forall|k: int|
                0 <= k < next ==> list@[old(list)@.len() + k] == (#[trigger] entries@[k]).0,
        decreases entries.len() - next,
    {
        list.push(entries[next].0);
        next += 1;
    }
    proof {
        let before = old(list)@;
        assert forall|i: int| numbers(list@).contains(i) <==> numbers(before).union(
            changes(entries@).dom(),
        ).contains(i) by {
            if numbers(list@).contains(i) {
                let k = choose|k: int| 0 <= k < list@.len() && #[trigger] list@[k] == i;
                if k < before.len() {
                    assert(before[k] == i);
                } else {
                    assert(entries@[k - before.len()].0 == i);
                }
            }
            if numbers(before).contains(i) {
                let k = choose|k: int| 0 <= k < before.len() && #[trigger] before[k] == i;
                assert(list@[k] == i);
            }
            if changes(entries@).dom().contains(i) {
                let k = choose|k: int| 0 <= k < entries@.len() && (#[trigger] entries@[k]).0 == i;
                assert(list@[before.len() + k] == i);
            }
        }
        assert(numbers(list@) =~= numbers(before).union(changes(entries@).dom()));
    }
}

/// Puts some blocks in place of the current ones.
fn patch(blocks: &mut Vec<BlockState>, entries: &Vec<(usize, EditableBlock)>)
    requires
        old(blocks)@.len() == 65_536,
        states_ok(old(blocks)@),
        entries_ok(entries@),
    ensures
        final(blocks)@.len() == 65_536,
        states_ok(final(blocks)@),
        placed_models(final(blocks)@) == placed_models(old(blocks)@),
        current_models(final(blocks)@) == patched(
            current_models(old(blocks)@),
            changes(entries@),
        ),
{
    let mut next: usize = 0;
    while next < entries.len()
        invariant
            next <= entries.len(),
            blocks@.len() == 65_536,
            states_ok(blocks@),
            entries_ok(entries@),
            placed_models(blocks@) == placed_models(old(blocks)@),
            old(blocks)@.len() == 65_536,
            forall|k: int|
                0 <= k < next ==> blocks@[(#[trigger] entries@[k]).0 as int].current@
                    == entries@[k].1@,
            forall|i: int|
                0 <= i < 65_536 && (forall|k: int|
                    0 <= k < next ==> (#[trigger] entries@[k]).0 != i) ==> (
                #[trigger] blocks@[i]).current@ == old(blocks)@[i].current@,
        decreases entries.len() - next,
    {
        let index: usize = entries[next].0;
        assert(index < 65_536);
        let ghost before = blocks@;
        let current = entries[next].1.clone();
        blocks[index].current = current;
        proof {
            assert forall|i: int| 0 <= i < 65_536 implies #[trigger] placed_models(blocks@)[i]
                == placed_models(old(blocks)@)[i] by {
                assert(placed_models(before)[i] == placed_models(old(blocks)@)[i]);
            }
            assert(placed_models(blocks@) =~= placed_models(old(blocks)@));
            assert forall|k: int| 0 <= k < next + 1 implies blocks@[(
            #[trigger] entries@[k]).0 as int].current@ == entries@[k].1@ by {
                if k < next {
                    assert(entries@[k].0 != entries@[next as int].0);
                }
            }
            assert forall|i: int|
                0 <= i < 65_536 && (forall|k: int|
                    0 <= k < next + 1 ==> (#[trigger] entries@[k]).0 != i) implies (
            #[trigger] blocks@[i]).current@ == old(blocks)@[i].current@ by {
                assert(entries@[next as int].0 != i);
                assert(before[i].current@ == old(blocks)@[i].current@);
            }
        }
        next += 1;
    }
    proof {
        let after = patched(current_models(old(blocks)@), changes(entries@));
        assert forall|i: int| 0 <= i < 65_536 implies #[trigger] current_models(blocks@)[i]
            == after[i] by {
            if changes(entries@).dom().contains(i) {
                let k = choose|k: int| 0 <= k < entries@.len() && (#[trigger] entries@[k]).0 == i;
                lemma_change(entries@, k);
            } else {
                assert forall|k: int| 0 <= k < entries@.len() implies (#[trigger] entries@[k]).0
                    != i by {}
                assert(blocks@[i].current@ == old(blocks)@[i].current@);
            }
        }
        assert(current_models(blocks@) =~= after);
    }
}

/// Every cell of the map has a layer.
pub proof fn lemma_column(model: DocumentModel, x: int, y: int)
    requires
        model.valid(),
        grid::on_map(x, y),
    ensures
        model.column(x, y).len() >= 1,
        forall|l: int| 0 <= l < model.column(x, y).len() ==> (#[trigger] model.column(x, y)[l]).storable(),
{
    grid::lemma_location(x, y);
    assert(model.blocks[grid::block_of(x, y)].valid());
}

/// The document that a file holds, or why it holds none.
pub open spec fn opened_file(path: Seq<char>, bytes: Seq<u8>) -> std::result::Result<
    DocumentModel,
    ErrorModel,
> {
    match storage::decoded_file(path, bytes) {
        Err(error) => Err(error),
        Ok((format, body)) => match parsed_blocks(format, body) {
            Err(error) => Err(error),
            Ok(placed) => Ok(DocumentModel::fresh(format, body, placed, Some(path))),
        },
    }
}

/// Two patches of the same blocks: the second one decides.
proof fn lemma_patched_back(
    blocks: Seq<BlockModel>,
    there: Map<int, BlockModel>,
    back: Map<int, BlockModel>,
)
    requires
        there.dom() == back.dom(),
        in_effect(blocks, back),
    ensures
        patched(patched(blocks, there), back) == blocks,
        in_effect(patched(blocks, there), there),
{
    assert forall|i: int| 0 <= i < blocks.len() implies #[trigger] patched(
        patched(blocks, there),
        back,
    )[i] == blocks[i] by {
        if back.dom().contains(i) {
            assert(blocks[i] == back[i]);
        }
    }
    assert(patched(patched(blocks, there), back) =~= blocks);
    assert forall|i: int| #[trigger] there.dom().contains(i) implies 0 <= i < patched(
        blocks,
        there,
    ).len() && patched(blocks, there)[i] == there[i] by {
        assert(back.dom().contains(i));
    }
}

impl DocumentModel {
    /// The canvas of the welcome screen.
    pub open spec fn blank() -> DocumentModel {
        DocumentModel::fresh(
            FormatModel::L2j,
            Seq::new(196_608, |k: int| 0u8),
            Seq::new(65_536, |i: int| Self::blank_block(i)),
            None,
        )
    }

    pub open spec fn blank_block(index: int) -> Placed {
        Placed {
            block: BlockModel::simple(Layer { height: 0, nswe: 15 }),
            start: 3 * index,
            end: 3 * index + 3,
        }
    }

    proof fn lemma_blank(count: nat)
        requires
            count <= 65_536,
        ensures
            blocks_at(Seq::new(196_608, |k: int| 0u8), false, count) == Blocks::Ok(
                Seq::new(count, |i: int| Self::blank_block(i)),
            ),
        decreases count,
    {
        let data = Seq::new(196_608, |k: int| 0u8);
        if count > 0 {
            Self::lemma_blank((count - 1) as nat);
            let done = Seq::new((count - 1) as nat, |i: int| Self::blank_block(i));
            assert(end_of(done) == 3 * (count - 1));
            reveal(codec::block_at);
            assert(codec::word(data, end_of(done) + 1) == 0);
            assert(codec::flat(0) == (Layer { height: 0, nswe: 15 }));
            assert(done.push(Self::blank_block(count - 1)) =~= Seq::new(
                count,
                |i: int| Self::blank_block(i),
            ));
        } else {
            assert(Seq::new(0, |i: int| Self::blank_block(i)) =~= Seq::empty());
        }
    }

    proof fn lemma_undone(self)
        requires
            undo_chain(self.blocks, self.undo),
            redo_chain(self.blocks, self.redo),
        ensures
            undo_chain(self.undone().blocks, self.undone().undo),
            redo_chain(self.undone().blocks, self.undone().redo),
    {
        if self.undo.len() > 0 {
            let step = self.undo.last();
            lemma_patched_back(self.blocks, step.before, step.after);
            assert(self.redo.push(step).drop_last() =~= self.redo);
        }
    }

    proof fn lemma_redone(self)
        requires
            undo_chain(self.blocks, self.undo),
            redo_chain(self.blocks, self.redo),
        ensures
            undo_chain(self.redone().blocks, self.redone().undo),
            redo_chain(self.redone().blocks, self.redone().redo),
    {
        if self.redo.len() > 0 {
            let step = self.redo.last();
            lemma_patched_back(self.blocks, step.after, step.before);
            assert(self.undo.push(step).drop_last() =~= self.undo);
        }
    }

    /// The same document, whatever of it is to be drawn again.
    pub open spec fn same_as(self, other: DocumentModel) -> bool {
        (DocumentModel { repaint: self.repaint, ..other }) == self
    }

    /// Redoing right after undoing changes nothing.
    pub proof fn redo_reverses_undo(self)
        requires
            self.valid(),
            self.undo.len() > 0,
        ensures
            self.undone().redone().same_as(self),
    {
        let step = self.undo.last();
        lemma_patched_back(self.blocks, step.before, step.after);
        assert(self.undo.drop_last().push(step) =~= self.undo);
        assert(self.redo.push(step).drop_last() =~= self.redo);
    }

    /// Undoing right after redoing changes nothing.
    pub proof fn undo_reverses_redo(self)
        requires
            self.valid(),
            self.redo.len() > 0,
        ensures
            self.redone().undone().same_as(self),
    {
        let step = self.redo.last();
        lemma_patched_back(self.blocks, step.after, step.before);
        assert(self.redo.drop_last().push(step) =~= self.redo);
        assert(self.undo.push(step).drop_last() =~= self.undo);
    }

    /// Undoing right after an edit brings back the blocks and the undo history
    /// as they were before it; redoing then makes the edit again.
    pub proof fn undo_reverses_edit(self, blocks: Seq<BlockModel>, label: Seq<char>)
        requires
            self.valid(),
            blocks.len() == 65_536,
            blocks != self.blocks,
        ensures
            self.edited(blocks, label).undone().blocks == self.blocks,
            self.edited(blocks, label).undone().undo == self.undo,
            self.edited(blocks, label).undone().redone().same_as(self.edited(blocks, label)),
    {
        let edited = self.edited(blocks, label);
        let step = edited.undo.last();
        lemma_difference(self.blocks, blocks);
        assert(edited.undo.drop_last() =~= self.undo);
        lemma_patched_back(blocks, step.before, step.after);
        assert(edited.undone().undo.push(step) =~= edited.undo);
        assert(edited.redo.push(step).drop_last() =~= edited.redo);
    }
}

/// Putting the differing blocks back gives the old blocks.
proof fn lemma_difference(from: Seq<BlockModel>, to: Seq<BlockModel>)
    requires
        from.len() == to.len(),
    ensures
        patched(to, difference(from, to)) == from,
        in_effect(to, difference(to, from)),
        difference(from, to).dom() == difference(to, from).dom(),
{
    assert(patched(to, difference(from, to)) =~= from);
    assert(difference(from, to).dom() =~= difference(to, from).dom());
}

} // verus!
