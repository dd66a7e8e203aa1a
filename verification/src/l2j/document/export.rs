//! Documents back to files, and what opening such a file gives.

use vstd::prelude::*;
use vstd::string::StringExecFns;

use crate::error::{AppError, ErrorModel, Result};
use crate::l2j::block::{
    BlockModel, EditableBlock, EditableBlockType, Layer, BLOCK_COUNT, COLUMNS_PER_BLOCK,
};
use crate::l2j::codec::Decoded;
use crate::l2j::document::{Document, DocumentModel};
use crate::l2j::encode::{write_editable_block, Encoded};
use crate::l2j::storage::{conv_dat_header, encrypt_l2g_body, FormatModel, StorageFormat};
use crate::l2j::{block, codec, document, encode, round_trip, storage};
use crate::path::{extension, file_name};
use crate::{path, text};

verus! {

/// The bytes of one block: written anew where it changed, copied where not.
pub open spec fn part(model: DocumentModel, index: int) -> Encoded {
    if model.dirty(index) {
        encode::block_bytes(model.blocks[index], model.format.wide())
    } else {
        Ok(model.body.subrange(model.placed[index].start, model.placed[index].end))
    }
}

/// The bytes of the first blocks.
pub open spec fn parts(model: DocumentModel, count: nat) -> Encoded
    decreases count,
{
    if count == 0 {
        Ok(Seq::empty())
    } else {
        match parts(model, (count - 1) as nat) {
            Err(error) => Err(error),
            Ok(done) => match part(model, count - 1) {
                Err(error) => Err(error),
                Ok(bytes) => Ok(done + bytes),
            },
        }
    }
}

/// Whether any block changed.
pub open spec fn any_dirty(model: DocumentModel) -> bool {
    exists|i: int| 0 <= i < 65_536 && #[trigger] model.dirty(i)
}

/// A file around the bytes of the blocks.
pub open spec fn wrapped(model: DocumentModel, body: Seq<u8>) -> Seq<u8> {
    match model.format {
        FormatModel::L2j => body,
        FormatModel::L2g(header) => header + storage::sealed_body(header, body),
        FormatModel::ConvDat(header) => if any_dirty(model) {
            storage::conv_header(header, model.blocks) + body
        } else {
            header + body
        },
    }
}

/// The file that a document is written as, or why it cannot be.
pub open spec fn exported(model: DocumentModel) -> Encoded {
    match parts(model, 65_536) {
        Err(error) => Err(error),
        Ok(body) => Ok(wrapped(model, body)),
    }
}

/// The places of blocks that were read follow one another from the start.
pub proof fn lemma_placed(data: Seq<u8>, wide: bool, count: nat, index: int)
    requires
        document::blocks_at(data, wide, count) is Ok,
        0 <= index < count,
    ensures
        ({
            let placed = document::blocks_at(data, wide, count)->Ok_0;
            &&& placed.len() == count
            &&& placed[index].start == if index == 0 {
                0
            } else {
                placed[index - 1].end
            }
            &&& codec::block_at(data, placed[index].start, wide, index) == Decoded::Ok(
                (placed[index].block, placed[index].end),
            )
            &&& 0 <= placed[index].start < placed[index].end <= data.len()
        }),
    decreases count,
{
    lemma_placed_count(data, wide, count);
    lemma_placed_count(data, wide, (count - 1) as nat);
    let fewer = document::blocks_at(data, wide, (count - 1) as nat)->Ok_0;
    let placed = document::blocks_at(data, wide, count)->Ok_0;
    if index < count - 1 {
        lemma_placed(data, wide, (count - 1) as nat, index);
        assert(placed[index] == fewer[index]);
        if index > 0 {
            assert(placed[index - 1] == fewer[index - 1]);
        }
    } else {
        if count > 1 {
            lemma_placed(data, wide, (count - 1) as nat, count - 2);
            assert(placed[index - 1] == fewer[index - 1]);
        }
        codec::lemma_block_end(data, document::end_of(fewer), wide, index);
    }
}

proof fn lemma_placed_count(data: Seq<u8>, wide: bool, count: nat)
    requires
        document::blocks_at(data, wide, count) is Ok,
    ensures
        document::blocks_at(data, wide, count)->Ok_0.len() == count,
        forall|fewer: nat|
            fewer <= count ==> (#[trigger] document::blocks_at(data, wide, fewer)) is Ok,
    decreases count,
{
    if count > 0 {
        lemma_placed_count(data, wide, (count - 1) as nat);
    }
}

proof fn lemma_parts_fail(model: DocumentModel, few: nat, many: nat)
    requires
        few <= many,
        parts(model, few) is Err,
    ensures
        parts(model, many) == parts(model, few),
    decreases many,
{
    if few < many {
        lemma_parts_fail(model, few, (many - 1) as nat);
    }
}

/// What a save would write, and what it would report.
#[derive(Debug)]
pub struct SavePlan {
    /// The whole file.
    pub bytes: Vec<u8>,
    /// Extension of the temporary file that is written first.
    pub temporary_extension: String,
    /// Extension of the copy that is kept of a file in the way.
    pub backup_extension: String,
    pub summary: SaveSummary,
}

#[derive(Debug)]
pub struct SaveSummary {
    pub changed_blocks: usize,
    pub conversion_blocks: usize,
    pub changed_cells: u64,
    pub changed_directions: u64,
    pub bytes: u64,
    pub path: String,
}

impl Clone for SaveSummary {
    fn clone(&self) -> (copy: Self)
        ensures
            copy == (SaveSummary { path: copy.path, ..*self }),
            copy.path@ == self.path@,
    {
        SaveSummary {
            changed_blocks: self.changed_blocks,
            conversion_blocks: self.conversion_blocks,
            changed_cells: self.changed_cells,
            changed_directions: self.changed_directions,
            bytes: self.bytes,
            path: self.path.as_str().to_owned(),
        }
    }
}

impl Default for SaveSummary {
    fn default() -> (summary: Self)
        ensures
            summary.changed_blocks == 0,
            summary.conversion_blocks == 0,
            summary.changed_cells == 0,
            summary.changed_directions == 0,
            summary.bytes == 0,
            summary.path@ == ""@,
    {
        SaveSummary {
            changed_blocks: 0,
            conversion_blocks: 0,
            changed_cells: 0,
            changed_directions: 0,
            bytes: 0,
            path: "".to_owned(),
        }
    }
}

/// The open sides in a mask.
pub open spec fn ones(mask: u8) -> nat {
    (mask % 2 + mask / 2 % 2 + mask / 4 % 2 + mask / 8 % 2 + mask / 16 % 2 + mask / 32 % 2 + mask
        / 64 % 2 + mask / 128 % 2) as nat
}

pub open spec fn ones_of(layers: Seq<Layer>) -> nat
    decreases layers.len(),
{
    if layers.len() == 0 {
        0
    } else {
        ones_of(layers.drop_last()) + ones(layers.last().nswe)
    }
}

/// Layers that differ, and sides that differ in them, for columns of one length.
pub open spec fn layer_changes(before: Seq<Layer>, after: Seq<Layer>) -> (nat, nat)
    decreases before.len(),
{
    if before.len() == 0 || after.len() == 0 {
        (0, 0)
    } else {
        let (cells, directions) = layer_changes(before.drop_last(), after.drop_last());
        if before.last() == after.last() {
            (cells, directions)
        } else {
            (cells + 1, directions + ones(before.last().nswe ^ after.last().nswe))
        }
    }
}

/// The changes in one column. Where its length changed, all its layers count.
pub open spec fn column_changes(before: Seq<Layer>, after: Seq<Layer>) -> (nat, nat) {
    if before.len() != after.len() {
        (
            if before.len() > after.len() {
                before.len()
            } else {
                after.len()
            },
            ones_of(before) + ones_of(after),
        )
    } else {
        layer_changes(before, after)
    }
}

/// The changes in the first columns of a block.
pub open spec fn block_changes(before: BlockModel, after: BlockModel, columns: nat) -> (nat, nat)
    decreases columns,
{
    if columns == 0 {
        (0, 0)
    } else {
        let (cells, directions) = block_changes(before, after, (columns - 1) as nat);
        let (more, sides) = column_changes(before.columns[columns - 1], after.columns[columns - 1]);
        (cells + more, directions + sides)
    }
}

/// The changes in the first blocks of a document.
pub open spec fn document_changes(model: DocumentModel, count: nat) -> (nat, nat)
    decreases count,
{
    if count == 0 {
        (0, 0)
    } else {
        let (cells, directions) = document_changes(model, (count - 1) as nat);
        let (more, sides) = block_changes(
            model.placed[count - 1].block,
            model.blocks[count - 1],
            64,
        );
        (cells + more, directions + sides)
    }
}

/// How many of the first blocks changed their kind.
pub open spec fn conversion_count(model: DocumentModel, count: nat) -> nat
    decreases count,
{
    if count == 0 {
        0
    } else {
        conversion_count(model, (count - 1) as nat) + if model.dirty(count - 1)
            && model.blocks[count - 1].kind != model.placed[count - 1].block.kind {
            1nat
        } else {
            0nat
        }
    }
}

fn count_ones(mask: u8) -> (count: u64)
    ensures
        count == ones(mask),
        count <= 8,
{
    (mask % 2 + mask / 2 % 2 + mask / 4 % 2 + mask / 8 % 2 + mask / 16 % 2 + mask / 32 % 2 + mask
        / 64 % 2 + mask / 128 % 2) as u64
}

fn count_sides(layers: &[Layer]) -> (count: u64)
    requires
        layers@.len() <= 65_535,
    ensures
        count == ones_of(layers@),
        count <= 8 * layers@.len(),
{
    let mut count: u64 = 0;
    let mut next: usize = 0;
    while next < layers.len()
        invariant
            next <= layers.len(),
            layers@.len() <= 65_535,
            count == ones_of(layers@.take(next as int)),
            count <= 8 * next,
        decreases layers.len() - next,
    {
        count += count_ones(layers[next].nswe);
        next += 1;
        assert(layers@.take(next as int).drop_last() =~= layers@.take(next - 1));
    }
    assert(layers@.take(next as int) =~= layers@);
    count
}

fn count_layer_changes(before: &[Layer], after: &[Layer]) -> (count: (u64, u64))
    requires
        before@.len() == after@.len(),
        before@.len() <= 65_535,
    ensures
        count.0 == layer_changes(before@, after@).0,
        count.1 == layer_changes(before@, after@).1,
        count.0 <= 65_535,
        count.1 <= 8 * 65_535,
{
    let mut cells: u64 = 0;
    let mut directions: u64 = 0;
    let mut next: usize = 0;
    while next < before.len()
        invariant
            next <= before.len(),
            before@.len() == after@.len(),
            before@.len() <= 65_535,
            cells == layer_changes(before@.take(next as int), after@.take(next as int)).0,
            directions == layer_changes(before@.take(next as int), after@.take(next as int)).1,
            cells <= next,
            directions <= 8 * next,
        decreases before.len() - next,
    {
        let old = before[next];
        let new = after[next];
        if old.height != new.height || old.nswe != new.nswe {
            cells += 1;
            directions += count_ones(old.nswe ^ new.nswe);
        }
        next += 1;
        assert(before@.take(next as int).drop_last() =~= before@.take(next - 1));
        assert(after@.take(next as int).drop_last() =~= after@.take(next - 1));
    }
    assert(before@.take(next as int) =~= before@);
    assert(after@.take(next as int) =~= after@);
    (cells, directions)
}

fn count_column_changes(before: &[Layer], after: &[Layer]) -> (count: (u64, u64))
    requires
        before@.len() <= 65_535,
        after@.len() <= 65_535,
    ensures
        count.0 == column_changes(before@, after@).0,
        count.1 == column_changes(before@, after@).1,
        count.0 <= 65_535,
        count.1 <= 16 * 65_535,
{
    if before.len() != after.len() {
        let cells: u64 = if before.len() > after.len() {
            before.len() as u64
        } else {
            after.len() as u64
        };
        (cells, count_sides(before) + count_sides(after))
    } else {
        count_layer_changes(before, after)
    }
}

/// How many layers of a block differ, and how many of their sides.
pub fn block_change_stats(original: &EditableBlock, current: &EditableBlock) -> (count: (u64, u64))
    requires
        original.well_formed(),
        current.well_formed(),
    ensures
        count.0 == block_changes(original@, current@, 64).0,
        count.1 == block_changes(original@, current@, 64).1,
        count.0 <= 4_194_240,
        count.1 <= 67_107_840,
{
    let mut cells: u64 = 0;
    let mut directions: u64 = 0;
    let mut column: usize = 0;
    proof {
        original.lemma_cut();
        current.lemma_cut();
        lemma_column_bound(*original);
        lemma_column_bound(*current);
    }
    while column < COLUMNS_PER_BLOCK
        invariant
            column <= 64,
            cells == block_changes(original@, current@, column as nat).0,
            directions == block_changes(original@, current@, column as nat).1,
            cells <= column * 65_535,
            directions <= column * 16 * 65_535,
            forall|i: int| 0 <= i < 64 ==> original.has_column(i),
            forall|i: int| 0 <= i < 64 ==> original.column(i) == #[trigger] original@.columns[i],
            forall|i: int| 0 <= i < 64 ==> current.has_column(i),
            forall|i: int| 0 <= i < 64 ==> current.column(i) == #[trigger] current@.columns[i],
            forall|i: int| 0 <= i < 64 ==> (#[trigger] original@.columns[i]).len() <= 65_535,
            forall|i: int| 0 <= i < 64 ==> (#[trigger] current@.columns[i]).len() <= 65_535,
        decreases 64 - column,
    {
        assert(original.has_column(column as int) && current.has_column(column as int));
        let before = original.layers(column);
        let after = current.layers(column);
        assert(before@ == original@.columns[column as int]);
        assert(after@ == current@.columns[column as int]);
        let (more, sides) = count_column_changes(before, after);
        cells += more;
        directions += sides;
        column += 1;
    }
    (cells, directions)
}

proof fn lemma_column_bound(block: EditableBlock)
    requires
        block.well_cut(),
    ensures
        forall|i: int| 0 <= i < 64 ==> (#[trigger] block@.columns[i]).len() <= 65_535,
{
    block.lemma_cut();
    assert forall|i: int| 0 <= i < 64 implies (#[trigger] block@.columns[i]).len() <= 65_535 by {
        assert(block.has_column(i));
    }
}

/// What a save reports.
pub open spec fn summarised(
    summary: SaveSummary,
    model: DocumentModel,
    destination: Seq<char>,
    size: int,
) -> bool {
    &&& summary.changed_blocks == document::dirty_count(model, 65_536)
    &&& summary.conversion_blocks == conversion_count(model, 65_536)
    &&& summary.changed_cells == document_changes(model, 65_536).0
    &&& summary.changed_directions == document_changes(model, 65_536).1
    &&& summary.bytes == size
    &&& summary.path@ == destination
}

/// Why a document cannot be saved at a path, if so.
pub open spec fn save_refusal(
    model: DocumentModel,
    destination: Seq<char>,
    parent: Seq<char>,
    parent_exists: bool,
) -> Option<ErrorModel> {
    if !model.format.accepts(destination) {
        Some(
            ErrorModel::InvalidArgument(
                "Salvar como precisa manter o formato "@ + model.format.name(),
            ),
        )
    } else if !parent_exists {
        Some(ErrorModel::InvalidArgument("diretório de saída não existe: "@ + parent))
    } else if exported(model) is Err {
        Some(exported(model)->Err_0)
    } else {
        None
    }
}

impl Document {
    /// The document as a file.
    pub fn to_bytes(&self) -> (result: Result<Vec<u8>>)
        requires
            self.well_formed(),
        ensures
            match (result, exported(self@)) {
                (Ok(bytes), Ok(expected)) => bytes@ == expected,
                (Err(error), Err(expected)) => error@ == expected,
                _ => false,
            },
    {
        let mut body = match self.block_bytes() {
            Ok(body) => body,
            Err(error) => {
                return Err(error);
            },
        };
        match &self.format {
            StorageFormat::L2j => Ok(body),
            StorageFormat::L2g { header } => {
                let mut sealed = encrypt_l2g_body(header, body.as_slice());
                let mut output: Vec<u8> = Vec::new();
                output.push(header[0]);
                output.push(header[1]);
                output.push(header[2]);
                output.push(header[3]);
                assert(output@ =~= header@);
                output.append(&mut sealed);
                Ok(output)
            },
            StorageFormat::ConvDat { header } => {
                let mut output = self.conv_dat_opening(header);
                output.append(&mut body);
                Ok(output)
            },
        }
    }

    fn block_bytes(&self) -> (result: Result<Vec<u8>>)
        requires
            self.well_formed(),
        ensures
            match (result, parts(self@, 65_536)) {
                (Ok(bytes), Ok(expected)) => bytes@ == expected,
                (Err(error), Err(expected)) => error@ == expected,
                _ => false,
            },
    {
        let wide = self.format.is_wide();
        let mut output: Vec<u8> = Vec::new();
        let mut index: usize = 0;
        while index < BLOCK_COUNT
            invariant
                index <= 65_536,
                self.well_formed(),
                wide == self@.format.wide(),
                parts(self@, index as nat) == Encoded::Ok(output@),
            decreases 65_536 - index,
        {
            proof {
                self.lemma_state(index as int);
                lemma_placed(self@.body, wide, 65_536, index as int);
            }
            let ghost before = output@;
            let state = &self.blocks[index];
            assert(self@.placed[index as int].start == state.start);
            assert(self@.placed[index as int].end == state.end);
            if state.dirty() {
                match write_editable_block(&mut output, &state.current, wide) {
                    Ok(_) => {},
                    Err(error) => {
                        proof {
                            lemma_parts_fail(self@, (index + 1) as nat, 65_536);
                        }
                        return Err(error);
                    },
                }
            } else {
                append_copy(&mut output, self.original_bytes.as_slice(), state.start, state.end);
            }
            index += 1;
        }
        Ok(output)
    }

    /// The header of a `_conv.dat` file: rewritten where a block changed.
    fn conv_dat_opening(&self, header: &[u8; 18]) -> (opening: Vec<u8>)
        requires
            self.well_formed(),
        ensures
            opening@ == if any_dirty(self@) {
                storage::conv_header(header@, self@.blocks)
            } else {
                header@
            },
    {
        let mut dirty = false;
        let mut flat: u64 = 0;
        let mut complex: u64 = 0;
        let mut cells: u64 = 0;
        let mut index: usize = 0;
        while index < BLOCK_COUNT
            invariant
                index <= 65_536,
                self.well_formed(),
                dirty <==> exists|i: int| 0 <= i < index && #[trigger] self@.dirty(i),
                flat == storage::kind_count(
                    self@.blocks.take(index as int),
                    EditableBlockType::Simple,
                ),
                complex == storage::kind_count(
                    self@.blocks.take(index as int),
                    EditableBlockType::Complex,
                ),
                cells == storage::stored_cells(self@.blocks.take(index as int)),
                flat <= index,
                complex <= index,
                cells <= index * 65_535,
            decreases 65_536 - index,
        {
            proof {
                self.lemma_state(index as int);
                assert(self@.blocks.take(index + 1).drop_last() =~= self@.blocks.take(
                    index as int,
                ));
            }
            let state = &self.blocks[index];
            if state.dirty() {
                assert(self@.dirty(index as int));
                dirty = true;
            }
            match &state.current {
                EditableBlock::Simple(_) => {
                    flat += 1;
                },
                EditableBlock::Complex(_) => {
                    complex += 1;
                    cells += 64;
                },
                EditableBlock::Multilayer { offsets, .. } => {
                    proof {
                        round_trip::lemma_total_of(state.current, 64);
                        assert(state.current@.columns.take(64) =~= state.current@.columns);
                    }
                    cells += offsets[64] as u64;
                },
            }
            index += 1;
        }
        assert(self@.blocks.take(index as int) =~= self@.blocks);
        if dirty {
            conv_dat_header(header, flat, complex, cells)
        } else {
            let mut copy: Vec<u8> = Vec::new();
            append_copy(&mut copy, header.as_slice(), 0, 18);
            assert(copy@ =~= header@);
            copy
        }
    }

    /// Prepares a save. The caller says whether the parent directory exists,
    /// and then writes the temporary file, the backup and the destination.
    pub fn save_as(&self, destination: &str, parent: &str, parent_exists: bool) -> (result: Result<
        SavePlan,
    >)
        requires
            self.well_formed(),
        ensures
            match (result, save_refusal(self@, destination@, parent@, parent_exists)) {
                (Ok(plan), None) => {
                    let name = path::file_name_of(destination@)->0;
                    &&& exported(self@) == Encoded::Ok(plan.bytes@)
                    &&& path::extension_of(name) is Some
                    &&& plan.temporary_extension@ == path::extension_of(name)->0 + ".editor.tmp"@
                    &&& plan.backup_extension@ == path::extension_of(name)->0 + ".bak"@
                    &&& summarised(plan.summary, self@, destination@, plan.bytes@.len() as int)
                },
                (Err(error), Some(expected)) => error@ == expected,
                _ => false,
            },
    {
        if !self.format.matches_destination(destination) {
            let mut message = "Salvar como precisa manter o formato ".to_owned();
            message.append(self.format.format_name());
            return Err(AppError::InvalidArgument(message));
        }
        if !parent_exists {
            let mut message = "diretório de saída não existe: ".to_owned();
            message.append(parent);
            return Err(AppError::InvalidArgument(message));
        }
        let bytes = match self.to_bytes() {
            Ok(bytes) => bytes,
            Err(error) => {
                return Err(error);
            },
        };
        proof {
            lemma_accepted_has_extension(self@.format, destination@);
        }
        let name = match file_name(destination) {
            Some(name) => name,
            None => vstd::pervasive::unreached(),
        };
        let extension = match extension(name.as_slice()) {
            Some(extension) => extension,
            None => vstd::pervasive::unreached(),
        };
        let mut temporary_extension = text::string_of(extension.as_slice());
        temporary_extension.append(".editor.tmp");
        let mut backup_extension = text::string_of(extension.as_slice());
        backup_extension.append(".bak");
        let summary = self.save_summary(destination, bytes.len() as u64);
        Ok(SavePlan { bytes, temporary_extension, backup_extension, summary })
    }

    fn save_summary(&self, destination: &str, bytes: u64) -> (summary: SaveSummary)
        requires
            self.well_formed(),
        ensures
            summarised(summary, self@, destination@, bytes as int),
    {
        let mut changed_cells: u64 = 0;
        let mut changed_directions: u64 = 0;
        let mut conversion_blocks: usize = 0;
        let mut index: usize = 0;
        while index < BLOCK_COUNT
            invariant
                index <= 65_536,
                self.well_formed(),
                changed_cells == document_changes(self@, index as nat).0,
                changed_directions == document_changes(self@, index as nat).1,
                conversion_blocks == conversion_count(self@, index as nat),
                changed_cells <= index * 4_194_240,
                changed_directions <= index * 67_107_840,
                conversion_blocks <= index,
            decreases 65_536 - index,
        {
            proof {
                self.lemma_state(index as int);
            }
            let state = &self.blocks[index];
            let (cells, directions) = block_change_stats(&state.original, &state.current);
            changed_cells += cells;
            changed_directions += directions;
            if state.dirty() && state.current.kind() != state.original.kind() {
                conversion_blocks += 1;
            }
            index += 1;
        }
        SaveSummary {
            changed_blocks: self.changed_blocks(),
            conversion_blocks,
            changed_cells,
            changed_directions,
            bytes,
            path: destination.to_owned(),
        }
    }
}

/// Appends part of some bytes.
fn append_copy(output: &mut Vec<u8>, data: &[u8], start: usize, end: usize)
    requires
        start <= end <= data@.len(),
    ensures
        final(output)@ == old(output)@ + data@.subrange(start as int, end as int),
{
    let mut next: usize = start;
    while next < end
        invariant
            start <= next <= end <= data@.len(),
            output@ == old(output)@ + data@.subrange(start as int, next as int),
        decreases end - next,
    {
        output.push(data[next]);
        next += 1;
        assert(output@ =~= old(output)@ + data@.subrange(start as int, next as int));
    }
}

/// A path that a format accepts has an extension.
proof fn lemma_accepted_has_extension(format: FormatModel, destination: Seq<char>)
    requires
        format.accepts(destination),
    ensures
        path::file_name_of(destination) is Some,
        path::extension_of(path::file_name_of(destination)->0) is Some,
{
    let name = path::file_name_of(destination)->0;
    if format is ConvDat {
        lemma_conv_name(name);
    }
}

/// A name that ends in `_conv.dat` has the extension `dat`.
pub proof fn lemma_conv_name(name: Seq<char>)
    requires
        text::ends_with(text::ascii_lower(name), "_conv.dat"@),
    ensures
        path::last_dot(name) == name.len() - 4,
        name.len() >= 9,
        name.last() == 't' || name.last() == 'T',
{
    reveal_strlit("_conv.dat");
    let low = text::ascii_lower(name);
    let n = name.len() as int;
    let tail = low.skip(n - 9);
    assert(low[n - 1] == tail[8] && low[n - 2] == tail[7] && low[n - 3] == tail[6] && low[n - 4]
        == tail[5]);
    assert(text::lower(name[n - 1]) == 't');
    assert(text::lower(name[n - 2]) == 'a');
    assert(text::lower(name[n - 3]) == 'd');
    assert(text::lower(name[n - 4]) == '.');
    reveal_with_fuel(path::last_dot, 5);
    assert(name.drop_last().last() == name[n - 2]);
    assert(name.drop_last().drop_last().last() == name[n - 3]);
    assert(name.drop_last().drop_last().drop_last().last() == name[n - 4]);
}

} // verus!
