//! When a document can be written, and what an empty one is.

use vstd::prelude::*;

use crate::error::ErrorModel;
use crate::l2j::block::{BlockModel, EditableBlockType};
use crate::l2j::document;
use crate::l2j::document::export;
use crate::l2j::document::DocumentModel;
use crate::l2j::storage::FormatModel;
use crate::l2j::encode;

verus! {

/// Only a multilayer block can fail to be written. In `.l2j` and `.l2g` files it
/// does so where a column has more than 255 layers, in `_conv.dat` files where one
/// has more than 32,767.
pub proof fn deep_columns_are_refused(block: BlockModel, column: int)
    requires
        block.valid(),
        0 <= column < 64,
    ensures
        block.kind != EditableBlockType::Multilayer ==> encode::block_bytes(block, false) is Ok
            && encode::block_bytes(block, true) is Ok,
        block.kind == EditableBlockType::Multilayer && block.columns[column].len() > 255
            ==> encode::block_bytes(block, false) == encode::Encoded::Err(
            ErrorModel::InvalidData("L2J/L2G column has more than 255 layers"@),
        ),
        block.kind == EditableBlockType::Multilayer && block.columns[column].len() > 32_767
            ==> encode::block_bytes(block, true) == encode::Encoded::Err(
            ErrorModel::InvalidData("Conv DAT column has more than 32,767 layers"@),
        ),
        (forall|c: int| 0 <= c < 64 ==> (#[trigger] block.columns[c]).len() <= 255)
            ==> encode::block_bytes(block, false) is Ok,
{
    if block.kind == EditableBlockType::Multilayer {
        if block.columns[column].len() > 255 {
            assert(!encode::columns_fit(block.columns, false));
        }
        if block.columns[column].len() > 32_767 {
            assert(!encode::columns_fit(block.columns, true));
        }
    }
}

/// A document is saved unless the name is of another format, the directory is
/// missing, or a block cannot be written.
pub proof fn saving_is_refused_for_a_reason(
    model: DocumentModel,
    destination: Seq<char>,
    parent: Seq<char>,
    parent_exists: bool,
)
    ensures
        export::save_refusal(model, destination, parent, parent_exists) is None <==> {
            &&& model.format.accepts(destination)
            &&& parent_exists
            &&& export::exported(model) is Ok
        },
        model.format.accepts(destination) && !parent_exists ==> export::save_refusal(
            model,
            destination,
            parent,
            parent_exists,
        ) == Some(ErrorModel::InvalidArgument("diretório de saída não existe: "@ + parent)),
{
}

/// An empty document is a whole map of open cells at height zero, three zero
/// bytes for each block, with nothing edited.
pub proof fn empty_map_is_flat_and_open(x: int, y: int, i: int)
    requires
        0 <= x < 2_048,
        0 <= y < 2_048,
        0 <= i < 196_608,
    ensures
        ({
            let empty = DocumentModel::blank();
            let column = empty.column(x, y);
            let block = 256 * (x / 8) + y / 8;
            &&& column.len() == 1
            &&& column[0].height == 0
            &&& column[0].nswe == 15
            &&& empty.body.len() == 196_608
            &&& empty.body[i] == 0
            &&& empty.blocks.len() == 65_536
            &&& empty.blocks[block].kind == EditableBlockType::Simple
            &&& !empty.dirty(block)
            &&& empty.placed[block].start == 3 * block
            &&& empty.placed[block].end == 3 * block + 3
            &&& empty.undo.len() == 0
            &&& empty.redo.len() == 0
            &&& empty.format == FormatModel::L2j
            &&& empty.path is None
        }),
{
    let block = 256 * (x / 8) + y / 8;
    assert(0 <= x / 8 < 256 && 0 <= y / 8 < 256);
    assert(0 <= block < 65_536);
    let column = 8 * (x % 8) + y % 8;
    assert(0 <= column < 64);
    let empty = DocumentModel::blank();
    assert(empty.placed[block] == DocumentModel::blank_block(block));
}

/// What is reported of saving counts the whole map of 65,536 blocks.
pub proof fn summaries_count_the_whole_map(
    summary: export::SaveSummary,
    model: DocumentModel,
    destination: Seq<char>,
    size: int,
)
    requires
        export::summarised(summary, model, destination, size),
    ensures
        summary.changed_blocks == document::dirty_count(model, 65_536),
        summary.conversion_blocks == export::conversion_count(model, 65_536),
        (summary.changed_cells as nat, summary.changed_directions as nat)
            == export::document_changes(model, 65_536),
        summary.bytes == size,
        summary.path@ == destination,
{
}

} // verus!
