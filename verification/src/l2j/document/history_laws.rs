//! What stays of an opened file through any number of edits: every column keeps
//! its number of layers, so what was opened can be written again.

use vstd::prelude::*;

use crate::l2j::block::{
    BlockModel, Direction, EditableBlockType, Layer, LayerAddress, NULL_HEIGHT,
};
use crate::l2j::document::edits;
use crate::l2j::document::edits::{Converted, EditModel};
use crate::l2j::document::{edit_laws, export, laws};
use crate::l2j::document::{DocumentModel, OperationModel};
use crate::l2j::encode::Encoded;
use crate::l2j::storage::FormatModel;
use crate::l2j::{block, codec, document, encode, grid, height_order, round_trip};

verus! {

/// What can happen to a document.
pub enum Change {
    /// [`crate::l2j::document::Document::set_nswe`].
    Masked { targets: Seq<LayerAddress>, mask: u8, label: Seq<char> },
    /// [`crate::l2j::document::Document::force_set_nswe`].
    Forced { targets: Seq<LayerAddress>, mask: u8, label: Seq<char> },
    /// [`crate::l2j::document::Document::set_height`].
    Raised { targets: Seq<LayerAddress>, height: i32, label: Seq<char> },
    /// [`crate::l2j::document::Document::restore_block`].
    Restored { x: int, y: int },
    /// [`crate::l2j::document::Document::convert_simple_to_complex`].
    SimpleToComplex { x: int, y: int },
    /// [`crate::l2j::document::Document::convert_complex_to_multilayer`].
    ComplexToMultilayer { x: int, y: int },
    /// [`crate::l2j::document::Document::convert_multilayer_to_complex`].
    MultilayerToComplex { x: int, y: int },
    /// [`crate::l2j::document::Document::convert_to_simple`].
    ToSimple { x: int, y: int },
    /// [`crate::l2j::document::Document::convert_to_type`].
    ToType { x: int, y: int, target: EditableBlockType },
    Undone,
    Redone,
    /// [`crate::l2j::document::Document::take_render_changes`].
    Drawn,
}

/// A document with one block replaced, where the replacement can be had.
pub open spec fn with_block(
    model: DocumentModel,
    x: int,
    y: int,
    outcome: Converted,
    label: Seq<char>,
) -> DocumentModel {
    match outcome {
        Ok(block) => if grid::block_on_map(x, y) {
            model.edited(model.blocks.update(grid::block_number(x, y), block), label)
        } else {
            model
        },
        Err(_) => model,
    }
}

/// A document after a change.
pub open spec fn after(model: DocumentModel, change: Change) -> DocumentModel {
    let start = EditModel::start(model.blocks);
    match change {
        Change::Masked { targets, mask, label } => model.edited(
            start.setting_all(targets, mask & 15, targets.len()).blocks,
            label,
        ),
        Change::Forced { targets, mask, label } => model.edited(
            start.forcing_all(targets, mask & 15, targets.len()).blocks,
            label,
        ),
        Change::Raised { targets, height, label } => if edits::editable(height as int) {
            model.edited(
                start.raising_all(
                    targets,
                    edits::normalized(height as int) as i16,
                    targets.len(),
                ).blocks,
                label,
            )
        } else {
            model
        },
        Change::Restored { x, y } => with_block(
            model,
            x,
            y,
            Ok(model.placed[grid::block_number(x, y)].block),
            "Restaurar bloco"@,
        ),
        Change::SimpleToComplex { x, y } => with_block(
            model,
            x,
            y,
            edits::as_promoted(model.blocks[grid::block_number(x, y)]),
            "Simple → complex"@,
        ),
        Change::ComplexToMultilayer { x, y } => with_block(
            model,
            x,
            y,
            edits::complex_as_multilayer(model.blocks[grid::block_number(x, y)]),
            "Complex → multilayer"@,
        ),
        Change::MultilayerToComplex { x, y } => with_block(
            model,
            x,
            y,
            edits::multilayer_as_complex(model.blocks[grid::block_number(x, y)]),
            "Multilayer → complex"@,
        ),
        Change::ToSimple { x, y } => with_block(
            model,
            x,
            y,
            edits::as_simple(model.blocks[grid::block_number(x, y)]),
            "Converter em simple"@,
        ),
        Change::ToType { x, y, target } => with_block(
            model,
            x,
            y,
            edits::converted(model.blocks[grid::block_number(x, y)], target),
            match target {
                EditableBlockType::Simple => "Converter em simple"@,
                EditableBlockType::Complex => "Converter em complex"@,
                EditableBlockType::Multilayer => "Converter em multilayer"@,
            },
        ),
        Change::Undone => model.undone(),
        Change::Redone => model.redone(),
        Change::Drawn => DocumentModel { repaint: Set::empty(), ..model },
    }
}

/// A document after one change after the other.
pub open spec fn after_all(model: DocumentModel, changes: Seq<Change>) -> DocumentModel
    decreases changes.len(),
{
    if changes.len() == 0 {
        model
    } else {
        after(after_all(model, changes.drop_last()), changes.last())
    }
}

/// A document as it was opened.
pub open spec fn as_opened(model: DocumentModel) -> bool {
    &&& document::parsed_blocks(model.format, model.body) == document::Blocks::Ok(model.placed)
    &&& model == DocumentModel::fresh(model.format, model.body, model.placed, model.path)
}

/// Two blocks with as many layers in every column.
spec fn alike(a: BlockModel, b: BlockModel) -> bool {
    a.columns.len() == b.columns.len() && forall|c: int|
        0 <= c < a.columns.len() ==> (#[trigger] a.columns[c]).len() == b.columns[c].len()
}

spec fn all_alike(a: Seq<BlockModel>, b: Seq<BlockModel>) -> bool {
    a.len() == b.len() && forall|i: int| 0 <= i < a.len() ==> alike(#[trigger] a[i], b[i])
}

/// Blocks that a step of the history keeps have the shape of the opened ones.
spec fn entries_alike(entries: Map<int, BlockModel>, opened: Seq<BlockModel>) -> bool {
    forall|i: int| #[trigger]
        entries.dom().contains(i) ==> 0 <= i < opened.len() && alike(entries[i], opened[i])
}

spec fn steps_alike(steps: Seq<OperationModel>, opened: Seq<BlockModel>) -> bool {
    forall|k: int|
        0 <= k < steps.len() ==> entries_alike((#[trigger] steps[k]).before, opened)
            && entries_alike(steps[k].after, opened)
}

/// Every block, edited or kept in the history, has the shape of the opened one.
spec fn shape_kept(model: DocumentModel, opened: Seq<BlockModel>) -> bool {
    &&& all_alike(model.blocks, opened)
    &&& steps_alike(model.undo, opened)
    &&& steps_alike(model.redo, opened)
}

/// The blocks as opened: of a map, each with its 64 columns.
spec fn sound_blocks(opened: Seq<BlockModel>) -> bool {
    opened.len() == 65_536 && forall|i: int|
        0 <= i < 65_536 ==> (#[trigger] opened[i]).columns.len() == 64
}

proof fn lemma_alike_chain(a: Seq<BlockModel>, b: Seq<BlockModel>, c: Seq<BlockModel>)
    requires
        all_alike(a, b),
        all_alike(b, c),
    ensures
        all_alike(a, c),
{
    assert forall|i: int| 0 <= i < a.len() implies alike(#[trigger] a[i], c[i]) by {
        assert(alike(a[i], b[i]) && alike(b[i], c[i]));
        assert forall|k: int| 0 <= k < a[i].columns.len() implies (
        #[trigger] a[i].columns[k]).len() == c[i].columns[k].len() by {
            assert(b[i].columns[k].len() == c[i].columns[k].len());
        }
    }
}

proof fn lemma_edited_shape(
    model: DocumentModel,
    blocks: Seq<BlockModel>,
    label: Seq<char>,
    opened: Seq<BlockModel>,
)
    requires
        shape_kept(model, opened),
        all_alike(blocks, opened),
    ensures
        shape_kept(model.edited(blocks, label), opened),
{
    if blocks != model.blocks {
        let next = model.edited(blocks, label);
        let before = document::difference(model.blocks, blocks);
        let later = document::difference(blocks, model.blocks);
        assert(entries_alike(before, opened)) by {
            assert forall|i: int| #[trigger] before.dom().contains(i) implies 0 <= i < opened.len()
                && alike(before[i], opened[i]) by {
                assert(alike(model.blocks[i], opened[i]));
            }
        }
        assert(entries_alike(later, opened)) by {
            assert forall|i: int| #[trigger] later.dom().contains(i) implies 0 <= i < opened.len()
                && alike(later[i], opened[i]) by {
                assert(alike(blocks[i], opened[i]));
            }
        }
        assert forall|k: int| 0 <= k < next.undo.len() implies entries_alike(
            (#[trigger] next.undo[k]).before,
            opened,
        ) && entries_alike(next.undo[k].after, opened) by {
            if k < model.undo.len() {
                assert(next.undo[k] == model.undo[k]);
            }
        }
    }
}

proof fn lemma_patched_shape(
    blocks: Seq<BlockModel>,
    entries: Map<int, BlockModel>,
    opened: Seq<BlockModel>,
)
    requires
        all_alike(blocks, opened),
        entries_alike(entries, opened),
    ensures
        all_alike(document::patched(blocks, entries), opened),
{
    let next = document::patched(blocks, entries);
    assert forall|i: int| 0 <= i < next.len() implies alike(#[trigger] next[i], opened[i]) by {
        assert(alike(blocks[i], opened[i]));
    }
}

proof fn lemma_replaced_shape(
    model: DocumentModel,
    x: int,
    y: int,
    outcome: Converted,
    label: Seq<char>,
    opened: Seq<BlockModel>,
)
    requires
        shape_kept(model, opened),
        sound_blocks(opened),
        outcome is Ok && grid::block_on_map(x, y) ==> alike(
            outcome->Ok_0,
            opened[grid::block_number(x, y)],
        ),
    ensures
        shape_kept(with_block(model, x, y, outcome, label), opened),
{
    if outcome is Ok && grid::block_on_map(x, y) {
        let blocks = model.blocks.update(grid::block_number(x, y), outcome->Ok_0);
        assert forall|i: int| 0 <= i < blocks.len() implies alike(#[trigger] blocks[i], opened[i]) by {
            assert(alike(model.blocks[i], opened[i]));
        }
        lemma_edited_shape(model, blocks, label, opened);
    }
}

proof fn lemma_same_shape(first: EditModel, later: EditModel)
    requires
        first.same_shape(later),
    ensures
        all_alike(later.blocks, first.blocks),
{
    assert forall|i: int| 0 <= i < later.blocks.len() implies alike(
        #[trigger] later.blocks[i],
        first.blocks[i],
    ) by {
        assert(later.blocks[i].columns.len() == first.blocks[i].columns.len());
        assert forall|c: int| 0 <= c < later.blocks[i].columns.len() implies (
        #[trigger] later.blocks[i].columns[c]).len() == first.blocks[i].columns[c].len() by {}
    }
}

proof fn lemma_forcing_shape(edit: EditModel, targets: Seq<LayerAddress>, mask: u8, count: nat)
    requires
        edit.sound(),
        count <= targets.len(),
    ensures
        edit.forcing_all(targets, mask, count).sound(),
        edit.same_shape(edit.forcing_all(targets, mask, count)),
    decreases count,
{
    if count > 0 {
        let fewer = (count - 1) as nat;
        lemma_forcing_shape(edit, targets, mask, fewer);
        let middle = edit.forcing_all(targets, mask, fewer);
        let target = targets[count - 1];
        let x = target.x as int;
        let y = target.y as int;
        if grid::on_map(x, y) && target.layer < middle.column(x, y).len() && middle.column(
            x,
            y,
        )[target.layer as int].height != NULL_HEIGHT {
            edit_laws::override_keeps_all_sides(
                middle,
                target,
                mask,
                Direction::North,
            );
        }
        let last = middle.forcing(target, mask);
        edit.lemma_shape_chain(middle, last);
    }
}

proof fn lemma_raising_shape(edit: EditModel, targets: Seq<LayerAddress>, height: i16, count: nat)
    requires
        edit.sound(),
        count <= targets.len(),
    ensures
        all_alike(edit.raising_all(targets, height, count).blocks, edit.blocks),
    decreases count,
{
    if count > 0 {
        let fewer = (count - 1) as nat;
        lemma_raising_shape(edit, targets, height, fewer);
        let middle = edit.raising_all(targets, height, fewer);
        let target = targets[count - 1];
        let last = middle.raising(target, height);
        let x = target.x as int;
        let y = target.y as int;
        if grid::on_map(x, y) {
            grid::lemma_location(x, y);
            let number = grid::block_of(x, y);
            let c = grid::column_of(x, y);
            let column = middle.column(x, y);
            let layer = target.layer as int;
            assert(alike(middle.blocks[number], edit.blocks[number]));
            if layer < column.len() {
                height_order::height_order_is_sorted(
                    column.update(
                        layer,
                        Layer { height, nswe: column[layer].nswe },
                    ),
                );
            }
        }
        assert forall|i: int| 0 <= i < last.blocks.len() implies alike(
            #[trigger] last.blocks[i],
            middle.blocks[i],
        ) by {}
        lemma_alike_chain(last.blocks, middle.blocks, edit.blocks);
    }
}

/// A change keeps the shape of every block.
proof fn lemma_change_keeps_shape(model: DocumentModel, change: Change)
    requires
        sound_blocks(document::models(model.placed)),
        shape_kept(model, document::models(model.placed)),
    ensures
        after(model, change).placed == model.placed,
        after(model, change).format == model.format,
        after(model, change).body == model.body,
        shape_kept(after(model, change), document::models(model.placed)),
{
    let opened = document::models(model.placed);
    let start = EditModel::start(model.blocks);
    assert(start.sound()) by {
        assert forall|b: int| 0 <= b < 65_536 implies (
        #[trigger] start.blocks[b]).columns.len() == 64 by {
            assert(alike(model.blocks[b], opened[b]));
        }
    }
    assert forall|x: int, y: int| #[trigger] grid::block_on_map(x, y) implies alike(
        model.blocks[grid::block_number(x, y)],
        opened[grid::block_number(x, y)],
    ) && model.placed[grid::block_number(x, y)].block == opened[grid::block_number(x, y)] by {}
    match change {
        Change::Masked { targets, mask, label } => {
            let edit = start.setting_all(targets, mask & 15, targets.len());
            edit_laws::mask_edits_keep_heights(start, targets, mask & 15, targets.len());
            lemma_same_shape(start, edit);
            lemma_alike_chain(edit.blocks, model.blocks, opened);
            lemma_edited_shape(model, edit.blocks, label, opened);
        },
        Change::Forced { targets, mask, label } => {
            let edit = start.forcing_all(targets, mask & 15, targets.len());
            lemma_forcing_shape(start, targets, mask & 15, targets.len());
            lemma_same_shape(start, edit);
            lemma_alike_chain(edit.blocks, model.blocks, opened);
            lemma_edited_shape(model, edit.blocks, label, opened);
        },
        Change::Raised { targets, height, label } => {
            let stored = edits::normalized(height as int) as i16;
            let edit = start.raising_all(targets, stored, targets.len());
            lemma_raising_shape(start, targets, stored, targets.len());
            lemma_alike_chain(edit.blocks, model.blocks, opened);
            lemma_edited_shape(model, edit.blocks, label, opened);
        },
        Change::Restored { x, y } => {
            lemma_replaced_shape(
                model,
                x,
                y,
                Ok(model.placed[grid::block_number(x, y)].block),
                "Restaurar bloco"@,
                opened,
            );
        },
        Change::SimpleToComplex { x, y } => {
            lemma_replaced_shape(
                model,
                x,
                y,
                edits::as_promoted(model.blocks[grid::block_number(x, y)]),
                "Simple → complex"@,
                opened,
            );
        },
        Change::ComplexToMultilayer { x, y } => {
            lemma_replaced_shape(
                model,
                x,
                y,
                edits::complex_as_multilayer(model.blocks[grid::block_number(x, y)]),
                "Complex → multilayer"@,
                opened,
            );
        },
        Change::MultilayerToComplex { x, y } => {
            lemma_replaced_shape(
                model,
                x,
                y,
                edits::multilayer_as_complex(model.blocks[grid::block_number(x, y)]),
                "Multilayer → complex"@,
                opened,
            );
        },
        Change::ToSimple { x, y } => {
            lemma_replaced_shape(
                model,
                x,
                y,
                edits::as_simple(model.blocks[grid::block_number(x, y)]),
                "Converter em simple"@,
                opened,
            );
        },
        Change::ToType { x, y, target } => {
            lemma_replaced_shape(
                model,
                x,
                y,
                edits::converted(model.blocks[grid::block_number(x, y)], target),
                match target {
                    EditableBlockType::Simple => "Converter em simple"@,
                    EditableBlockType::Complex => "Converter em complex"@,
                    EditableBlockType::Multilayer => "Converter em multilayer"@,
                },
                opened,
            );
        },
        Change::Undone => {
            if model.undo.len() > 0 {
                assert(entries_alike(model.undo[model.undo.len() - 1].before, opened));
                lemma_patched_shape(model.blocks, model.undo.last().before, opened);
            }
        },
        Change::Redone => {
            if model.redo.len() > 0 {
                assert(entries_alike(model.redo[model.redo.len() - 1].after, opened));
                lemma_patched_shape(model.blocks, model.redo.last().after, opened);
            }
        },
        Change::Drawn => {},
    }
}

/// A block that was read: 64 columns, none longer than its count can say, and no
/// more layers together than an offset counts.
spec fn as_read(block: BlockModel, wide: bool) -> bool {
    &&& block.columns.len() == 64
    &&& encode::columns_fit(block.columns, wide)
    &&& block::layer_total(block.columns) <= 65_535
}

proof fn lemma_read_columns(data: Seq<u8>, at: int, wide: bool, index: int, columns: nat)
    requires
        codec::columns_at(data, at, wide, index, columns) is Ok,
    ensures
        ({
            let read = codec::columns_at(data, at, wide, index, columns)->Ok_0.0;
            &&& read.len() == columns
            &&& encode::columns_fit(read, wide)
            &&& block::layer_total(read) <= 65_535
        }),
    decreases columns,
{
    if columns > 0 {
        lemma_read_columns(data, at, wide, index, (columns - 1) as nat);
        let (done, next) = codec::columns_at(data, at, wide, index, (columns - 1) as nat)->Ok_0;
        let read = codec::columns_at(data, at, wide, index, columns)->Ok_0.0;
        assert(read.drop_last() =~= done);
        assert forall|i: int| 0 <= i < read.len() implies (#[trigger] read[i]).len()
            <= encode::longest_column(wide) by {
            if i < done.len() {
                assert(read[i] == done[i]);
            }
        }
    }
}

proof fn lemma_single_total(columns: Seq<Seq<Layer>>)
    requires
        forall|i: int| 0 <= i < columns.len() ==> (#[trigger] columns[i]).len() == 1,
    ensures
        block::layer_total(columns) == columns.len(),
    decreases columns.len(),
{
    if columns.len() > 0 {
        lemma_single_total(columns.drop_last());
    }
}

proof fn lemma_read_block(data: Seq<u8>, at: int, wide: bool, index: int)
    requires
        codec::block_at(data, at, wide, index) is Ok,
    ensures
        as_read(codec::block_at(data, at, wide, index)->Ok_0.0, wide),
{
    reveal(codec::block_at);
    let read = codec::block_at(data, at, wide, index)->Ok_0.0;
    let start = if wide {
        at + 2
    } else {
        at + 1
    };
    if read.kind == EditableBlockType::Multilayer {
        lemma_read_columns(data, start, wide, index, 64);
    } else {
        lemma_single_total(read.columns);
    }
}

proof fn lemma_opened_blocks(model: DocumentModel, index: int)
    requires
        document::parsed_blocks(model.format, model.body) == document::Blocks::Ok(model.placed),
        0 <= index < 65_536,
    ensures
        model.placed.len() == 65_536,
        as_read(model.placed[index].block, model.format.wide()),
{
    let wide = model.format.wide();
    export::lemma_placed(model.body, wide, 65_536, index);
    lemma_read_block(model.body, model.placed[index].start, wide, index);
}

proof fn lemma_opened_shape(model: DocumentModel)
    requires
        as_opened(model),
    ensures
        sound_blocks(document::models(model.placed)),
        shape_kept(model, document::models(model.placed)),
{
    let opened = document::models(model.placed);
    lemma_opened_blocks(model, 0);
    assert forall|i: int| 0 <= i < 65_536 implies (#[trigger] opened[i]).columns.len() == 64 by {
        lemma_opened_blocks(model, i);
    }
}

proof fn lemma_changes_keep_shape(model: DocumentModel, changes: Seq<Change>)
    requires
        as_opened(model),
    ensures
        ({
            let end = after_all(model, changes);
            &&& end.placed == model.placed
            &&& end.format == model.format
            &&& end.body == model.body
            &&& shape_kept(end, document::models(model.placed))
        }),
    decreases changes.len(),
{
    lemma_opened_shape(model);
    if changes.len() > 0 {
        lemma_changes_keep_shape(model, changes.drop_last());
        lemma_change_keeps_shape(after_all(model, changes.drop_last()), changes.last());
    }
}

/// No edit, undo or redo adds a layer to a column or takes one away: every column
/// has as many as in the opened file.
pub proof fn edits_keep_the_number_of_layers(
    model: DocumentModel,
    changes: Seq<Change>,
    block: int,
    column: int,
)
    requires
        as_opened(model),
        0 <= block < 65_536,
        0 <= column < 64,
    ensures
        after_all(model, changes).blocks.len() == 65_536,
        after_all(model, changes).blocks[block].columns.len() == 64,
        after_all(model, changes).blocks[block].columns[column].len()
            == model.blocks[block].columns[column].len(),
{
    lemma_opened_shape(model);
    lemma_changes_keep_shape(model, changes);
    let opened = document::models(model.placed);
    assert(alike(after_all(model, changes).blocks[block], opened[block]));
}

proof fn lemma_alike_total(a: BlockModel, b: BlockModel, count: int)
    requires
        alike(a, b),
        0 <= count <= a.columns.len(),
    ensures
        block::layer_total(a.columns.take(count)) == block::layer_total(b.columns.take(count)),
    decreases count,
{
    if count > 0 {
        lemma_alike_total(a, b, count - 1);
        assert(a.columns.take(count).drop_last() =~= a.columns.take(count - 1));
        assert(b.columns.take(count).drop_last() =~= b.columns.take(count - 1));
        assert(a.columns[count - 1].len() == b.columns[count - 1].len());
    }
}

/// An edited block still has the limits of one that was read.
proof fn lemma_still_as_read(model: DocumentModel, changes: Seq<Change>, index: int)
    requires
        as_opened(model),
        0 <= index < 65_536,
    ensures
        as_read(after_all(model, changes).blocks[index], model.format.wide()),
{
    lemma_changes_keep_shape(model, changes);
    lemma_opened_blocks(model, index);
    let opened = document::models(model.placed);
    let now = after_all(model, changes).blocks[index];
    let then = model.placed[index].block;
    assert(alike(after_all(model, changes).blocks[index], opened[index]));
    assert forall|i: int| 0 <= i < now.columns.len() implies (#[trigger] now.columns[i]).len()
        <= encode::longest_column(model.format.wide()) by {
        assert(then.columns[i].len() <= encode::longest_column(model.format.wide()));
    }
    lemma_alike_total(now, then, 64);
    assert(now.columns.take(64) =~= now.columns);
    assert(then.columns.take(64) =~= then.columns);
}

proof fn lemma_layers_length(layers: Seq<Layer>)
    ensures
        encode::layers_bytes(layers).len() == 2 * layers.len(),
    decreases layers.len(),
{
    if layers.len() > 0 {
        lemma_layers_length(layers.drop_last());
    }
}

proof fn lemma_wide_length(columns: Seq<Seq<Layer>>)
    ensures
        encode::columns_bytes(columns, true).len() == 2 * columns.len() + 2 * block::layer_total(
            columns,
        ),
    decreases columns.len(),
{
    if columns.len() > 0 {
        lemma_wide_length(columns.drop_last());
        lemma_layers_length(columns.last());
    }
}

/// Whether the number of layers of every changed multilayer block can be
/// announced in front of it, where the format announces it.
pub open spec fn announceable(model: DocumentModel) -> bool {
    model.format.wide() ==> forall|i: int|
        0 <= i < 65_536 && #[trigger] model.dirty(i) && model.blocks[i].kind
            == EditableBlockType::Multilayer ==> block::layer_total(model.blocks[i].columns)
            <= 16_351
}

proof fn lemma_parts_written(model: DocumentModel, count: nat)
    requires
        count <= 65_536,
        announceable(model),
        forall|i: int|
            0 <= i < 65_536 ==> as_read(#[trigger] model.blocks[i], model.format.wide()),
    ensures
        export::parts(model, count) is Ok,
    decreases count,
{
    if count > 0 {
        lemma_parts_written(model, (count - 1) as nat);
        let index = count - 1;
        assert(as_read(model.blocks[index], model.format.wide()));
        if model.dirty(index) {
            lemma_wide_length(model.blocks[index].columns);
        }
    }
}

proof fn lemma_part_refused(model: DocumentModel, index: int, count: nat)
    requires
        0 <= index < count <= 65_536,
        export::part(model, index) is Err,
    ensures
        export::parts(model, count) is Err,
    decreases count,
{
    if index < count - 1 {
        lemma_part_refused(model, index, (count - 1) as nat);
    }
}

/// Whatever was edited, undone and redone, a document that was opened can be
/// written again. The one exception are formats that announce the number of
/// layers of a block: there a changed multilayer block must not have more of
/// them than can be announced.
pub proof fn edited_document_can_be_written(model: DocumentModel, changes: Seq<Change>)
    requires
        as_opened(model),
    ensures
        export::exported(after_all(model, changes)) is Ok == announceable(
            after_all(model, changes),
        ),
{
    let end = after_all(model, changes);
    let wide = model.format.wide();
    lemma_changes_keep_shape(model, changes);
    assert forall|i: int| 0 <= i < 65_536 implies as_read(#[trigger] end.blocks[i], wide) by {
        lemma_still_as_read(model, changes, i);
    }
    if announceable(end) {
        lemma_parts_written(end, 65_536);
    } else {
        let index = choose|i: int|
            0 <= i < 65_536 && #[trigger] end.dirty(i) && end.blocks[i].kind
                == EditableBlockType::Multilayer && block::layer_total(end.blocks[i].columns)
                > 16_351;
        assert(as_read(end.blocks[index], wide));
        lemma_wide_length(end.blocks[index].columns);
        assert(export::part(end, index) is Err);
        lemma_part_refused(end, index, 65_536);
    }
}

/// Every changed block has heights that bytes hold without loss.
pub open spec fn changed_heights_fit(model: DocumentModel) -> bool {
    forall|i: int|
        0 <= i < 65_536 && #[trigger] model.dirty(i) ==> round_trip::heights_fit(model.blocks[i])
}

proof fn lemma_changes_are_faithful(model: DocumentModel, changes: Seq<Change>)
    requires
        as_opened(model),
        after_all(model, changes).valid(),
        changed_heights_fit(after_all(model, changes)),
    ensures
        laws::faithful_changes(after_all(model, changes)),
{
    let end = after_all(model, changes);
    assert forall|i: int| 0 <= i < 65_536 && #[trigger] end.dirty(i) implies round_trip::faithful(
        end.blocks[i],
    ) by {
        lemma_still_as_read(model, changes, i);
    }
}

/// What was opened and edited is written and read back: the file opens under
/// every name of its format and holds the blocks of the document.
pub proof fn edited_file_reads_back(model: DocumentModel, changes: Seq<Change>, path: Seq<char>)
    requires
        as_opened(model),
        after_all(model, changes).valid(),
        after_all(model, changes).format.accepts(path),
        changed_heights_fit(after_all(model, changes)),
        announceable(after_all(model, changes)),
    ensures
        ({
            let end = after_all(model, changes);
            &&& export::exported(end) is Ok
            &&& document::opened_file(path, export::exported(end)->Ok_0) is Ok
            &&& document::opened_file(path, export::exported(end)->Ok_0)->Ok_0.blocks == end.blocks
        }),
{
    let end = after_all(model, changes);
    edited_document_can_be_written(model, changes);
    lemma_changes_are_faithful(model, changes);
    laws::written_file_reads_back(end, path, export::exported(end)->Ok_0);
}

/// Plain bytes that were read and edited are written as bytes that read as the
/// same blocks.
pub proof fn edited_bytes_read_back(bytes: Seq<u8>, changes: Seq<Change>)
    requires
        document::parsed_blocks(FormatModel::L2j, bytes) is Ok,
        ({
            let placed = document::parsed_blocks(FormatModel::L2j, bytes)->Ok_0;
            let end = after_all(
                DocumentModel::fresh(FormatModel::L2j, bytes, placed, None),
                changes,
            );
            end.valid() && changed_heights_fit(end)
        }),
    ensures
        ({
            let placed = document::parsed_blocks(FormatModel::L2j, bytes)->Ok_0;
            let end = after_all(
                DocumentModel::fresh(FormatModel::L2j, bytes, placed, None),
                changes,
            );
            let written = export::exported(end);
            &&& written is Ok
            &&& document::parsed_blocks(FormatModel::L2j, written->Ok_0) is Ok
            &&& document::models(document::parsed_blocks(FormatModel::L2j, written->Ok_0)->Ok_0)
                == end.blocks
        }),
{
    let placed = document::parsed_blocks(FormatModel::L2j, bytes)->Ok_0;
    let model = DocumentModel::fresh(FormatModel::L2j, bytes, placed, None);
    let end = after_all(model, changes);
    assert(as_opened(model));
    lemma_changes_keep_shape(model, changes);
    edited_document_can_be_written(model, changes);
    lemma_changes_are_faithful(model, changes);
    laws::lemma_reread(end, 65_536);
    let body = export::parts(end, 65_536)->Ok_0;
    assert(export::exported(end) == Encoded::Ok(body));
    let read = document::parsed_blocks(FormatModel::L2j, body)->Ok_0;
    assert(document::models(read) =~= end.blocks);
}

} // verus!
