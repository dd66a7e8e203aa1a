//! What opening and writing mean for each other.

use vstd::prelude::*;

use crate::error::ErrorModel;
use crate::l2j::document::export;
use crate::l2j::document::DocumentModel;
use crate::l2j::encode::Encoded;
use crate::l2j::storage::FormatModel;
use crate::l2j::{document, round_trip, storage};
use crate::{path, text};

verus! {

proof fn lemma_clean_parts(model: DocumentModel, count: nat)
    requires
        model.valid(),
        !export::any_dirty(model),
        count <= 65_536,
    ensures
        export::parts(model, count) == Encoded::Ok(model.body.take(document::end_of(model.placed.take(count as int)))),
        0 <= document::end_of(model.placed.take(count as int)) <= model.body.len(),
    decreases count,
{
    let wide = model.format.wide();
    if count > 0 {
        lemma_clean_parts(model, (count - 1) as nat);
        export::lemma_placed(model.body, wide, 65_536, count - 1);
        let here = model.placed[count - 1];
        assert(!model.dirty(count - 1));
        if count > 1 {
            export::lemma_placed(model.body, wide, 65_536, count - 2);
            assert(model.placed.take(count - 1).last() == model.placed[count - 2]);
        }
        assert(model.placed.take(count as int).last() == here);
        assert(model.body.take(here.start) + model.body.subrange(here.start, here.end)
            =~= model.body.take(here.end));
    } else {
        assert(model.body.take(0) =~= Seq::empty());
    }
}

/// An unedited document is written as the very file that it was opened from,
/// byte for byte, in every format.
pub proof fn unedited_export_is_lossless(model: DocumentModel, path: Seq<char>, bytes: Seq<u8>)
    requires
        model.valid(),
        !export::any_dirty(model),
        storage::decoded_file(path, bytes) == Ok::<(FormatModel, Seq<u8>), ErrorModel>(
            (model.format, model.body),
        ),
    ensures
        export::exported(model) == Encoded::Ok(bytes),
{
    lemma_clean_parts(model, 65_536);
    assert(model.placed.take(65_536) =~= model.placed);
    assert(model.body.take(model.body.len() as int) =~= model.body);
    match model.format {
        FormatModel::L2j => {},
        FormatModel::L2g(header) => {
            storage::sealing_undoes_opening(header, bytes.skip(4));
            assert(bytes.take(4) + bytes.skip(4) =~= bytes);
        },
        FormatModel::ConvDat(header) => {
            assert(bytes.take(18) + bytes.skip(18) =~= bytes);
        },
    }
}

/// The bytes of the first blocks open those of all blocks.
proof fn lemma_parts_prefix(model: DocumentModel, few: nat, many: nat)
    requires
        few <= many,
        export::parts(model, many) is Ok,
    ensures
        export::parts(model, few) is Ok,
        export::parts(model, few)->Ok_0.len() <= export::parts(model, many)->Ok_0.len(),
        export::parts(model, many)->Ok_0.take(export::parts(model, few)->Ok_0.len() as int) == export::parts(
            model,
            few,
        )->Ok_0,
    decreases many,
{
    if few < many {
        lemma_parts_prefix(model, few, (many - 1) as nat);
        let front = export::parts(model, few)->Ok_0;
        let shorter = export::parts(model, (many - 1) as nat)->Ok_0;
        let whole = export::parts(model, many)->Ok_0;
        assert(whole.take(front.len() as int) =~= shorter.take(front.len() as int));
    } else {
        let whole = export::parts(model, many)->Ok_0;
        assert(whole.take(whole.len() as int) =~= whole);
    }
}

/// Every block that changed keeps its meaning in bytes.
pub open spec fn faithful_changes(model: DocumentModel) -> bool {
    forall|i: int|
        0 <= i < 65_536 && #[trigger] model.dirty(i) ==> round_trip::faithful(model.blocks[i])
}

/// The blocks of an export are read back one after the other.
pub proof fn lemma_reread(model: DocumentModel, count: nat)
    requires
        model.valid(),
        export::parts(model, 65_536) is Ok,
        faithful_changes(model),
        count <= 65_536,
    ensures
        ({
            let body = export::parts(model, 65_536)->Ok_0;
            let read = document::blocks_at(body, model.format.wide(), count);
            &&& read is Ok
            &&& read->Ok_0.len() == count
            &&& export::parts(model, count) is Ok
            &&& document::end_of(read->Ok_0) == export::parts(model, count)->Ok_0.len()
            &&& forall|i: int| 0 <= i < count ==> (#[trigger] read->Ok_0[i]).block == model.blocks[i]
        }),
    decreases count,
{
    lemma_parts_prefix(model, count, 65_536);
    if count > 0 {
        let wide = model.format.wide();
        let index = count - 1;
        lemma_reread(model, (count - 1) as nat);
        lemma_parts_prefix(model, (count - 1) as nat, 65_536);
        let body = export::parts(model, 65_536)->Ok_0;
        let done = document::blocks_at(body, wide, (count - 1) as nat)->Ok_0;
        let front = export::parts(model, (count - 1) as nat)->Ok_0;
        let here = export::part(model, index)->Ok_0;
        let at = front.len() as int;
        assert(body.subrange(at, at + here.len()) =~= here) by {
            let both = export::parts(model, count)->Ok_0;
            assert(both =~= front + here);
            assert(body.take(both.len() as int) == both);
            assert(body.subrange(at, at + here.len()) =~= body.take(both.len() as int).subrange(
                at,
                at + here.len(),
            ));
        }
        assert(round_trip::stands_at(body, at, here));
        if model.dirty(index) {
            round_trip::written_block_reads_back(body, at, wide, index, model.blocks[index]);
        } else {
            export::lemma_placed(model.body, wide, 65_536, index);
            round_trip::moved_block_reads_the_same(
                model.body,
                model.placed[index].start,
                wide,
                index,
                body,
                at,
                index,
            );
        }
        let read = document::blocks_at(body, wide, count)->Ok_0;
        assert forall|i: int| 0 <= i < count implies (#[trigger] read[i]).block
            == model.blocks[i] by {
            if i < index {
                assert(read[i] == done[i]);
            }
        }
    }
}

/// A name that ends in `_conv.dat` has neither of the other extensions, and no
/// name has both of them.
proof fn lemma_names_are_apart(name: Seq<char>)
    ensures
        storage::has_extension(name, "l2j"@) ==> !text::ends_with(
            text::ascii_lower(name),
            "_conv.dat"@,
        ),
        storage::has_extension(name, "l2g"@) ==> !text::ends_with(
            text::ascii_lower(name),
            "_conv.dat"@,
        ),
        storage::has_extension(name, "l2g"@) ==> !storage::has_extension(name, "l2j"@),
{
    reveal_strlit("l2j");
    reveal_strlit("l2g");
    let j = text::ascii_lower("l2j"@);
    let g = text::ascii_lower("l2g"@);
    assert(j[2] == 'j' && g[2] == 'g' && j.len() == 3 && g.len() == 3);
    if text::ends_with(text::ascii_lower(name), "_conv.dat"@) {
        export::lemma_conv_name(name);
        let extension = path::extension_of(name)->0;
        assert(extension.len() == 3);
        assert(extension[2] == name.last());
        assert(text::ascii_lower(extension)[2] == 't');
    }
}

/// What is written is read back: a file that a document was written as, opened
/// under a name of its format, holds the blocks of the document.
pub proof fn written_file_reads_back(model: DocumentModel, path: Seq<char>, bytes: Seq<u8>)
    requires
        model.valid(),
        model.format.accepts(path),
        export::exported(model) == Encoded::Ok(bytes),
        faithful_changes(model),
    ensures
        document::opened_file(path, bytes) is Ok,
        document::opened_file(path, bytes)->Ok_0.blocks == model.blocks,
        document::opened_file(path, bytes)->Ok_0.format.name() == model.format.name(),
{
    lemma_reread(model, 65_536);
    let body = export::parts(model, 65_536)->Ok_0;
    let wide = model.format.wide();
    let placed = document::blocks_at(body, wide, 65_536)->Ok_0;
    assert(document::models(placed) =~= model.blocks);
    let name = path::file_name_of(path)->0;
    lemma_names_are_apart(name);
    match model.format {
        FormatModel::L2j => {},
        FormatModel::L2g(header) => {
            storage::opening_undoes_sealing(header, body);
            assert(bytes.take(4) =~= header);
            assert(bytes.skip(4) =~= storage::sealed_body(header, body));
        },
        FormatModel::ConvDat(header) => {
            let opening = if export::any_dirty(model) {
                storage::conv_header(header, model.blocks)
            } else {
                header
            };
            assert(opening.len() == 18);
            assert(bytes.take(18) =~= opening);
            assert(bytes.skip(18) =~= body);
        },
    }
}

} // verus!
