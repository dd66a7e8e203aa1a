//! What is kept of the overlay while a map is edited.
//!
//! Of each chunk the quads and the glyphs that were last generated are kept, as
//! the updates of [`crate::chunks::ChunkUpdates`] bring them. After every refresh
//! they are those of the whole map.

use vstd::multiset::Multiset;
use vstd::prelude::*;

use crate::chunks;
use crate::chunks::{ChunkUpdate, UpdatesModel};
use crate::l2j::block::{BlockModel, LayerAddress};
use crate::l2j::document::DocumentModel;
use crate::overlay::LookupModel;
use crate::overlay_cells;
use crate::overlay_cells::{GeodataCell, NsweIconCell, OverlayCell, SnapshotModel};
use crate::overlay_laws;
use crate::ui::UiModel;

verus! {

/// The quads of every chunk after the first updates.
pub open spec fn kept_quads(
    kept: Seq<Seq<GeodataCell>>,
    updates: Seq<ChunkUpdate>,
    count: nat,
) -> Seq<Seq<GeodataCell>>
    decreases count,
{
    if count == 0 {
        kept
    } else {
        let before = kept_quads(kept, updates, (count - 1) as nat);
        match updates[count - 1].geodata {
            Some(quads) => before.update(updates[count - 1].index as int, quads@),
            None => before,
        }
    }
}

/// The glyphs of every chunk after the first updates.
pub open spec fn kept_glyphs(
    kept: Seq<Seq<NsweIconCell>>,
    updates: Seq<ChunkUpdate>,
    count: nat,
) -> Seq<Seq<NsweIconCell>>
    decreases count,
{
    if count == 0 {
        kept
    } else {
        let before = kept_glyphs(kept, updates, (count - 1) as nat);
        match updates[count - 1].icons {
            Some(glyphs) => before.update(updates[count - 1].index as int, glyphs@),
            None => before,
        }
    }
}

/// The first parts, one behind the other.
pub open spec fn joined<T>(parts: Seq<Seq<T>>, count: nat) -> Seq<T>
    decreases count,
{
    if count == 0 {
        Seq::empty()
    } else {
        joined(parts, (count - 1) as nat) + parts[count - 1]
    }
}

/// What can happen to a map and its overlay.
pub enum Step {
    Edited { blocks: Seq<BlockModel>, label: Seq<char> },
    Undone,
    Redone,
    /// The overlay was refreshed, which brought some updates.
    Refreshed { ui: UiModel, updates: Seq<ChunkUpdate> },
}

/// A map, which chunks of its overlay are out of date, and what is kept of each.
pub struct CacheModel {
    pub document: DocumentModel,
    pub updates: UpdatesModel,
    pub quads: Seq<Seq<GeodataCell>>,
    pub glyphs: Seq<Seq<NsweIconCell>>,
}

impl CacheModel {
    /// Nothing was generated yet.
    pub open spec fn starts(self) -> bool {
        &&& self.document.valid()
        &&& self.updates == UpdatesModel::fresh()
        &&& self.quads.len() == 256
        &&& self.glyphs.len() == 256
    }

    /// What a refresh marks.
    pub open spec fn marked(self, ui: UiModel) -> UpdatesModel {
        self.updates.marked(SnapshotModel::of(self.document, ui), self.document.repaint)
    }

    pub open spec fn after(self, step: Step) -> CacheModel {
        match step {
            Step::Edited { blocks, label } => CacheModel {
                document: self.document.edited(blocks, label),
                ..self
            },
            Step::Undone => CacheModel { document: self.document.undone(), ..self },
            Step::Redone => CacheModel { document: self.document.redone(), ..self },
            Step::Refreshed { ui, updates } => CacheModel {
                document: DocumentModel { repaint: Set::empty(), ..self.document },
                updates: self.marked(ui).drawn(chunks::glyphs_shown(ui), 256),
                quads: kept_quads(self.quads, updates, updates.len()),
                glyphs: kept_glyphs(self.glyphs, updates, updates.len()),
            },
        }
    }

    /// Whether a step can be taken: it leaves a valid document, and the updates
    /// of a refresh are those that [`crate::chunks::ChunkUpdates::refresh`] gives.
    pub open spec fn allows(self, step: Step) -> bool {
        &&& self.after(step).document.valid()
        &&& match step {
            Step::Refreshed { ui, updates } => chunks::generates(
                updates,
                self.document,
                SnapshotModel::of(self.document, ui),
                self.marked(ui),
                chunks::glyphs_shown(ui),
                256,
            ),
            _ => true,
        }
    }

    pub open spec fn after_all(self, steps: Seq<Step>) -> CacheModel
        decreases steps.len(),
    {
        if steps.len() == 0 {
            self
        } else {
            self.after_all(steps.drop_last()).after(steps.last())
        }
    }

    pub open spec fn allows_all(self, steps: Seq<Step>) -> bool
        decreases steps.len(),
    {
        steps.len() == 0 || (self.allows_all(steps.drop_last()) && self.after_all(
            steps.drop_last(),
        ).allows(steps.last()))
    }

    /// Every chunk that is not out of date is kept as it was on the map `seen`,
    /// which differs from the document only where that is to be drawn again.
    spec fn faithful(self, seen: DocumentModel) -> bool {
        &&& self.document.valid()
        &&& seen.valid()
        &&& self.quads.len() == 256
        &&& self.glyphs.len() == 256
        &&& self.updates.snapshot is Some ==> self.updates.snapshot->0.stride >= 1
        &&& forall|number: int|
            0 <= number < 65_536 && !self.document.repaint.contains(number) ==> (
            #[trigger] self.document.blocks[number]) == seen.blocks[number]
        &&& forall|c: int|
            0 <= c < 256 && self.updates.snapshot is Some && !self.updates.geodata_dirty[c]
                ==> overlay_cells::all_coloured(
                #[trigger] self.quads[c],
                chunks::chunk_cells(seen, self.updates.snapshot->0, c),
            )
        &&& forall|c: int|
            0 <= c < 256 && self.updates.snapshot is Some && !self.updates.icons_dirty[c]
                ==> overlay_cells::all_labelled(
                #[trigger] self.glyphs[c],
                chunks::chunk_cells(seen, self.updates.snapshot->0, c),
            )
    }
}

proof fn lemma_kept_quads(
    kept: Seq<Seq<GeodataCell>>,
    updates: Seq<ChunkUpdate>,
    model: DocumentModel,
    snapshot: SnapshotModel,
    marked: UpdatesModel,
    shown: bool,
    chunks: nat,
)
    requires
        kept.len() == 256,
        chunks <= 256,
        chunks::due_chunks(marked, shown, chunks).len() <= updates.len(),
        forall|k: int|
            0 <= k < chunks::due_chunks(marked, shown, chunks).len() ==> chunks::fits(
                #[trigger] updates[k],
                model,
                snapshot,
                marked,
                shown,
                chunks::due_chunks(marked, shown, chunks)[k],
            ),
    ensures
        ({
            let now = kept_quads(kept, updates, chunks::due_chunks(marked, shown, chunks).len());
            &&& now.len() == 256
            &&& forall|c: int|
                0 <= c < 256 ==> if c < chunks && marked.geodata_dirty[c] {
                    overlay_cells::all_coloured(
                        #[trigger] now[c],
                        chunks::chunk_cells(model, snapshot, c),
                    )
                } else {
                    now[c] == kept[c]
                }
        }),
    decreases chunks,
{
    if chunks > 0 {
        let fewer = (chunks - 1) as nat;
        let first = chunks::due_chunks(marked, shown, fewer);
        let due = chunks::due_chunks(marked, shown, chunks);
        assert forall|k: int| 0 <= k < first.len() implies chunks::fits(
            #[trigger] updates[k],
            model,
            snapshot,
            marked,
            shown,
            first[k],
        ) by {
            assert(due[k] == first[k]);
        }
        lemma_kept_quads(kept, updates, model, snapshot, marked, shown, fewer);
        if marked.due(shown, chunks - 1) {
            let last = first.len() as int;
            assert(chunks::fits(updates[last], model, snapshot, marked, shown, due[last]));
        }
    }
}

proof fn lemma_kept_glyphs(
    kept: Seq<Seq<NsweIconCell>>,
    updates: Seq<ChunkUpdate>,
    model: DocumentModel,
    snapshot: SnapshotModel,
    marked: UpdatesModel,
    shown: bool,
    chunks: nat,
)
    requires
        kept.len() == 256,
        chunks <= 256,
        chunks::due_chunks(marked, shown, chunks).len() <= updates.len(),
        forall|k: int|
            0 <= k < chunks::due_chunks(marked, shown, chunks).len() ==> chunks::fits(
                #[trigger] updates[k],
                model,
                snapshot,
                marked,
                shown,
                chunks::due_chunks(marked, shown, chunks)[k],
            ),
    ensures
        ({
            let now = kept_glyphs(kept, updates, chunks::due_chunks(marked, shown, chunks).len());
            &&& now.len() == 256
            &&& forall|c: int|
                0 <= c < 256 ==> if c < chunks && shown && marked.icons_dirty[c] {
                    overlay_cells::all_labelled(
                        #[trigger] now[c],
                        chunks::chunk_cells(model, snapshot, c),
                    )
                } else {
                    now[c] == kept[c]
                }
        }),
    decreases chunks,
{
    if chunks > 0 {
        let fewer = (chunks - 1) as nat;
        let first = chunks::due_chunks(marked, shown, fewer);
        let due = chunks::due_chunks(marked, shown, chunks);
        assert forall|k: int| 0 <= k < first.len() implies chunks::fits(
            #[trigger] updates[k],
            model,
            snapshot,
            marked,
            shown,
            first[k],
        ) by {
            assert(due[k] == first[k]);
        }
        lemma_kept_glyphs(kept, updates, model, snapshot, marked, shown, fewer);
        if marked.due(shown, chunks - 1) {
            let last = first.len() as int;
            assert(chunks::fits(updates[last], model, snapshot, marked, shown, due[last]));
        }
    }
}

impl CacheModel {
    proof fn lemma_refreshed(self, ui: UiModel, updates: Seq<ChunkUpdate>, seen: DocumentModel)
        requires
            self.faithful(seen),
            self.allows(Step::Refreshed { ui, updates }),
        ensures
            ({
                let next = self.after(Step::Refreshed { ui, updates });
                next.faithful(next.document)
            }),
    {
        let next = self.after(Step::Refreshed { ui, updates });
        let snapshot = SnapshotModel::of(self.document, ui);
        let marked = self.marked(ui);
        let shown = chunks::glyphs_shown(ui);
        lemma_kept_quads(self.quads, updates, self.document, snapshot, marked, shown, 256);
        lemma_kept_glyphs(self.glyphs, updates, self.document, snapshot, marked, shown, 256);
        chunks::lemma_cells_do_not_repaint(self.document, next.document, snapshot);
        assert forall|c: int| 0 <= c < 256 implies overlay_cells::all_coloured(
            #[trigger] next.quads[c],
            chunks::chunk_cells(next.document, snapshot, c),
        ) by {
            assert(chunks::chunk_cells(next.document, snapshot, c) == chunks::chunk_cells(
                self.document,
                snapshot,
                c,
            ));
            overlay_laws::clean_chunks_show_the_map(
                seen,
                self.document,
                self.updates,
                snapshot,
                self.quads[c],
                self.glyphs[c],
                c,
            );
        }
        assert forall|c: int| 0 <= c < 256 && !next.updates.icons_dirty[c] implies
            overlay_cells::all_labelled(
            #[trigger] next.glyphs[c],
            chunks::chunk_cells(next.document, snapshot, c),
        ) by {
            assert(chunks::chunk_cells(next.document, snapshot, c) == chunks::chunk_cells(
                self.document,
                snapshot,
                c,
            ));
            overlay_laws::clean_chunks_show_the_map(
                seen,
                self.document,
                self.updates,
                snapshot,
                self.quads[c],
                self.glyphs[c],
                c,
            );
        }
    }

    proof fn lemma_step(self, step: Step, seen: DocumentModel) -> (next_seen: DocumentModel)
        requires
            self.faithful(seen),
            self.allows(step),
        ensures
            self.after(step).faithful(next_seen),
            step is Refreshed ==> next_seen == self.after(step).document,
    {
        match step {
            Step::Refreshed { ui, updates } => {
                self.lemma_refreshed(ui, updates, seen);
                self.after(step).document
            },
            _ => {
                let next = self.after(step);
                assert forall|number: int|
                    0 <= number < 65_536 && !next.document.repaint.contains(number) implies (
                #[trigger] next.document.blocks[number]) == seen.blocks[number] by {
                    assert(!self.document.repaint.contains(number));
                    assert(next.document.blocks[number] == self.document.blocks[number]);
                }
                seen
            },
        }
    }

    proof fn lemma_steps(self, steps: Seq<Step>) -> (seen: DocumentModel)
        requires
            self.starts(),
            self.allows_all(steps),
        ensures
            self.after_all(steps).faithful(seen),
            steps.len() > 0 && steps.last() is Refreshed ==> seen == self.after_all(steps).document,
        decreases steps.len(),
    {
        if steps.len() == 0 {
            self.document
        } else {
            let before = self.lemma_steps(steps.drop_last());
            self.after_all(steps.drop_last()).lemma_step(steps.last(), before)
        }
    }
}

/// A strip cut in two.
proof fn lemma_strip_cut(
    model: DocumentModel,
    snapshot: SnapshotModel,
    x: int,
    start: int,
    middle: int,
    end: int,
)
    requires
        start <= middle <= end,
    ensures
        overlay_cells::strip_cells(model, snapshot, x, start, end) == overlay_cells::strip_cells(
            model,
            snapshot,
            x,
            start,
            middle,
        ) + overlay_cells::strip_cells(model, snapshot, x, middle, end),
    decreases end - middle,
{
    let front = overlay_cells::strip_cells(model, snapshot, x, start, middle);
    if middle < end {
        lemma_strip_cut(model, snapshot, x, start, middle, end - 1);
        let back = overlay_cells::strip_cells(model, snapshot, x, middle, end - 1);
        let last = overlay_cells::block_cells(model, snapshot, x, end - 1);
        assert((front + back) + last =~= front + (back + last));
    } else {
        assert(front + Seq::<OverlayCell>::empty() =~= front);
    }
}

/// An area cut between two columns of blocks.
proof fn lemma_area_cut_across(
    model: DocumentModel,
    snapshot: SnapshotModel,
    start: int,
    middle: int,
    end: int,
    low: int,
    high: int,
)
    requires
        start <= middle <= end,
    ensures
        overlay_cells::area_cells(model, snapshot, start, end, low, high)
            == overlay_cells::area_cells(model, snapshot, start, middle, low, high)
            + overlay_cells::area_cells(model, snapshot, middle, end, low, high),
    decreases end - middle,
{
    let front = overlay_cells::area_cells(model, snapshot, start, middle, low, high);
    if middle < end {
        lemma_area_cut_across(model, snapshot, start, middle, end - 1, low, high);
        let back = overlay_cells::area_cells(model, snapshot, middle, end - 1, low, high);
        let last = overlay_cells::strip_cells(model, snapshot, end - 1, low, high);
        assert((front + back) + last =~= front + (back + last));
    } else {
        assert(front + Seq::<OverlayCell>::empty() =~= front);
    }
}

/// What an area holds, whatever the order.
spec fn content(
    model: DocumentModel,
    snapshot: SnapshotModel,
    start_x: int,
    end_x: int,
    start_y: int,
    end_y: int,
) -> Multiset<OverlayCell> {
    overlay_cells::area_cells(model, snapshot, start_x, end_x, start_y, end_y).to_multiset()
}

/// An area cut between two rows of blocks.
proof fn lemma_area_cut_along(
    model: DocumentModel,
    snapshot: SnapshotModel,
    start: int,
    end: int,
    low: int,
    middle: int,
    high: int,
)
    requires
        low <= middle <= high,
    ensures
        content(model, snapshot, start, end, low, high) == content(
            model,
            snapshot,
            start,
            end,
            low,
            middle,
        ).add(content(model, snapshot, start, end, middle, high)),
    decreases end - start,
{
    let left = content(model, snapshot, start, end, low, middle);
    let right = content(model, snapshot, start, end, middle, high);
    if start < end {
        lemma_area_cut_along(model, snapshot, start, end - 1, low, middle, high);
        lemma_strip_cut(model, snapshot, end - 1, low, middle, high);
        let whole_strip = overlay_cells::strip_cells(model, snapshot, end - 1, low, high);
        let left_strip = overlay_cells::strip_cells(model, snapshot, end - 1, low, middle);
        let right_strip = overlay_cells::strip_cells(model, snapshot, end - 1, middle, high);
        let whole_rest = overlay_cells::area_cells(model, snapshot, start, end - 1, low, high);
        let left_rest = overlay_cells::area_cells(model, snapshot, start, end - 1, low, middle);
        let right_rest = overlay_cells::area_cells(model, snapshot, start, end - 1, middle, high);
        vstd::seq_lib::lemma_multiset_commutative(left_strip, right_strip);
        vstd::seq_lib::lemma_multiset_commutative(whole_rest, whole_strip);
        vstd::seq_lib::lemma_multiset_commutative(left_rest, left_strip);
        vstd::seq_lib::lemma_multiset_commutative(right_rest, right_strip);
    } else {
        Seq::<OverlayCell>::empty().to_multiset_ensures();
    }
    assert(content(model, snapshot, start, end, low, high) =~= left.add(right));
}

/// Without rows an area is empty.
proof fn lemma_no_rows(
    model: DocumentModel,
    snapshot: SnapshotModel,
    start: int,
    end: int,
    row: int,
)
    ensures
        overlay_cells::area_cells(model, snapshot, start, end, row, row) == Seq::<
            OverlayCell,
        >::empty(),
    decreases end - start,
{
    if start < end {
        lemma_no_rows(model, snapshot, start, end - 1, row);
        assert(Seq::<OverlayCell>::empty() + Seq::<OverlayCell>::empty() =~= Seq::<
            OverlayCell,
        >::empty());
    }
}

/// What every chunk shows.
spec fn all_chunks(model: DocumentModel, snapshot: SnapshotModel) -> Seq<Seq<OverlayCell>> {
    Seq::new(256, |c: int| chunks::chunk_cells(model, snapshot, c))
}

/// The first chunks hold the full columns of chunks and the start of the next.
proof fn lemma_first_chunks(model: DocumentModel, snapshot: SnapshotModel, column: int, row: int)
    requires
        0 <= column < 16,
        0 <= row <= 16,
    ensures
        joined(all_chunks(model, snapshot), (16 * column + row) as nat).to_multiset() == content(
            model,
            snapshot,
            0,
            16 * column,
            0,
            256,
        ).add(content(model, snapshot, 16 * column, 16 * column + 16, 0, 16 * row)),
    decreases column, row,
{
    let parts = all_chunks(model, snapshot);
    let count = (16 * column + row) as nat;
    let full = content(model, snapshot, 0, 16 * column, 0, 256);
    let rest = content(model, snapshot, 16 * column, 16 * column + 16, 0, 16 * row);
    if row > 0 {
        lemma_first_chunks(model, snapshot, column, row - 1);
        let chunk = count - 1;
        assert(chunk / 16 == column && chunk % 16 == row - 1);
        assert(chunks::chunk_area(chunk) == (16 * column, 16 * (row - 1)));
        lemma_area_cut_along(
            model,
            snapshot,
            16 * column,
            16 * column + 16,
            0,
            16 * (row - 1),
            16 * row,
        );
        vstd::seq_lib::lemma_multiset_commutative(joined(parts, chunk as nat), parts[chunk]);
        assert(joined(parts, count).to_multiset() =~= full.add(rest));
    } else {
        lemma_no_rows(model, snapshot, 16 * column, 16 * column + 16, 0);
        Seq::<OverlayCell>::empty().to_multiset_ensures();
        if column > 0 {
            lemma_first_chunks(model, snapshot, column - 1, 16);
            lemma_area_cut_across(model, snapshot, 0, 16 * (column - 1), 16 * column, 0, 256);
            vstd::seq_lib::lemma_multiset_commutative(
                overlay_cells::area_cells(model, snapshot, 0, 16 * (column - 1), 0, 256),
                overlay_cells::area_cells(
                    model,
                    snapshot,
                    16 * (column - 1),
                    16 * column,
                    0,
                    256,
                ),
            );
        }
        assert(joined(parts, count).to_multiset() =~= full.add(rest));
    }
}

/// All chunks together hold what the whole map holds.
proof fn lemma_chunks_make_the_map(model: DocumentModel, snapshot: SnapshotModel)
    ensures
        joined(all_chunks(model, snapshot), 256).to_multiset() == content(
            model,
            snapshot,
            0,
            256,
            0,
            256,
        ),
{
    lemma_first_chunks(model, snapshot, 15, 16);
    lemma_area_cut_across(model, snapshot, 0, 240, 256, 0, 256);
    vstd::seq_lib::lemma_multiset_commutative(
        overlay_cells::area_cells(model, snapshot, 0, 240, 0, 256),
        overlay_cells::area_cells(model, snapshot, 240, 256, 0, 256),
    );
}

/// Whether two sequences correspond, one for one.
spec fn all_match<A, B>(shown: Seq<B>, cells: Seq<A>, relation: spec_fn(B, A) -> bool) -> bool {
    shown.len() == cells.len() && forall|i: int|
        0 <= i < cells.len() ==> relation(#[trigger] shown[i], cells[i])
}

/// What shows the same cells, each in its only way, is the same in some order.
proof fn lemma_same_shown<A, B>(
    shown: Seq<B>,
    cells: Seq<A>,
    others: Seq<B>,
    more: Seq<A>,
    relation: spec_fn(B, A) -> bool,
)
    requires
        all_match(shown, cells, relation),
        all_match(others, more, relation),
        cells.to_multiset() == more.to_multiset(),
        forall|a: A, b: B, c: B| #[trigger] relation(b, a) && #[trigger] relation(c, a) ==> b == c,
    ensures
        shown.to_multiset() == others.to_multiset(),
    decreases cells.len(),
{
    cells.to_multiset_ensures();
    more.to_multiset_ensures();
    shown.to_multiset_ensures();
    others.to_multiset_ensures();
    if cells.len() == 0 {
        assert(shown =~= others);
    } else {
        let last = cells.len() - 1;
        let cell = cells[last];
        assert(more.to_multiset().count(cell) > 0) by {
            assert(cells.contains(cell));
        }
        assert(more.contains(cell));
        let place = choose|i: int| 0 <= i < more.len() && more[i] == cell;
        assert(relation(shown[last], cell) && relation(others[place], more[place]));
        assert(shown[last] == others[place]);
        let fewer = more.remove(place);
        let less = others.remove(place);
        assert(cells.remove(last).to_multiset() =~= fewer.to_multiset());
        assert forall|i: int| 0 <= i < fewer.len() implies relation(#[trigger] less[i], fewer[i]) by {
            if i < place {
                assert(relation(others[i], more[i]));
            } else {
                assert(relation(others[i + 1], more[i + 1]));
            }
        }
        lemma_same_shown(shown.remove(last), cells.remove(last), less, fewer, relation);
        assert(shown.to_multiset() =~= shown.remove(last).to_multiset().insert(shown[last]));
        assert(others.to_multiset() =~= less.to_multiset().insert(others[place]));
    }
}

/// Parts that correspond one for one do so together.
proof fn lemma_joined_match<A, B>(
    shown: Seq<Seq<B>>,
    cells: Seq<Seq<A>>,
    count: nat,
    relation: spec_fn(B, A) -> bool,
)
    requires
        count <= shown.len() == cells.len(),
        forall|c: int|
            0 <= c < count ==> all_match(#[trigger] shown[c], cells[c], relation),
    ensures
        all_match(joined(shown, count), joined(cells, count), relation),
    decreases count,
{
    if count > 0 {
        lemma_joined_match(shown, cells, (count - 1) as nat, relation);
        assert(all_match(shown[count - 1], cells[count - 1], relation));
    }
}

/// The chosen layers do not depend on what is to be drawn again.
proof fn lemma_lookup_does_not_repaint(
    model: DocumentModel,
    other: DocumentModel,
    selection: Seq<LayerAddress>,
    count: nat,
)
    requires
        model.blocks == other.blocks,
    ensures
        LookupModel::of(model, selection, count) == LookupModel::of(other, selection, count),
    decreases count,
{
    if count > 0 {
        lemma_lookup_does_not_repaint(model, other, selection, (count - 1) as nat);
    }
}

/// What is to be drawn depends on the blocks and the settings alone.
proof fn lemma_snapshot_does_not_repaint(model: DocumentModel, other: DocumentModel, ui: UiModel)
    requires
        model.blocks == other.blocks,
    ensures
        SnapshotModel::of(model, ui) == SnapshotModel::of(other, ui),
{
    let chosen = if ui.selection_hidden {
        Seq::empty()
    } else if ui.selection.len() == 0 {
        seq![ui.selected]
    } else {
        ui.selection
    };
    lemma_lookup_does_not_repaint(model, other, chosen, chosen.len());
}

/// Whatever was edited, undone, redone and refreshed before, after a refresh the
/// quads that are kept of all chunks are, in some order, those that generating
/// the whole map at once gives. So are the glyphs while they are shown; while
/// they are not, a refresh brings none.
pub proof fn kept_overlay_shows_the_map(
    start: CacheModel,
    steps: Seq<Step>,
    ui: UiModel,
    updates: Seq<ChunkUpdate>,
    quads: Seq<GeodataCell>,
    glyphs: Seq<NsweIconCell>,
)
    requires
        start.starts(),
        start.allows_all(steps.push(Step::Refreshed { ui, updates })),
        ({
            let document = start.after_all(steps.push(Step::Refreshed { ui, updates })).document;
            let cells = overlay_cells::area_cells(
                document,
                SnapshotModel::of(document, ui),
                0,
                256,
                0,
                256,
            );
            overlay_cells::all_coloured(quads, cells) && overlay_cells::all_labelled(glyphs, cells)
        }),
    ensures
        ({
            let end = start.after_all(steps.push(Step::Refreshed { ui, updates }));
            &&& joined(end.quads, 256).to_multiset() == quads.to_multiset()
            &&& chunks::glyphs_shown(ui) ==> joined(end.glyphs, 256).to_multiset()
                == glyphs.to_multiset()
            &&& !chunks::glyphs_shown(ui) ==> forall|k: int|
                0 <= k < updates.len() ==> (#[trigger] updates[k]).icons is None
        }),
{
    let step = Step::Refreshed { ui, updates };
    let all = steps.push(step);
    assert(all.drop_last() =~= steps);
    let before = start.after_all(steps);
    let end = start.after_all(all);
    let seen = start.lemma_steps(all);
    assert(seen == end.document);
    lemma_snapshot_does_not_repaint(before.document, end.document, ui);
    let snapshot = SnapshotModel::of(end.document, ui);
    let cells = overlay_cells::area_cells(end.document, snapshot, 0, 256, 0, 256);
    let parts = all_chunks(end.document, snapshot);
    lemma_chunks_make_the_map(end.document, snapshot);

    let colours = |quad: GeodataCell, cell: OverlayCell| overlay_cells::colours(quad, cell);
    assert forall|c: int| 0 <= c < 256 implies all_match(#[trigger] end.quads[c], parts[c], colours) by {
        assert(!end.updates.geodata_dirty[c]);
        assert(overlay_cells::all_coloured(end.quads[c], parts[c]));
    }
    lemma_joined_match(end.quads, parts, 256, colours);
    assert forall|cell: OverlayCell, one: GeodataCell, two: GeodataCell| #[trigger]
        colours(one, cell) && #[trigger] colours(two, cell) implies one == two by {
        assert(one.color =~= two.color);
    }
    assert(all_match(quads, cells, colours));
    lemma_same_shown(joined(end.quads, 256), joined(parts, 256), quads, cells, colours);

    if chunks::glyphs_shown(ui) {
        let labels = |glyph: NsweIconCell, cell: OverlayCell| overlay_cells::labels(glyph, cell);
        assert forall|c: int| 0 <= c < 256 implies all_match(
            #[trigger] end.glyphs[c],
            parts[c],
            labels,
        ) by {
            assert(!end.updates.icons_dirty[c]);
            assert(overlay_cells::all_labelled(end.glyphs[c], parts[c]));
        }
        lemma_joined_match(end.glyphs, parts, 256, labels);
        assert(all_match(glyphs, cells, labels));
        lemma_same_shown(joined(end.glyphs, 256), joined(parts, 256), glyphs, cells, labels);
    }
}

proof fn lemma_nothing_due(marked: UpdatesModel, shown: bool, chunks: nat)
    requires
        chunks <= 256,
        forall|c: int| 0 <= c < 256 ==> !#[trigger] marked.due(shown, c),
    ensures
        chunks::due_chunks(marked, shown, chunks) == Seq::<int>::empty(),
    decreases chunks,
{
    if chunks > 0 {
        lemma_nothing_due(marked, shown, (chunks - 1) as nat);
    }
}

/// A refresh brings nothing where nothing changed since the last one: neither
/// the map nor what the settings show of it.
pub proof fn unchanged_overlay_is_left_alone(
    cache: CacheModel,
    ui: UiModel,
    updates: Seq<ChunkUpdate>,
    next_ui: UiModel,
    next_updates: Seq<ChunkUpdate>,
)
    requires
        ({
            let after = cache.after(Step::Refreshed { ui, updates });
            &&& after.allows(Step::Refreshed { ui: next_ui, updates: next_updates })
            &&& SnapshotModel::of(after.document, next_ui) == SnapshotModel::of(after.document, ui)
            &&& chunks::glyphs_shown(next_ui) ==> chunks::glyphs_shown(ui)
        }),
    ensures
        next_updates.len() == 0,
{
    let after = cache.after(Step::Refreshed { ui, updates });
    let marked = after.marked(next_ui);
    let shown = chunks::glyphs_shown(next_ui);
    lemma_snapshot_does_not_repaint(cache.document, after.document, ui);
    assert forall|c: int| 0 <= c < 256 implies !#[trigger] marked.due(shown, c) by {
        assert(!after.updates.geodata_dirty[c]);
        assert(shown ==> !after.updates.icons_dirty[c]);
        assert(!chunks::stale(
            after.updates.snapshot,
            SnapshotModel::of(after.document, next_ui),
            after.document.repaint,
            c,
        ));
    }
    lemma_nothing_due(marked, shown, 256);
}

} // verus!
