//! Which parts of the overlay have to be drawn again.
//!
//! The map is cut into 256 chunks of sixteen by sixteen blocks. Scheduling is
//! kept apart from drawing, so what is redrawn can be held against the map.

use vstd::prelude::*;

use crate::l2j::block::{LayerAddress, MAP_CELLS};
use crate::l2j::document::{Document, DocumentModel};
use crate::l2j::grid;
use crate::overlay;
use crate::overlay::AddressSet;
use crate::overlay_cells;
use crate::overlay_cells::{
    editor_geodata_instances_in_blocks, editor_nswe_icon_instances_in_blocks, GeodataCell,
    NsweIconCell, OverlayCell, OverlaySnapshot, SnapshotModel,
};
use crate::ui::{EditorUi, UiModel};

verus! {

pub const CHUNK_COUNT: usize = 256;

/// The chunk of a block.
pub open spec fn chunk_of(number: int) -> int {
    number / 256 / 16 * 16 + number % 256 / 16
}

/// Whether a rectangle of cells reaches into a chunk.
pub open spec fn reaches(min_x: int, min_y: int, max_x: int, max_y: int, chunk: int) -> bool {
    let x = chunk / 16 * 128;
    let y = chunk % 16 * 128;
    min_x <= x + 127 && max_x >= x && min_y <= y + 127 && max_y >= y
}

/// Whether the surroundings of a cell reach into a chunk.
pub open spec fn surrounds(context: Option<(usize, usize, usize)>, chunk: int) -> bool {
    match context {
        None => false,
        Some((x, y, radius)) => reaches(x - radius, y - radius, x + radius, y + radius, chunk),
    }
}

/// Whether a layer that was selected or is no longer so changes a chunk: its
/// own, and those with a coarse sample whose square it lies in.
pub open spec fn reselected(
    before: SnapshotModel,
    next: SnapshotModel,
    address: LayerAddress,
    chunk: int,
) -> bool {
    &&& before.lookup.cells.contains(address) != next.lookup.cells.contains(address)
    &&& reaches(
        address.x - (next.stride - 1),
        address.y - (next.stride - 1),
        address.x as int,
        address.y as int,
        chunk,
    )
}

/// Whether a simple block that was selected or is no longer so lies in a chunk.
pub open spec fn reselected_block(
    before: SnapshotModel,
    next: SnapshotModel,
    number: int,
    chunk: int,
) -> bool {
    before.lookup.simple_blocks.contains(number) != next.lookup.simple_blocks.contains(number)
        && chunk_of(number) == chunk
}

/// Whether a chunk has to be drawn again.
pub open spec fn stale(
    before: Option<SnapshotModel>,
    next: SnapshotModel,
    repaint: Set<int>,
    chunk: int,
) -> bool {
    ||| exists|number: int| #[trigger] repaint.contains(number) && chunk_of(number) == chunk
    ||| match before {
        None => true,
        Some(before) => {
            ||| before.filters_differ(next)
            ||| before.context() != next.context() && (surrounds(before.context(), chunk)
                || surrounds(next.context(), chunk))
            ||| exists|address: LayerAddress| #[trigger] reselected(before, next, address, chunk)
            ||| exists|number: int|
                0 <= number < 65_536 && #[trigger] reselected_block(before, next, number, chunk)
        },
    }
}

/// The columns and rows of blocks of a chunk.
pub open spec fn chunk_area(chunk: int) -> (int, int) {
    (chunk / 16 * 16, chunk % 16 * 16)
}

/// What is drawn of a chunk.
pub open spec fn chunk_cells(model: DocumentModel, snapshot: SnapshotModel, chunk: int) -> Seq<
    OverlayCell,
> {
    let (x, y) = chunk_area(chunk);
    overlay_cells::area_cells(model, snapshot, x, x + 16, y, y + 16)
}

/// The columns and rows of blocks of a chunk, from the first to behind the last.
pub fn chunk_blocks(index: usize) -> (blocks: ((usize, usize), (usize, usize)))
    requires
        index < 256,
    ensures
        blocks.0.0 == chunk_area(index as int).0,
        blocks.0.1 == chunk_area(index as int).0 + 16,
        blocks.1.0 == chunk_area(index as int).1,
        blocks.1.1 == chunk_area(index as int).1 + 16,
        blocks.0.1 <= 256,
        blocks.1.1 <= 256,
{
    let x: usize = index / 16 * 16;
    let y: usize = index % 16 * 16;
    ((x, x + 16), (y, y + 16))
}

/// Marks the chunk of a block.
pub fn mark_block(changed: &mut Vec<bool>, x: usize, y: usize)
    requires
        old(changed)@.len() == 256,
    ensures
        final(changed)@.len() == 256,
        forall|i: int|
            0 <= i < 256 ==> #[trigger] final(changed)@[i] == (old(changed)@[i] || (
            grid::block_on_map(x as int, y as int) && chunk_of(
                grid::block_number(x as int, y as int),
            ) == i)),
{
    if x < 256 && y < 256 {
        let chunk: usize = x / 16 * 16 + y / 16;
        assert(chunk_of(grid::block_number(x as int, y as int)) == chunk);
        changed[chunk] = true;
    }
}

/// Marks the chunks that a rectangle of cells reaches into.
pub fn mark_cells(changed: &mut Vec<bool>, min_x: usize, min_y: usize, max_x: usize, max_y: usize)
    requires
        old(changed)@.len() == 256,
    ensures
        final(changed)@.len() == 256,
        forall|i: int|
            0 <= i < 256 ==> #[trigger] final(changed)@[i] == (old(changed)@[i] || reaches(
                min_x as int,
                min_y as int,
                max_x as int,
                max_y as int,
                i,
            )),
{
    if min_x >= MAP_CELLS || min_y >= MAP_CELLS {
        return;
    }
    let last_x: usize = if max_x > 2_047 {
        15
    } else {
        max_x / 128
    };
    let last_y: usize = if max_y > 2_047 {
        15
    } else {
        max_y / 128
    };
    let first_x: usize = min_x / 128;
    let first_y: usize = min_y / 128;
    let mut x: usize = first_x;
    while x <= last_x
        invariant
            first_x <= x,
            x <= 16,
            first_x <= 15,
            last_x <= 15,
            last_y <= 15,
            first_y <= 15,
            changed@.len() == 256,
            old(changed)@.len() == 256,
            forall|i: int|
                0 <= i < 256 ==> #[trigger] changed@[i] == (old(changed)@[i] || (first_x <= i / 16
                    < x && i / 16 <= last_x && first_y <= i % 16 <= last_y)),
        decreases 16 - x,
    {
        let mut y: usize = first_y;
        while y <= last_y
            invariant
                first_x <= x <= last_x,
                last_x <= 15,
                last_y <= 15,
                first_y <= 15,
                first_y <= y <= 16,
                changed@.len() == 256,
                old(changed)@.len() == 256,
                forall|i: int|
                    0 <= i < 256 ==> #[trigger] changed@[i] == (old(changed)@[i] || (first_x <= i
                        / 16 < x && first_y <= i % 16 <= last_y) || (i / 16 == x && first_y <= i
                        % 16 < y && i % 16 <= last_y)),
            decreases 16 - y,
        {
            changed[x * 16 + y] = true;
            y += 1;
        }
        x += 1;
    }
    assert forall|i: int| 0 <= i < 256 implies #[trigger] changed@[i] == (old(changed)@[i]
        || reaches(min_x as int, min_y as int, max_x as int, max_y as int, i)) by {}
}

/// A chunk that was generated anew.
pub struct ChunkUpdate {
    pub index: usize,
    pub geodata: Option<Vec<GeodataCell>>,
    pub icons: Option<Vec<NsweIconCell>>,
}

/// Which chunks are out of date, and with what the overlay was last drawn.
pub struct ChunkUpdates {
    snapshot: Option<OverlaySnapshot>,
    geodata_dirty: Vec<bool>,
    icons_dirty: Vec<bool>,
}

/// What [`ChunkUpdates`] hold.
#[verifier::ext_equal]
pub struct UpdatesModel {
    pub snapshot: Option<SnapshotModel>,
    pub geodata_dirty: Seq<bool>,
    pub icons_dirty: Seq<bool>,
}

impl View for ChunkUpdates {
    type V = UpdatesModel;

    closed spec fn view(&self) -> UpdatesModel {
        UpdatesModel {
            snapshot: match self.snapshot {
                Some(snapshot) => Some(snapshot@),
                None => None,
            },
            geodata_dirty: self.geodata_dirty@,
            icons_dirty: self.icons_dirty@,
        }
    }
}

/// Glyphs are drawn unless they or all blocks are hidden.
pub open spec fn glyphs_shown(ui: UiModel) -> bool {
    ui.show_nswe_icons && !ui.hide_all_blocks
}

pub fn icons_visible(ui: &EditorUi) -> (visible: bool)
    ensures
        visible == glyphs_shown(ui@),
{
    ui.show_nswe_icons && !ui.hide_all_blocks
}

impl UpdatesModel {
    /// Nothing drawn yet.
    pub open spec fn fresh() -> UpdatesModel {
        UpdatesModel {
            snapshot: None,
            geodata_dirty: Seq::new(256, |i: int| true),
            icons_dirty: Seq::new(256, |i: int| true),
        }
    }

    /// The state after looking at what changed.
    pub open spec fn marked(self, next: SnapshotModel, repaint: Set<int>) -> UpdatesModel {
        UpdatesModel {
            snapshot: Some(next),
            geodata_dirty: Seq::new(
                256,
                |i: int| self.geodata_dirty[i] || stale(self.snapshot, next, repaint, i),
            ),
            icons_dirty: Seq::new(
                256,
                |i: int| self.icons_dirty[i] || stale(self.snapshot, next, repaint, i),
            ),
        }
    }

    /// Whether a chunk is generated anew.
    pub open spec fn due(self, glyphs: bool, chunk: int) -> bool {
        self.geodata_dirty[chunk] || (glyphs && self.icons_dirty[chunk])
    }

    /// The state after the first chunks were generated. Glyphs that are not
    /// shown stay out of date.
    pub open spec fn drawn(self, glyphs: bool, chunks: nat) -> UpdatesModel {
        UpdatesModel {
            geodata_dirty: Seq::new(256, |i: int| self.geodata_dirty[i] && i >= chunks),
            icons_dirty: Seq::new(256, |i: int| self.icons_dirty[i] && (!glyphs || i >= chunks)),
            ..self
        }
    }
}

/// Whether an update is what a chunk needs.
pub open spec fn fits(
    update: ChunkUpdate,
    model: DocumentModel,
    snapshot: SnapshotModel,
    before: UpdatesModel,
    glyphs: bool,
    chunk: int,
) -> bool {
    &&& update.index == chunk
    &&& update.geodata is Some == before.geodata_dirty[chunk]
    &&& update.icons is Some == (glyphs && before.icons_dirty[chunk])
    &&& update.geodata is Some ==> overlay_cells::all_coloured(
        update.geodata->0@,
        chunk_cells(model, snapshot, chunk),
    )
    &&& update.icons is Some ==> overlay_cells::all_labelled(
        update.icons->0@,
        chunk_cells(model, snapshot, chunk),
    )
}

/// The chunks among the first ones that are generated anew.
pub open spec fn due_chunks(before: UpdatesModel, glyphs: bool, chunks: nat) -> Seq<int>
    decreases chunks,
{
    if chunks == 0 {
        Seq::empty()
    } else if before.due(glyphs, chunks - 1) {
        due_chunks(before, glyphs, (chunks - 1) as nat).push(chunks - 1)
    } else {
        due_chunks(before, glyphs, (chunks - 1) as nat)
    }
}

/// Whether updates are what the first chunks need, one for each of them that is
/// generated anew.
pub open spec fn generates(
    updates: Seq<ChunkUpdate>,
    model: DocumentModel,
    snapshot: SnapshotModel,
    before: UpdatesModel,
    glyphs: bool,
    chunks: nat,
) -> bool {
    let due = due_chunks(before, glyphs, chunks);
    &&& updates.len() == due.len()
    &&& forall|k: int|
        0 <= k < due.len() ==> fits(
            #[trigger] updates[k],
            model,
            snapshot,
            before,
            glyphs,
            due[k],
        )
}

impl Default for ChunkUpdates {
    fn default() -> (updates: Self)
        ensures
            updates.well_formed(),
            updates@ == UpdatesModel::fresh(),
    {
        ChunkUpdates::new()
    }
}

impl ChunkUpdates {
    pub closed spec fn well_formed(&self) -> bool {
        &&& self.geodata_dirty@.len() == 256
        &&& self.icons_dirty@.len() == 256
        &&& match self.snapshot {
            Some(snapshot) => snapshot.well_formed(),
            None => true,
        }
    }

    pub fn new() -> (updates: Self)
        ensures
            updates.well_formed(),
            updates@ == UpdatesModel::fresh(),
    {
        let updates = ChunkUpdates {
            snapshot: None,
            geodata_dirty: vec![true; 256],
            icons_dirty: vec![true; 256],
        };
        assert(updates@ =~= UpdatesModel::fresh());
        updates
    }

    /// Whether glyphs are shown and some of them are out of date.
    pub fn needs_icons(&self, ui: &EditorUi) -> (needed: bool)
        requires
            self.well_formed(),
        ensures
            needed == (glyphs_shown(ui@) && exists|i: int|
                0 <= i < 256 && #[trigger] self@.icons_dirty[i]),
    {
        if !icons_visible(ui) {
            return false;
        }
        let mut next: usize = 0;
        while next < CHUNK_COUNT
            invariant
                next <= 256,
                self.well_formed(),
                glyphs_shown(ui@),
                forall|i: int| 0 <= i < next ==> !#[trigger] self@.icons_dirty[i],
            decreases 256 - next,
        {
            if self.icons_dirty[next] {
                assert(self@.icons_dirty[next as int]);
                return true;
            }
            next += 1;
        }
        false
    }

    /// Marks the chunks that changed since the overlay was last drawn.
    pub fn mark(&mut self, document: &mut Document, ui: &EditorUi)
        requires
            old(self).well_formed(),
            old(document).well_formed(),
        ensures
            final(self).well_formed(),
            final(document).well_formed(),
            final(document)@ == (DocumentModel { repaint: Set::empty(), ..old(document)@ }),
            final(self)@ == old(self)@.marked(
                SnapshotModel::of(old(document)@, ui@),
                old(document)@.repaint,
            ),
    {
        let ghost model = document@;
        let next = OverlaySnapshot::new(document, ui);
        let mut changed: Vec<bool> = vec![false; 256];
        let blocks = document.take_render_changes();
        mark_blocks(&mut changed, &blocks, Ghost(model.repaint));
        match &self.snapshot {
            None => {
                changed = vec![true; 256];
            },
            Some(before) => {
                if before.global_filters_changed(&next) {
                    changed = vec![true; 256];
                } else {
                    mark_differences(&mut changed, before, &next);
                }
            },
        }
        assert forall|i: int| 0 <= i < 256 implies #[trigger] changed@[i] == stale(
            self@.snapshot,
            next@,
            model.repaint,
            i,
        ) by {}
        let mut index: usize = 0;
        while index < CHUNK_COUNT
            invariant
                index <= 256,
                changed@.len() == 256,
                self.well_formed(),
                self.snapshot == old(self).snapshot,
                old(self).well_formed(),
                forall|i: int|
                    0 <= i < index ==> #[trigger] self.geodata_dirty@[i] == (
                    old(self).geodata_dirty@[i] || changed@[i]),
                forall|i: int|
                    0 <= i < index ==> #[trigger] self.icons_dirty@[i] == (
                    old(self).icons_dirty@[i] || changed@[i]),
                forall|i: int|
                    index <= i < 256 ==> #[trigger] self.geodata_dirty@[i] == old(
                        self,
                    ).geodata_dirty@[i],
                forall|i: int|
                    index <= i < 256 ==> #[trigger] self.icons_dirty@[i] == old(
                        self,
                    ).icons_dirty@[i],
            decreases 256 - index,
        {
            if changed[index] {
                self.geodata_dirty[index] = true;
                self.icons_dirty[index] = true;
            }
            index += 1;
        }
        self.snapshot = Some(next);
        proof {
            let expected = old(self)@.marked(next@, model.repaint);
            assert(self@.geodata_dirty =~= expected.geodata_dirty);
            assert(self@.icons_dirty =~= expected.icons_dirty);
        }
    }

    /// Generates one chunk, where it is out of date.
    pub fn rebuild(&mut self, document: &Document, ui: &EditorUi, index: usize) -> (update: Option<
        ChunkUpdate,
    >)
        requires
            old(self).well_formed(),
            old(self)@.snapshot is Some,
            document.well_formed(),
            index < 256,
        ensures
            final(self).well_formed(),
            update is Some == old(self)@.due(glyphs_shown(ui@), index as int),
            update is Some ==> fits(
                update->0,
                document@,
                old(self)@.snapshot->0,
                old(self)@,
                glyphs_shown(ui@),
                index as int,
            ),
            final(self)@ == (UpdatesModel {
                geodata_dirty: old(self)@.geodata_dirty.update(index as int, false),
                icons_dirty: if glyphs_shown(ui@) {
                    old(self)@.icons_dirty.update(index as int, false)
                } else {
                    old(self)@.icons_dirty
                },
                ..old(self)@
            }),
    {
        let glyphs = icons_visible(ui);
        let (block_x, block_y) = chunk_blocks(index);
        let snapshot = match &self.snapshot {
            Some(snapshot) => snapshot,
            None => vstd::pervasive::unreached(),
        };
        let geodata = if self.geodata_dirty[index] {
            Some(editor_geodata_instances_in_blocks(document, snapshot, block_x, block_y))
        } else {
            None
        };
        let icons = if glyphs && self.icons_dirty[index] {
            Some(editor_nswe_icon_instances_in_blocks(document, snapshot, block_x, block_y))
        } else {
            None
        };
        let due = geodata.is_some() || icons.is_some();
        self.geodata_dirty[index] = false;
        if glyphs {
            self.icons_dirty[index] = false;
        }
        if due {
            Some(ChunkUpdate { index, geodata, icons })
        } else {
            None
        }
    }

    /// Marks what changed and generates every chunk that is out of date.
    pub fn refresh(&mut self, document: &mut Document, ui: &EditorUi) -> (updates: Vec<ChunkUpdate>)
        requires
            old(self).well_formed(),
            old(document).well_formed(),
        ensures
            final(self).well_formed(),
            final(document).well_formed(),
            final(document)@ == (DocumentModel { repaint: Set::empty(), ..old(document)@ }),
            ({
                let next = SnapshotModel::of(old(document)@, ui@);
                let marked = old(self)@.marked(next, old(document)@.repaint);
                &&& final(self)@ == marked.drawn(glyphs_shown(ui@), 256)
                &&& generates(updates@, old(document)@, next, marked, glyphs_shown(ui@), 256)
            }),
    {
        let ghost model = document@;
        self.mark(document, ui);
        let ghost next = SnapshotModel::of(model, ui@);
        let ghost marked = self@;
        let ghost glyphs = glyphs_shown(ui@);
        let mut updates: Vec<ChunkUpdate> = Vec::new();
        let mut index: usize = 0;
        proof {
            assert(self@ =~= marked.drawn(glyphs, 0));
            lemma_cells_do_not_repaint(model, document@, next);
        }
        while index < CHUNK_COUNT
            invariant
                index <= 256,
                self.well_formed(),
                document.well_formed(),
                document@ == (DocumentModel { repaint: Set::empty(), ..model }),
                glyphs == glyphs_shown(ui@),
                marked.snapshot == Some(next),
                marked.geodata_dirty.len() == 256,
                marked.icons_dirty.len() == 256,
                self@ == marked.drawn(glyphs, index as nat),
                forall|chunk: int| #[trigger]
                    chunk_cells(document@, next, chunk) == chunk_cells(model, next, chunk),
                generates(updates@, model, next, marked, glyphs, index as nat),
            decreases 256 - index,
        {
            let ghost before = self@;
            assert(chunk_cells(document@, next, index as int) == chunk_cells(
                model,
                next,
                index as int,
            ));
            assert(before.geodata_dirty[index as int] == marked.geodata_dirty[index as int]);
            assert(before.icons_dirty[index as int] == marked.icons_dirty[index as int]);
            match self.rebuild(document, ui, index) {
                Some(update) => {
                    updates.push(update);
                },
                None => {},
            }
            index += 1;
            assert(self@ =~= marked.drawn(glyphs, index as nat));
        }
        updates
    }
}

/// What is drawn does not depend on what was to be drawn again.
pub proof fn lemma_cells_do_not_repaint(
    model: DocumentModel,
    other: DocumentModel,
    snapshot: SnapshotModel,
)
    requires
        other == (DocumentModel { repaint: Set::empty(), ..model }),
    ensures
        forall|chunk: int| #[trigger]
            chunk_cells(other, snapshot, chunk) == chunk_cells(model, snapshot, chunk),
{
    assert forall|chunk: int| #[trigger] chunk_cells(other, snapshot, chunk) == chunk_cells(
        model,
        snapshot,
        chunk,
    ) by {
        let (x, y) = chunk_area(chunk);
        crate::overlay_laws::area_depends_on_blocks(
            other,
            snapshot,
            model,
            snapshot,
            x,
            x + 16,
            y,
            y + 16,
        );
    }
}

fn mark_blocks(
    changed: &mut Vec<bool>,
    blocks: &Vec<(usize, usize)>,
    Ghost(repaint): Ghost<Set<int>>,
)
    requires
        old(changed)@.len() == 256,
        forall|i: int| 0 <= i < 256 ==> !#[trigger] old(changed)@[i],
        forall|k: int|
            0 <= k < blocks@.len() ==> grid::block_on_map(
                (#[trigger] blocks@[k]).0 as int,
                blocks@[k].1 as int,
            ) && repaint.contains(grid::block_number(blocks@[k].0 as int, blocks@[k].1 as int)),
        forall|i: int| #[trigger]
            repaint.contains(i) ==> exists|k: int|
                0 <= k < blocks@.len() && grid::block_number(
                    (#[trigger] blocks@[k]).0 as int,
                    blocks@[k].1 as int,
                ) == i,
    ensures
        final(changed)@.len() == 256,
        forall|i: int|
            0 <= i < 256 ==> #[trigger] final(changed)@[i] == exists|number: int| #[trigger]
                repaint.contains(number) && chunk_of(number) == i,
{
    let mut next: usize = 0;
    while next < blocks.len()
        invariant
            next <= blocks@.len(),
            changed@.len() == 256,
            forall|k: int|
                0 <= k < blocks@.len() ==> grid::block_on_map(
                    (#[trigger] blocks@[k]).0 as int,
                    blocks@[k].1 as int,
                ) && repaint.contains(
                    grid::block_number(blocks@[k].0 as int, blocks@[k].1 as int),
                ),
            forall|i: int|
                0 <= i < 256 ==> #[trigger] changed@[i] == exists|k: int|
                    0 <= k < next && chunk_of(
                        grid::block_number(
                            (#[trigger] blocks@[k]).0 as int,
                            blocks@[k].1 as int,
                        ),
                    ) == i,
        decreases blocks.len() - next,
    {
        let ghost before = changed@;
        mark_block(changed, blocks[next].0, blocks[next].1);
        proof {
            assert forall|i: int| 0 <= i < 256 implies #[trigger] changed@[i] == exists|k: int|
                0 <= k < next + 1 && chunk_of(
                    grid::block_number((#[trigger] blocks@[k]).0 as int, blocks@[k].1 as int),
                ) == i by {
                if before[i] {
                    let k = choose|k: int|
                        0 <= k < next && chunk_of(
                            grid::block_number(
                                (#[trigger] blocks@[k]).0 as int,
                                blocks@[k].1 as int,
                            ),
                        ) == i;
                    assert(chunk_of(
                        grid::block_number(blocks@[k].0 as int, blocks@[k].1 as int),
                    ) == i);
                }
                if chunk_of(
                    grid::block_number(
                        blocks@[next as int].0 as int,
                        blocks@[next as int].1 as int,
                    ),
                ) == i {
                    assert(changed@[i]);
                }
            }
        }
        next += 1;
    }
    proof {
        assert forall|i: int| 0 <= i < 256 implies #[trigger] changed@[i] == exists|number: int|
            #[trigger] repaint.contains(number) && chunk_of(number) == i by {
            if changed@[i] {
                let k = choose|k: int|
                    0 <= k < blocks@.len() && chunk_of(
                        grid::block_number(
                            (#[trigger] blocks@[k]).0 as int,
                            blocks@[k].1 as int,
                        ),
                    ) == i;
                assert(repaint.contains(
                    grid::block_number(blocks@[k].0 as int, blocks@[k].1 as int),
                ));
            }
            if exists|number: int| #[trigger] repaint.contains(number) && chunk_of(number) == i {
                let number = choose|number: int| #[trigger]
                    repaint.contains(number) && chunk_of(number) == i;
                let k = choose|k: int|
                    0 <= k < blocks@.len() && grid::block_number(
                        (#[trigger] blocks@[k]).0 as int,
                        blocks@[k].1 as int,
                    ) == number;
                assert(chunk_of(
                    grid::block_number(blocks@[k].0 as int, blocks@[k].1 as int),
                ) == i);
            }
        }
    }
}

fn mark_context(changed: &mut Vec<bool>, context: Option<(usize, usize, usize)>)
    requires
        old(changed)@.len() == 256,
    ensures
        final(changed)@.len() == 256,
        forall|i: int|
            0 <= i < 256 ==> #[trigger] final(changed)@[i] == (old(changed)@[i] || surrounds(
                context,
                i,
            )),
{
    if let Some((x, y, radius)) = context {
        let min_x: usize = if x < radius {
            0
        } else {
            x - radius
        };
        let min_y: usize = if y < radius {
            0
        } else {
            y - radius
        };
        let max_x: usize = if x > usize::MAX - radius {
            usize::MAX
        } else {
            x + radius
        };
        let max_y: usize = if y > usize::MAX - radius {
            usize::MAX
        } else {
            y + radius
        };
        mark_cells(changed, min_x, min_y, max_x, max_y);
    }
}

/// Marks what the members of one set that another one lacks change.
fn mark_missing(changed: &mut Vec<bool>, members: &AddressSet, others: &AddressSet, halo: usize)
    requires
        old(changed)@.len() == 256,
        members.well_formed(),
        others.well_formed(),
    ensures
        final(changed)@.len() == 256,
        forall|i: int|
            0 <= i < 256 ==> #[trigger] final(changed)@[i] == (old(changed)@[i] || exists|
                address: LayerAddress,
            | #[trigger]
                touched(members@, others@, address, halo as int, i)),
{
    let list = members.as_list();
    let mut next: usize = 0;
    while next < list.len()
        invariant
            next <= list@.len(),
            changed@.len() == 256,
            members.well_formed(),
            others.well_formed(),
            list@.to_set() == members@,
            forall|i: int|
                0 <= i < 256 ==> #[trigger] changed@[i] == (old(changed)@[i] || exists|k: int|
                    0 <= k < next && touched(
                        members@,
                        others@,
                        #[trigger] list@[k],
                        halo as int,
                        i,
                    )),
        decreases list.len() - next,
    {
        let address = list[next];
        let ghost before = changed@;
        assert(list@.to_set().contains(list@[next as int]));
        if !others.contains(address) {
            let min_x: usize = if address.x < halo {
                0
            } else {
                address.x - halo
            };
            let min_y: usize = if address.y < halo {
                0
            } else {
                address.y - halo
            };
            mark_cells(changed, min_x, min_y, address.x, address.y);
        }
        proof {
            assert forall|i: int| 0 <= i < 256 implies #[trigger] changed@[i] == (before[i]
                || touched(members@, others@, address, halo as int, i)) by {}
            assert forall|i: int| 0 <= i < 256 implies #[trigger] changed@[i] == (old(changed)@[i]
                || exists|k: int|
                0 <= k < next + 1 && touched(
                    members@,
                    others@,
                    #[trigger] list@[k],
                    halo as int,
                    i,
                )) by {
                if before[i] && !old(changed)@[i] {
                    let k = choose|k: int|
                        0 <= k < next && touched(
                            members@,
                            others@,
                            #[trigger] list@[k],
                            halo as int,
                            i,
                        );
                    assert(touched(members@, others@, list@[k], halo as int, i));
                }
                if touched(members@, others@, list@[next as int], halo as int, i) {
                    assert(changed@[i]);
                }
            }
        }
        next += 1;
    }
    proof {
        assert forall|i: int| 0 <= i < 256 implies #[trigger] changed@[i] == (old(changed)@[i]
            || exists|address: LayerAddress| #[trigger]
            touched(members@, others@, address, halo as int, i)) by {
            if exists|address: LayerAddress| #[trigger]
                touched(members@, others@, address, halo as int, i) {
                let address = choose|address: LayerAddress| #[trigger]
                    touched(members@, others@, address, halo as int, i);
                assert(list@.to_set().contains(address));
                let k = choose|k: int| 0 <= k < list@.len() && list@[k] == address;
                assert(touched(members@, others@, list@[k], halo as int, i));
            }
        }
    }
}

/// A member of one set that another one lacks changes a chunk.
spec fn touched(
    members: Set<LayerAddress>,
    others: Set<LayerAddress>,
    address: LayerAddress,
    halo: int,
    chunk: int,
) -> bool {
    members.contains(address) && !others.contains(address) && reaches(
        address.x - halo,
        address.y - halo,
        address.x as int,
        address.y as int,
        chunk,
    )
}

fn mark_differences(changed: &mut Vec<bool>, before: &OverlaySnapshot, next: &OverlaySnapshot)
    requires
        old(changed)@.len() == 256,
        before.well_formed(),
        next.well_formed(),
    ensures
        final(changed)@.len() == 256,
        forall|i: int|
            0 <= i < 256 ==> #[trigger] final(changed)@[i] == (old(changed)@[i] || (
            before@.context() != next@.context() && (surrounds(before@.context(), i) || surrounds(
                next@.context(),
                i,
            ))) || (exists|address: LayerAddress| #[trigger]
                reselected(before@, next@, address, i)) || (exists|number: int|
                0 <= number < 65_536 && #[trigger] reselected_block(before@, next@, number, i))),
{
    let before_context = before.context();
    let next_context = next.context();
    let moved = match (before_context, next_context) {
        (None, None) => false,
        (Some((x, y, radius)), Some((u, v, other))) => x != u || y != v || radius != other,
        _ => true,
    };
    assert(moved == (before@.context() != next@.context()));
    if moved {
        mark_context(changed, before_context);
        mark_context(changed, next_context);
    }
    let ghost contexts = changed@;
    let halo: usize = next.stride - 1;
    let before_cells = before.selection.cell_set();
    let next_cells = next.selection.cell_set();
    mark_missing(changed, before_cells, next_cells, halo);
    let ghost gone = changed@;
    mark_missing(changed, next_cells, before_cells, halo);
    let ghost cells = changed@;
    proof {
        assert(before_cells@ == before@.lookup.cells);
        assert(next_cells@ == next@.lookup.cells);
        assert forall|i: int| 0 <= i < 256 implies #[trigger] cells[i] == (contexts[i] || exists|
            address: LayerAddress,
        | #[trigger]
            reselected(before@, next@, address, i)) by {
            assert(gone[i] == (contexts[i] || exists|address: LayerAddress| #[trigger]
                touched(before_cells@, next_cells@, address, halo as int, i)));
            assert(cells[i] == (gone[i] || exists|address: LayerAddress| #[trigger]
                touched(next_cells@, before_cells@, address, halo as int, i)));
            if exists|address: LayerAddress| #[trigger] reselected(before@, next@, address, i) {
                let address = choose|address: LayerAddress| #[trigger]
                    reselected(before@, next@, address, i);
                if before@.lookup.cells.contains(address) {
                    assert(touched(
                        before_cells@,
                        next_cells@,
                        address,
                        halo as int,
                        i,
                    ));
                } else {
                    assert(touched(
                        next_cells@,
                        before_cells@,
                        address,
                        halo as int,
                        i,
                    ));
                }
            }
            if exists|address: LayerAddress| #[trigger]
                touched(before_cells@, next_cells@, address, halo as int, i) {
                let address = choose|address: LayerAddress| #[trigger]
                    touched(before_cells@, next_cells@, address, halo as int, i);
                assert(reselected(before@, next@, address, i));
            }
            if exists|address: LayerAddress| #[trigger]
                touched(next_cells@, before_cells@, address, halo as int, i) {
                let address = choose|address: LayerAddress| #[trigger]
                    touched(next_cells@, before_cells@, address, halo as int, i);
                assert(reselected(before@, next@, address, i));
            }
        }
    }
    let mut number: usize = 0;
    while number < 65_536
        invariant
            number <= 65_536,
            changed@.len() == 256,
            before.well_formed(),
            next.well_formed(),
            forall|i: int|
                0 <= i < 256 ==> #[trigger] changed@[i] == (cells[i] || exists|other: int|
                    0 <= other < number && #[trigger] reselected_block(before@, next@, other, i)),
        decreases 65_536 - number,
    {
        let x: usize = number / 256;
        let y: usize = number % 256;
        let ghost held = changed@;
        assert(grid::block_number(x as int, y as int) == number);
        if before.selection.contains_simple_block(x, y) != next.selection.contains_simple_block(
            x,
            y,
        ) {
            mark_block(changed, x, y);
        }
        proof {
            assert forall|i: int| 0 <= i < 256 implies #[trigger] changed@[i] == (held[i]
                || reselected_block(before@, next@, number as int, i)) by {}
            assert forall|i: int| 0 <= i < 256 implies #[trigger] changed@[i] == (cells[i]
                || exists|other: int|
                0 <= other < number + 1 && #[trigger] reselected_block(
                    before@,
                    next@,
                    other,
                    i,
                )) by {
                if held[i] && !cells[i] {
                    let other = choose|other: int|
                        0 <= other < number && #[trigger] reselected_block(
                            before@,
                            next@,
                            other,
                            i,
                        );
                    assert(reselected_block(before@, next@, other, i));
                }
            }
        }
        number += 1;
    }
}

} // verus!
