use geodata_editor::chunks::{chunk_blocks, mark_block, mark_cells, ChunkUpdates, CHUNK_COUNT};
use geodata_editor::l2j::{Document, EditableBlockType, Layer, LayerAddress, BLOCKS_PER_AXIS};
use geodata_editor::overlay::{block_is_fully_open, EditorSelectionLookup};
use geodata_editor::overlay_cells::{
    editor_cell_color, editor_geodata_instances_in_blocks, editor_nswe_icon_instances_in_blocks,
    Footprint, GeodataCell, NsweIconCell, OverlaySnapshot,
};
use geodata_editor::ui::EditorUi;

#[test]
fn editor_cells_and_selection_use_high_visibility_colours() {
    let open = Layer {
        height: 0,
        nswe: Layer::OPEN,
    };
    assert_eq!(editor_cell_color(open, false), [0, 205, 230, 165]);
    assert_eq!(
        editor_cell_color(Layer { height: 0, nswe: 0 }, false),
        [235, 45, 45, 230]
    );
    assert_eq!(editor_cell_color(open, true), [255, 235, 0, 255]);
    assert_eq!(
        editor_cell_color(Layer { height: 0, nswe: 0 }, true),
        [255, 235, 0, 255]
    );
}

#[test]
fn simple_selection_colours_the_whole_authored_block() {
    let mut document = Document::blank();
    let address = LayerAddress::new(13, 22, 0);
    let lookup = EditorSelectionLookup::new(&document, &[address]);

    assert!(lookup.contains_simple_block(1, 2));
    assert!(!lookup.contains_cell(13, 22, 0));

    document.convert_simple_to_complex(1, 2).unwrap();
    let lookup = EditorSelectionLookup::new(&document, &[address]);

    assert!(!lookup.contains_simple_block(1, 2));
    assert!(lookup.contains_cell(13, 22, 0));
}

#[test]
fn fully_open_filter_hides_only_blocks_without_restrictions() {
    let mut document = Document::blank();
    assert!(block_is_fully_open(&document, 0, 0));

    document.force_set_nswe(&[LayerAddress::new(0, 0, 0)], 0, "bloquear");

    assert!(!block_is_fully_open(&document, 0, 0));
    assert!(block_is_fully_open(&document, 1, 0));
}

struct CpuCache {
    updates: ChunkUpdates,
    geodata: Vec<Vec<GeodataCell>>,
    icons: Vec<Vec<NsweIconCell>>,
}

fn place(footprint: Footprint) -> (usize, usize) {
    match footprint {
        Footprint::Block => (0, 0),
        Footprint::Sample(size) => (1, size),
        Footprint::Cell => (2, 0),
    }
}

impl CpuCache {
    fn new() -> Self {
        Self {
            updates: ChunkUpdates::new(),
            geodata: (0..CHUNK_COUNT).map(|_| Vec::new()).collect(),
            icons: (0..CHUNK_COUNT).map(|_| Vec::new()).collect(),
        }
    }

    fn refresh(&mut self, document: &mut Document, ui: &EditorUi) -> (Vec<usize>, Vec<usize>) {
        let mut geodata_chunks = Vec::new();
        let mut icon_chunks = Vec::new();
        for update in self.updates.refresh(document, ui) {
            if let Some(cells) = update.geodata {
                self.geodata[update.index] = cells;
                geodata_chunks.push(update.index);
            }
            if let Some(cells) = update.icons {
                self.icons[update.index] = cells;
                icon_chunks.push(update.index);
            }
        }
        (geodata_chunks, icon_chunks)
    }

    fn assert_matches_full(&self, document: &Document, ui: &EditorUi) {
        let snapshot = OverlaySnapshot::new(document, ui);
        let full = editor_geodata_instances_in_blocks(
            document,
            &snapshot,
            (0, BLOCKS_PER_AXIS),
            (0, BLOCKS_PER_AXIS),
        );
        assert_eq!(
            canonical_geodata(self.geodata.iter().flatten()),
            canonical_geodata(full.iter()),
        );
        if ui.show_nswe_icons && !ui.hide_all_blocks {
            let full = editor_nswe_icon_instances_in_blocks(
                document,
                &snapshot,
                (0, BLOCKS_PER_AXIS),
                (0, BLOCKS_PER_AXIS),
            );
            assert_eq!(
                canonical_icons(self.icons.iter().flatten()),
                canonical_icons(full.iter()),
            );
        }
    }
}

type Instance = (usize, usize, i16, (usize, usize), [u8; 4]);

fn canonical_geodata<'a>(cells: impl Iterator<Item = &'a GeodataCell>) -> Vec<Instance> {
    let mut list = cells
        .map(|cell| (cell.x, cell.y, cell.height, place(cell.footprint), cell.color))
        .collect::<Vec<_>>();
    list.sort_unstable();
    list
}

fn canonical_icons<'a>(cells: impl Iterator<Item = &'a NsweIconCell>) -> Vec<Instance> {
    let mut list = cells
        .map(|cell| {
            (
                cell.x,
                cell.y,
                cell.height,
                place(cell.footprint),
                [cell.mask, 0, 0, 0],
            )
        })
        .collect::<Vec<_>>();
    list.sort_unstable();
    list
}

#[test]
fn selected_sample_crossing_a_chunk_boundary_matches_full_generation() {
    let mut document = Document::blank();
    document.convert_simple_to_complex(15, 8).unwrap();
    document.convert_simple_to_complex(16, 8).unwrap();
    let mut ui = EditorUi {
        selected: LayerAddress::new(128, 66, 0),
        selection_hidden: true,
        show_all_open_cells: true,
        show_nswe_icons: true,
        visual_stride: 3,
        ..EditorUi::default()
    };
    let mut cache = CpuCache::new();
    cache.refresh(&mut document, &ui);
    ui.selection_hidden = false;
    let (geodata, icons) = cache.refresh(&mut document, &ui);
    assert_eq!(geodata, [0, 16]);
    assert_eq!(icons, [0, 16]);
    cache.assert_matches_full(&document, &ui);

    ui.selection_hidden = true;
    cache.refresh(&mut document, &ui);
    cache.assert_matches_full(&document, &ui);
}

#[test]
fn hidden_icons_defer_edits_and_restore_the_current_document() {
    let mut document = Document::blank();
    let mut ui = EditorUi {
        selected: LayerAddress::new(130, 130, 0),
        show_nswe_icons: true,
        open_context_radius: 8,
        visual_stride: 1,
        ..EditorUi::default()
    };
    let mut cache = CpuCache::new();
    cache.refresh(&mut document, &ui);
    ui.show_nswe_icons = false;
    document.force_set_nswe(&[ui.selected], 0, "Block selected cell");
    let (geodata, icons) = cache.refresh(&mut document, &ui);
    assert_eq!(geodata, [17]);
    assert!(icons.is_empty(), "hidden glyphs must not be generated");
    cache.assert_matches_full(&document, &ui);

    ui.show_nswe_icons = true;
    ui.hide_all_blocks = true;
    document
        .set_height(&[ui.selected], 64, "Raise cell")
        .unwrap();
    let (_, icons) = cache.refresh(&mut document, &ui);
    assert!(
        icons.is_empty(),
        "the master hide filter also defers glyphs"
    );
    ui.hide_all_blocks = false;
    assert!(cache.updates.needs_icons(&ui));
    let (geodata, icons) = cache.refresh(&mut document, &ui);
    assert!(geodata.is_empty());
    assert_eq!(icons, [17]);
    assert!(!cache.updates.needs_icons(&ui));
    cache.assert_matches_full(&document, &ui);

    assert!(document.undo());
    cache.refresh(&mut document, &ui);
    cache.assert_matches_full(&document, &ui);
    assert!(document.redo());
    cache.refresh(&mut document, &ui);
    cache.assert_matches_full(&document, &ui);
    document.restore_block(16, 16).unwrap();
    cache.refresh(&mut document, &ui);
    cache.assert_matches_full(&document, &ui);
}

#[test]
fn moving_local_context_rebuilds_only_old_and_new_chunks() {
    let mut document = Document::blank();
    let mut ui = EditorUi {
        selected: LayerAddress::new(127, 127, 0),
        selection_hidden: true,
        show_nswe_icons: true,
        open_context_radius: 2,
        visual_stride: 1,
        ..EditorUi::default()
    };
    let mut cache = CpuCache::new();
    cache.refresh(&mut document, &ui);
    ui.selected = LayerAddress::new(257, 257, 0);
    let (geodata, _) = cache.refresh(&mut document, &ui);
    assert_eq!(geodata, [0, 1, 16, 17, 18, 33, 34]);
    cache.assert_matches_full(&document, &ui);

    ui.open_context_radius = 0;
    cache.refresh(&mut document, &ui);
    cache.assert_matches_full(&document, &ui);
    let (geodata, icons) = cache.refresh(&mut document, &ui);
    assert!(geodata.is_empty() && icons.is_empty());
}

#[test]
fn global_filters_replace_all_cached_geometry() {
    let mut document = Document::blank();
    document.convert_simple_to_complex(0, 0).unwrap();
    let mut ui = EditorUi {
        selection_hidden: true,
        show_nswe_icons: true,
        open_context_radius: 8,
        visual_stride: 1,
        ..EditorUi::default()
    };
    let mut cache = CpuCache::new();
    cache.refresh(&mut document, &ui);
    let changes: [fn(&mut EditorUi); 5] = [
        |ui| ui.visual_stride = 3,
        |ui| ui.show_selected_layer_only = true,
        |ui| ui.visible_layer = 1,
        |ui| ui.show_all_open_cells = true,
        |ui| ui.hide_fully_open_blocks = true,
    ];
    for change in changes {
        change(&mut ui);
        let (geodata, icons) = cache.refresh(&mut document, &ui);
        assert_eq!(geodata.len(), CHUNK_COUNT);
        assert_eq!(icons.len(), CHUNK_COUNT);
        cache.assert_matches_full(&document, &ui);
    }
    assert!(cache.geodata.iter().all(|cells| cells.is_empty()));
}

#[test]
fn chunks_cover_the_map_in_squares_of_sixteen_blocks() {
    assert_eq!(chunk_blocks(0), ((0, 16), (0, 16)));
    assert_eq!(chunk_blocks(18), ((16, 32), (32, 48)));
    assert_eq!(chunk_blocks(255), ((240, 256), (240, 256)));
}

#[test]
fn marking_reaches_every_touched_chunk_and_ignores_what_lies_off_the_map() {
    let mut changed = vec![false; CHUNK_COUNT];
    mark_cells(&mut changed, 120, 0, 130, 5000);
    assert_eq!(changed.iter().filter(|marked| **marked).count(), 32);
    mark_cells(&mut changed, 4000, 0, 5000, 10);
    mark_block(&mut changed, 300, 1);
    assert_eq!(changed.iter().filter(|marked| **marked).count(), 32);
    mark_block(&mut changed, 255, 255);
    assert!(changed[255]);
}

#[test]
fn a_selected_simple_block_is_drawn_as_one() {
    let document = Document::blank();
    let ui = EditorUi {
        selected: LayerAddress::new(3, 3, 0),
        visual_stride: 1,
        ..EditorUi::default()
    };
    let snapshot = OverlaySnapshot::new(&document, &ui);
    let cells = editor_geodata_instances_in_blocks(&document, &snapshot, (0, 1), (0, 1));
    assert_eq!(cells.len(), 1);
    assert_eq!(cells[0].footprint, Footprint::Block);
    assert_eq!(cells[0].color, [255, 235, 0, 255]);
    assert_eq!(document.block_type(0, 0), Some(EditableBlockType::Simple));
}

#[test]
fn nothing_is_drawn_beyond_the_map() {
    let document = Document::blank();
    let ui = EditorUi::default();
    let snapshot = OverlaySnapshot::new(&document, &ui);
    let edge = editor_geodata_instances_in_blocks(&document, &snapshot, (255, 256), (255, 256));
    let beyond = editor_geodata_instances_in_blocks(&document, &snapshot, (255, 300), (255, 300));
    assert_eq!(beyond, edge);
    assert!(
        editor_nswe_icon_instances_in_blocks(&document, &snapshot, (256, 300), (0, 2)).is_empty()
    );
}
