use geodata_editor::heap::{Entry, Queue};
use geodata_editor::l2j::{Document, LayerAddress, BLOCK_COUNT};
use geodata_editor::line::{rasterized_line, straight_line_selection};
use geodata_editor::route::flexible_line_selection;
use geodata_editor::selection::{
    backward_axis_bounds, block_layer_selection, brush_area_selection, brush_size,
    centered_axis_bounds, forward_axis_bounds, pickable_layers, BrushAnchor,
};

#[test]
fn rectangular_brush_selects_exact_configured_area_around_click() {
    let document = Document::blank();
    let center = LayerAddress::new(100, 200, 0);

    assert_eq!(centered_axis_bounds(center.x, 10), (95, 105));
    assert_eq!(centered_axis_bounds(center.y, 4), (198, 202));

    let selection = brush_area_selection(&document, center, 10, 4, BrushAnchor::Center, false);
    assert_eq!(selection.len(), 40);
    assert!(selection
        .iter()
        .all(|cell| { (95..105).contains(&cell.x) && (198..202).contains(&cell.y) }));

    assert_eq!(centered_axis_bounds(0, 10), (0, 10));
    assert_eq!(centered_axis_bounds(2047, 4), (2044, 2048));
}

#[test]
fn directional_brush_uses_clicked_cell_as_requested_pointer() {
    let document = Document::blank();
    let pointer = LayerAddress::new(100, 200, 0);

    let from_left = brush_area_selection(&document, pointer, 20, 10, BrushAnchor::Left, false);
    assert_eq!(from_left.len(), 200);
    assert!(from_left
        .iter()
        .all(|cell| { (100..120).contains(&cell.x) && (191..201).contains(&cell.y) }));

    let from_right = brush_area_selection(&document, pointer, 20, 10, BrushAnchor::Right, false);
    assert_eq!(from_right.len(), 200);
    assert!(from_right
        .iter()
        .all(|cell| { (81..101).contains(&cell.x) && (191..201).contains(&cell.y) }));
}

#[test]
fn ctrl_line_selection_includes_every_cell_between_two_endpoints() {
    let cells = rasterized_line(LayerAddress::new(1, 9, 0), LayerAddress::new(10, 9, 0));
    assert_eq!(cells.len(), 10);
    assert_eq!(cells.first(), Some(&(1, 9)));
    assert_eq!(cells.last(), Some(&(10, 9)));
    assert!(cells
        .iter()
        .enumerate()
        .all(|(index, cell)| *cell == (index + 1, 9)));
}

#[test]
fn simple_block_expands_to_its_sixty_four_editable_cells() {
    let document = Document::blank();
    let cells = block_layer_selection(&document, 12, 34, 0);

    assert_eq!(cells.len(), 64);
    assert_eq!(cells.first(), Some(&LayerAddress::new(96, 272, 0)));
    assert_eq!(cells.last(), Some(&LayerAddress::new(103, 279, 0)));
    assert!(cells
        .iter()
        .all(|address| document.cell(*address).is_some()));
    assert!(block_layer_selection(&document, 12, 34, 1).is_empty());
}

fn strip_document(strip: &[(usize, usize)]) -> Document {
    let mut bytes = Vec::with_capacity(BLOCK_COUNT * 3 + 126);
    bytes.push(1);
    for local_x in 0..8 {
        for local_y in 0..8 {
            let mask: i16 = if strip.contains(&(local_x, local_y)) {
                1
            } else {
                15
            };
            bytes.extend_from_slice(&mask.to_le_bytes());
        }
    }
    for _ in 1..BLOCK_COUNT {
        bytes.push(0);
        bytes.extend_from_slice(&0_i16.to_le_bytes());
    }
    Document::from_bytes(bytes).expect("synthetic L2J is valid")
}

#[test]
fn ctrl_flexible_selection_follows_a_curved_partial_strip() {
    // The only partial cells in the first complex block form an L-shaped
    // strip. A direct range would cut through open cells, while the
    // flexible Ctrl selection must stay on the authored orange strip.
    let curved_strip = [(0, 0), (1, 0), (2, 0), (2, 1), (2, 2), (3, 2)];
    let document = strip_document(&curved_strip);

    let route = flexible_line_selection(
        &document,
        LayerAddress::new(0, 0, 0),
        LayerAddress::new(3, 2, 0),
    )
    .expect("the connected partial strip should be selected");
    let route_cells = route
        .into_iter()
        .map(|address| (address.x, address.y))
        .collect::<Vec<_>>();
    assert_eq!(route_cells, curved_strip);
}

#[test]
fn a_route_to_its_own_start_is_one_cell() {
    let document = Document::blank();
    let cell = LayerAddress::new(40, 41, 0);
    assert_eq!(
        flexible_line_selection(&document, cell, cell),
        Some(vec![cell])
    );
}

#[test]
fn a_route_from_a_missing_layer_does_not_exist() {
    let document = Document::blank();
    assert_eq!(
        flexible_line_selection(
            &document,
            LayerAddress::new(0, 0, 3),
            LayerAddress::new(4, 4, 0)
        ),
        None
    );
}

#[test]
fn an_open_map_is_crossed_in_the_fewest_steps() {
    let document = Document::blank();
    let start = LayerAddress::new(10, 10, 0);
    let end = LayerAddress::new(14, 13, 0);
    let route = flexible_line_selection(&document, start, end).unwrap();
    assert_eq!(route.len(), 8);
    assert_eq!(route.first(), Some(&start));
    assert_eq!(route.last(), Some(&end));
}

#[test]
fn a_straight_line_joins_its_ends() {
    let document = Document::blank();
    let start = LayerAddress::new(5, 5, 0);
    let end = LayerAddress::new(2, 9, 0);
    let line = straight_line_selection(&document, start, end);
    assert_eq!(line.first(), Some(&start));
    assert_eq!(line.last(), Some(&end));
    assert!(line
        .windows(2)
        .all(|pair| pair[0].x.abs_diff(pair[1].x) <= 1 && pair[0].y.abs_diff(pair[1].y) <= 1));
}

#[test]
fn brush_sizes_stay_usable() {
    assert_eq!(brush_size(0), 1);
    assert_eq!(brush_size(300), 256);
    assert_eq!(forward_axis_bounds(2047, 10), (2038, 2048));
    assert_eq!(backward_axis_bounds(2, 10), (0, 10));
}

#[test]
fn a_brush_leaves_fully_open_cells_out_when_they_are_hidden() {
    let mut document = Document::blank();
    document.force_set_nswe(&[LayerAddress::new(50, 50, 0)], 0, "bloquear");
    let cells = brush_area_selection(
        &document,
        LayerAddress::new(50, 50, 0),
        3,
        3,
        BrushAnchor::Center,
        true,
    );
    assert!(cells.contains(&LayerAddress::new(50, 50, 0)));
    assert!(cells.len() < 9);
}

#[test]
fn a_queue_hands_out_the_least_entry_first() {
    let mut queue = Queue::new();
    for estimate in [7, 3, 9, 1] {
        queue.push(Entry {
            estimate,
            cost: 0,
            node: u64::from(estimate),
        });
    }
    let mut order = Vec::new();
    while let Some(entry) = queue.pop() {
        order.push(entry.estimate);
    }
    assert_eq!(order, [1, 3, 7, 9]);
}

#[test]
fn open_cells_offer_no_layer_while_they_are_hidden() {
    let mut document = Document::blank();
    assert_eq!(pickable_layers(&document, 0, 0, None, false), vec![(0, 0)]);
    assert!(pickable_layers(&document, 0, 0, None, true).is_empty());

    document.force_set_nswe(&[LayerAddress::new(0, 0, 0)], 0, "bloquear");
    assert_eq!(pickable_layers(&document, 0, 0, None, true), vec![(0, 0)]);
    assert_eq!(pickable_layers(&document, 1, 0, None, true), vec![(0, 0)]);
    assert!(pickable_layers(&document, 2, 0, None, true).is_empty());

    assert!(pickable_layers(&document, 0, 0, Some(1), false).is_empty());
    assert!(pickable_layers(&document, 2_048, 0, None, false).is_empty());
}
