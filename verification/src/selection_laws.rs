//! What a brush promises.

use vstd::prelude::*;

use crate::l2j::block::LayerAddress;
use crate::l2j::document::DocumentModel;
use crate::l2j::{document, grid};
use crate::selection;
use crate::selection::BrushAnchor;

verus! {

/// A brush area has the configured size, lies on the map and holds the clicked
/// cell, whichever part of it the cell marks.
pub proof fn brush_area_holds_the_click(
    center: LayerAddress,
    width: int,
    height: int,
    anchor: BrushAnchor,
)
    requires
        grid::on_map(center.x as int, center.y as int),
    ensures
        ({
            let (columns, rows) = selection::brush_bounds(center, width, height, anchor);
            &&& columns.1 - columns.0 == selection::usable_size(width)
            &&& rows.1 - rows.0 == selection::usable_size(height)
            &&& 0 <= columns.0 <= center.x < columns.1 <= 2_048
            &&& 0 <= rows.0 <= center.y < rows.1 <= 2_048
        }),
{
}

/// Away from the edges, the anchors put the clicked cell where they say: at the
/// left end of the columns, in their middle, or at their right end.
pub proof fn brush_anchor_places_the_click(center: LayerAddress, width: int, height: int)
    requires
        256 <= center.x < 1_792,
        256 <= center.y < 1_792,
    ensures
        selection::brush_bounds(center, width, height, BrushAnchor::Left).0.0 == center.x,
        selection::brush_bounds(center, width, height, BrushAnchor::Right).0.1 == center.x + 1,
        selection::brush_bounds(center, width, height, BrushAnchor::Left).1.1 == center.y + 1,
        selection::brush_bounds(center, width, height, BrushAnchor::Right).1.1 == center.y + 1,
        selection::brush_bounds(center, width, height, BrushAnchor::Center).0.0 == center.x
            - selection::usable_size(width) / 2,
        selection::brush_bounds(center, width, height, BrushAnchor::Center).1.0 == center.y
            - selection::usable_size(height) / 2,
{
}

proof fn lemma_row(
    model: DocumentModel,
    y: int,
    start_x: int,
    end_x: int,
    wanted: int,
    hide: bool,
    entry: LayerAddress,
)
    requires
        model.valid(),
        0 <= start_x <= end_x <= 2_048,
        0 <= y < 2_048,
        0 <= wanted <= usize::MAX,
    ensures
        selection::brush_row(model, y, start_x, end_x, wanted, hide).contains(entry) <==> entry.y
            == y && start_x <= entry.x < end_x && selection::brush_cell(
            model,
            entry.x as int,
            y,
            wanted,
            hide,
        ) == seq![entry],
    decreases end_x - start_x,
{
    if start_x < end_x {
        lemma_row(model, y, start_x, end_x - 1, wanted, hide, entry);
        let front = selection::brush_row(model, y, start_x, end_x - 1, wanted, hide);
        let last = selection::brush_cell(model, end_x - 1, y, wanted, hide);
        let whole = front + last;
        document::lemma_column(model, end_x - 1, y);
        lemma_joined(front, last, entry);
        if last.contains(entry) {
            assert(last[0] == entry);
        }
        if entry.y == y && entry.x == end_x - 1 && last == seq![entry] {
            assert(last[0] == entry);
            assert(last.contains(entry));
        }
    }
}

proof fn lemma_joined(front: Seq<LayerAddress>, last: Seq<LayerAddress>, entry: LayerAddress)
    ensures
        (front + last).contains(entry) <==> front.contains(entry) || last.contains(entry),
{
    let whole = front + last;
    if front.contains(entry) {
        let i = choose|i: int| 0 <= i < front.len() && front[i] == entry;
        assert(whole[i] == entry);
    }
    if last.contains(entry) {
        let i = choose|i: int| 0 <= i < last.len() && last[i] == entry;
        assert(whole[front.len() + i] == entry);
    }
    if whole.contains(entry) {
        let i = choose|i: int| 0 <= i < whole.len() && whole[i] == entry;
        if i < front.len() {
            assert(front[i] == entry);
        } else {
            assert(last[i - front.len()] == entry);
        }
    }
}

proof fn lemma_rows(
    model: DocumentModel,
    start_x: int,
    end_x: int,
    start_y: int,
    end_y: int,
    wanted: int,
    hide: bool,
    entry: LayerAddress,
)
    requires
        model.valid(),
        0 <= start_x <= end_x <= 2_048,
        0 <= start_y <= end_y <= 2_048,
        0 <= wanted <= usize::MAX,
    ensures
        selection::brush_rows(model, start_x, end_x, start_y, end_y, wanted, hide).contains(entry)
            <==> start_x <= entry.x < end_x && start_y <= entry.y < end_y
            && selection::brush_cell(model, entry.x as int, entry.y as int, wanted, hide)
            == seq![entry],
    decreases end_y - start_y,
{
    if start_y < end_y {
        lemma_rows(model, start_x, end_x, start_y, end_y - 1, wanted, hide, entry);
        lemma_row(model, end_y - 1, start_x, end_x, wanted, hide, entry);
        lemma_joined(
            selection::brush_rows(model, start_x, end_x, start_y, end_y - 1, wanted, hide),
            selection::brush_row(model, end_y - 1, start_x, end_x, wanted, hide),
            entry,
        );
    }
}

/// A brush picks exactly the cells of its area that can be edited and are
/// shown, each with one layer.
pub proof fn brush_picks_its_area(
    model: DocumentModel,
    center: LayerAddress,
    width: int,
    height: int,
    anchor: BrushAnchor,
    hide: bool,
    entry: LayerAddress,
)
    requires
        model.valid(),
        grid::on_map(center.x as int, center.y as int),
    ensures
        ({
            let (columns, rows) = selection::brush_bounds(center, width, height, anchor);
            selection::brushed(model, center, width, height, anchor, hide).contains(entry) <==> {
                &&& columns.0 <= entry.x < columns.1
                &&& rows.0 <= entry.y < rows.1
                &&& selection::brush_cell(
                    model,
                    entry.x as int,
                    entry.y as int,
                    center.layer as int,
                    hide,
                ) == seq![entry]
            }
        }),
{
    brush_area_holds_the_click(center, width, height, anchor);
    let (columns, rows) = selection::brush_bounds(center, width, height, anchor);
    lemma_rows(
        model,
        columns.0,
        columns.1,
        rows.0,
        rows.1,
        center.layer as int,
        hide,
        entry,
    );
}

} // verus!
