//! Which cells brushes, blocks, lines and clicks take, told by their place.

use vstd::prelude::*;

use crate::l2j::block::{Layer, LayerAddress};
use crate::l2j::document::DocumentModel;
use crate::l2j::{document, grid};
use crate::line;
use crate::selection;
use crate::selection::BrushAnchor;
use crate::selection_laws;

verus! {

/// A range of cells of one axis with a size from 1 to 256, on the map.
pub open spec fn is_range(range: (int, int), size: int) -> bool {
    &&& 0 <= range.0
    &&& range.1 <= 2_048
    &&& range.1 - range.0 == if size < 1 {
        1
    } else if size > 256 {
        256
    } else {
        size
    }
}

/// A range that starts with a cell; at the far edge of the map, the last one.
pub open spec fn starts_at(range: (int, int), cell: int) -> bool {
    range.0 == cell || (range.0 < cell && range.1 == 2_048)
}

/// A range that ends with a cell; at the near edge of the map, the first one.
pub open spec fn ends_at(range: (int, int), cell: int) -> bool {
    range.1 == cell + 1 || (range.1 > cell + 1 && range.0 == 0)
}

/// A range with as many cells before a cell as from it on, or one more; at the
/// edges of the map the first or the last one.
pub open spec fn surrounds(range: (int, int), cell: int) -> bool {
    ||| 0 <= (cell - range.0) - (range.1 - cell) + 1 <= 1
    ||| (range.0 == 0 && (cell - range.0) - (range.1 - cell) + 1 < 0)
    ||| (range.1 == 2_048 && (cell - range.0) - (range.1 - cell) + 1 > 1)
}

/// A brush takes as many columns and rows as asked for, from 1 to 256, and places
/// them by its anchor: to the right and up from the click, around it, or to the
/// left and up. At the edges the area moves back onto the map.
pub proof fn brushes_have_their_size_and_place(center: LayerAddress, width: int, height: int)
    requires
        center.x < 2_048,
        center.y < 2_048,
    ensures
        ({
            let (columns, rows) = selection::brush_bounds(
                center,
                width,
                height,
                BrushAnchor::Left,
            );
            &&& is_range(columns, width) && is_range(rows, height)
            &&& starts_at(columns, center.x as int)
            &&& ends_at(rows, center.y as int)
        }),
        ({
            let (columns, rows) = selection::brush_bounds(
                center,
                width,
                height,
                BrushAnchor::Center,
            );
            &&& is_range(columns, width) && is_range(rows, height)
            &&& surrounds(columns, center.x as int)
            &&& surrounds(rows, center.y as int)
        }),
        ({
            let (columns, rows) = selection::brush_bounds(
                center,
                width,
                height,
                BrushAnchor::Right,
            );
            &&& is_range(columns, width) && is_range(rows, height)
            &&& ends_at(columns, center.x as int)
            &&& ends_at(rows, center.y as int)
        }),
{
}

/// The layer that stands for a wanted one in a column: that one, or the highest
/// where the column has fewer.
pub open spec fn stands_for(column: Seq<Layer>, layer: int, wanted: int) -> bool {
    if wanted < column.len() {
        layer == wanted
    } else {
        layer == column.len() - 1
    }
}

/// A brush takes of each cell in its area the wanted layer, or the highest where
/// there are fewer, unless that is a sentinel or open to all sides while open
/// ones are hidden. It takes nothing else.
pub proof fn brushes_take_one_layer_per_cell(
    model: DocumentModel,
    center: LayerAddress,
    width: int,
    height: int,
    anchor: BrushAnchor,
    hide: bool,
    a: LayerAddress,
)
    requires
        model.valid(),
        center.x < 2_048,
        center.y < 2_048,
    ensures
        ({
            let (columns, rows) = selection::brush_bounds(center, width, height, anchor);
            let column = model.column(a.x as int, a.y as int);
            selection::brushed(model, center, width, height, anchor, hide).contains(a) == (
            columns.0 <= a.x < columns.1 && rows.0 <= a.y < rows.1 && a.layer < column.len()
                && stands_for(column, a.layer as int, center.layer as int)
                && column[a.layer as int].height != -16_384 && !(hide && column[a.layer as int].nswe
                & 15 == 15))
        }),
{
    selection_laws::brush_picks_its_area(model, center, width, height, anchor, hide, a);
    selection_laws::brush_area_holds_the_click(center, width, height, anchor);
    let (columns, rows) = selection::brush_bounds(center, width, height, anchor);
    let x = a.x as int;
    let y = a.y as int;
    if columns.0 <= x < columns.1 && rows.0 <= y < rows.1 {
        document::lemma_column(model, x, y);
        let layer = selection::layer_in(model, x, y, center.layer as int);
        let found = selection::brush_cell(model, x, y, center.layer as int, hide);
        if found == seq![a] {
            assert(found[0] == a);
        }
        assert(0 <= layer < model.column(x, y).len());
        if a.layer == layer {
            assert(selection::address(x, y, layer) == a);
        }
    }
}

/// Cells row by row, each row from the left.
pub open spec fn goes_by_rows(cells: Seq<LayerAddress>) -> bool {
    forall|i: int, j: int|
        0 <= i < j < cells.len() ==> (#[trigger] cells[i]).y < (#[trigger] cells[j]).y || (
        cells[i].y == cells[j].y && cells[i].x < cells[j].x)
}

proof fn lemma_row_order(
    model: DocumentModel,
    y: int,
    start_x: int,
    end_x: int,
    wanted: int,
    hide: bool,
)
    requires
        0 <= start_x,
        end_x <= 2_048,
        0 <= y < 2_048,
    ensures
        goes_by_rows(selection::brush_row(model, y, start_x, end_x, wanted, hide)),
        forall|i: int|
            0 <= i < selection::brush_row(model, y, start_x, end_x, wanted, hide).len() ==> (
            #[trigger] selection::brush_row(model, y, start_x, end_x, wanted, hide)[i]).y == y
                && selection::brush_row(model, y, start_x, end_x, wanted, hide)[i].x < end_x,
    decreases end_x - start_x,
{
    if start_x < end_x {
        lemma_row_order(model, y, start_x, end_x - 1, wanted, hide);
    }
}

proof fn lemma_rows_order(
    model: DocumentModel,
    start_x: int,
    end_x: int,
    start_y: int,
    end_y: int,
    wanted: int,
    hide: bool,
)
    requires
        0 <= start_x,
        end_x <= 2_048,
        0 <= start_y,
        end_y <= 2_048,
    ensures
        goes_by_rows(
            selection::brush_rows(model, start_x, end_x, start_y, end_y, wanted, hide),
        ),
        forall|i: int|
            0 <= i < selection::brush_rows(
                model,
                start_x,
                end_x,
                start_y,
                end_y,
                wanted,
                hide,
            ).len() ==> (#[trigger] selection::brush_rows(
                model,
                start_x,
                end_x,
                start_y,
                end_y,
                wanted,
                hide,
            )[i]).y < end_y,
    decreases end_y - start_y,
{
    if start_y < end_y {
        lemma_rows_order(model, start_x, end_x, start_y, end_y - 1, wanted, hide);
        lemma_row_order(model, end_y - 1, start_x, end_x, wanted, hide);
    }
}

/// A brush takes cells row by row, each of them once.
pub proof fn brushes_go_by_rows(
    model: DocumentModel,
    center: LayerAddress,
    width: int,
    height: int,
    anchor: BrushAnchor,
    hide: bool,
)
    requires
        center.x < 2_048,
        center.y < 2_048,
    ensures
        goes_by_rows(selection::brushed(model, center, width, height, anchor, hide)),
{
    selection_laws::brush_area_holds_the_click(center, width, height, anchor);
    let (columns, rows) = selection::brush_bounds(center, width, height, anchor);
    lemma_rows_order(
        model,
        columns.0,
        columns.1,
        rows.0,
        rows.1,
        center.layer as int,
        hide,
    );
}

proof fn lemma_block(
    model: DocumentModel,
    start_x: int,
    start_y: int,
    layer: int,
    count: nat,
    a: LayerAddress,
)
    requires
        0 <= start_x <= 2_040,
        0 <= start_y <= 2_040,
        0 <= layer <= usize::MAX,
        count <= 64,
    ensures
        selection::block_cells(model, start_x, start_y, layer, count).contains(a) == (start_x
            <= a.x < start_x + 8 && start_y <= a.y < start_y + 8 && (a.x - start_x) * 8 + (a.y
            - start_y) < count && a.layer == layer && layer < model.column(
            a.x as int,
            a.y as int,
        ).len()),
        forall|i: int|
            0 <= i < selection::block_cells(model, start_x, start_y, layer, count).len() ==> (
            (#[trigger] selection::block_cells(model, start_x, start_y, layer, count)[i]).x
                - start_x) * 8 + (selection::block_cells(
                model,
                start_x,
                start_y,
                layer,
                count,
            )[i].y - start_y) < count,
        forall|i: int, j: int|
            0 <= i < j < selection::block_cells(model, start_x, start_y, layer, count).len() ==> (
            (#[trigger] selection::block_cells(model, start_x, start_y, layer, count)[i]).x
                - start_x) * 8 + (selection::block_cells(
                model,
                start_x,
                start_y,
                layer,
                count,
            )[i].y - start_y) < ((#[trigger] selection::block_cells(
                model,
                start_x,
                start_y,
                layer,
                count,
            )[j]).x - start_x) * 8 + (selection::block_cells(
                model,
                start_x,
                start_y,
                layer,
                count,
            )[j].y - start_y),
    decreases count,
{
    if count > 0 {
        let fewer = (count - 1) as nat;
        lemma_block(model, start_x, start_y, layer, fewer, a);
        let before = selection::block_cells(model, start_x, start_y, layer, fewer);
        let whole = selection::block_cells(model, start_x, start_y, layer, count);
        let x = start_x + (count - 1) / 8;
        let y = start_y + (count - 1) % 8;
        let last = selection::address(x, y, layer);
        assert(last.x == x && last.y == y && last.layer == layer);
        assert((x - start_x) * 8 + (y - start_y) == fewer);
        if model.cell(x, y, layer) is Some {
            assert(whole == before.push(last));
            assert(whole[before.len() as int] == last);
            if before.contains(a) {
                let i = choose|i: int| 0 <= i < before.len() && before[i] == a;
                assert(whole[i] == a);
            }
            if whole.contains(a) && !before.contains(a) {
                let i = choose|i: int| 0 <= i < whole.len() && whole[i] == a;
                if i < before.len() {
                    assert(before[i] == a);
                }
                assert(a == last);
            }
        }
        if start_x <= a.x < start_x + 8 && start_y <= a.y < start_y + 8 && (a.x - start_x) * 8 + (
        a.y - start_y) == fewer {
            assert(a.x == x && a.y == y);
            if a.layer == layer {
                assert(a == last);
            }
        }
    }
}

/// A block is taken cell by cell: every cell of its eight columns and rows that
/// has the wanted layer, once, column after column.
pub proof fn blocks_are_taken_whole(
    model: DocumentModel,
    block_x: int,
    block_y: int,
    layer: int,
    a: LayerAddress,
)
    requires
        0 <= block_x < 256,
        0 <= block_y < 256,
        0 <= layer <= usize::MAX,
    ensures
        ({
            let taken = selection::block_cells(model, 8 * block_x, 8 * block_y, layer, 64);
            &&& taken.contains(a) == (8 * block_x <= a.x < 8 * block_x + 8 && 8 * block_y <= a.y < 8
                * block_y + 8 && a.layer == layer && layer < model.column(
                a.x as int,
                a.y as int,
            ).len())
            &&& forall|i: int, j: int|
                0 <= i < j < taken.len() ==> 8 * (#[trigger] taken[i]).x + taken[i].y < 8 * (
                #[trigger] taken[j]).x + taken[j].y
        }),
{
    lemma_block(model, 8 * block_x, 8 * block_y, layer, 64, a);
    let taken = selection::block_cells(model, 8 * block_x, 8 * block_y, layer, 64);
    if 8 * block_x <= a.x < 8 * block_x + 8 && 8 * block_y <= a.y < 8 * block_y + 8 {
        assert((a.x - 8 * block_x) * 8 + (a.y - 8 * block_y) < 64);
    }
    assert forall|i: int, j: int| 0 <= i < j < taken.len() implies 8 * (#[trigger] taken[i]).x
        + taken[i].y < 8 * (#[trigger] taken[j]).x + taken[j].y by {
        assert((taken[i].x - 8 * block_x) * 8 + (taken[i].y - 8 * block_y) < (taken[j].x - 8
            * block_x) * 8 + (taken[j].y - 8 * block_y));
    }
}

/// How far a line has gone along an axis.
pub open spec fn gone(from: int, to: int, now: int) -> int {
    if from <= to {
        now - from
    } else {
        from - now
    }
}

/// A line has one cell for each step along its longer side. Every cell lies
/// within half a cell of the straight line between the ends; in the middle
/// between two it takes the one farther on.
pub proof fn lines_are_straight(start: LayerAddress, end: LayerAddress, k: int)
    requires
        start.x < 2_048,
        start.y < 2_048,
        end.x < 2_048,
        end.y < 2_048,
        0 <= k < line::line_cells(start, end).len(),
    ensures
        ({
            let cells = line::line_cells(start, end);
            let n = cells.len() - 1;
            let width = gone(start.x as int, end.x as int, end.x as int);
            let height = gone(start.y as int, end.y as int, end.y as int);
            let x = gone(start.x as int, end.x as int, cells[k].0 as int);
            let y = gone(start.y as int, end.y as int, cells[k].1 as int);
            &&& n == width || n == height
            &&& n >= width && n >= height
            &&& 2 * (n * x) - 2 * (k * width) <= n
            &&& 2 * (k * width) - 2 * (n * x) < n || n == 0
            &&& 2 * (n * y) - 2 * (k * height) <= n
            &&& 2 * (k * height) - 2 * (n * y) < n || n == 0
        }),
{
    let cells = line::line_cells(start, end);
    let n = line::steps(start, end);
    let width = line::span(start.x as int, end.x as int);
    let height = line::span(start.y as int, end.y as int);
    assert(cells[k] == line::line_cell(start, end, k));
    lemma_progress(width, k, n);
    lemma_progress(height, k, n);
}

proof fn lemma_progress(extent: int, k: int, n: int)
    requires
        0 <= extent <= n,
        0 <= k <= n,
    ensures
        0 <= line::progress(extent, k, n) <= extent,
        2 * (n * line::progress(extent, k, n)) - 2 * (k * extent) <= n,
        2 * (k * extent) - 2 * (n * line::progress(extent, k, n)) < n || n == 0,
{
    if n > 0 {
        let p = line::progress(extent, k, n);
        line::lemma_progress_bounds(extent, k, n);
        assert(2 * n * p == 2 * (n * p)) by (nonlinear_arith);
        assert(2 * extent * k == 2 * (k * extent)) by (nonlinear_arith);
        if k < n {
            line::lemma_step(extent, k, n);
        } else {
            line::lemma_ends(extent, n);
        }
    }
}

proof fn lemma_picked(model: DocumentModel, cells: Seq<(usize, usize)>, wanted: int, count: nat)
    requires
        count <= cells.len(),
        forall|i: int|
            0 <= i < cells.len() ==> (#[trigger] cells[i]).0 < 2_048 && cells[i].1 < 2_048,
    ensures
        line::picked(model, cells, wanted, count).len() == count,
        forall|i: int|
            0 <= i < count ==> #[trigger] line::picked(model, cells, wanted, count)[i]
                == selection::address(
                cells[i].0 as int,
                cells[i].1 as int,
                selection::layer_in(model, cells[i].0 as int, cells[i].1 as int, wanted),
            ),
    decreases count,
{
    if count > 0 {
        lemma_picked(model, cells, wanted, (count - 1) as nat);
        assert(cells[count - 1].0 < 2_048);
    }
}

/// A straight selection takes of every cell of the line the layer of the last
/// end, or the highest where the cell has fewer.
pub proof fn lines_take_one_layer_per_cell(
    model: DocumentModel,
    start: LayerAddress,
    end: LayerAddress,
    k: int,
)
    requires
        model.valid(),
        start.x < 2_048,
        start.y < 2_048,
        end.x < 2_048,
        end.y < 2_048,
        0 <= k < line::line_cells(start, end).len(),
        forall|x: int, y: int|
            grid::on_map(x, y) ==> (#[trigger] model.column(x, y)).len() <= usize::MAX,
    ensures
        ({
            let cells = line::line_cells(start, end);
            let taken = line::picked(model, cells, end.layer as int, cells.len());
            &&& taken.len() == cells.len()
            &&& taken[k].x == cells[k].0
            &&& taken[k].y == cells[k].1
            &&& stands_for(
                model.column(taken[k].x as int, taken[k].y as int),
                taken[k].layer as int,
                end.layer as int,
            )
        }),
{
    let cells = line::line_cells(start, end);
    assert forall|i: int| 0 <= i < cells.len() implies (#[trigger] cells[i]).0 < 2_048
        && cells[i].1 < 2_048 by {
        let n = line::steps(start, end);
        lemma_progress(line::span(start.x as int, end.x as int), i, n);
        lemma_progress(line::span(start.y as int, end.y as int), i, n);
    }
    lemma_picked(model, cells, end.layer as int, cells.len());
    assert(cells[k].0 < 2_048 && cells[k].1 < 2_048);
    document::lemma_column(model, cells[k].0 as int, cells[k].1 as int);
    assert(model.column(cells[k].0 as int, cells[k].1 as int).len() <= usize::MAX);
}

/// A click can hit a layer exactly if it is no sentinel, is the wanted one where
/// one is wanted, and is not open to all sides while open ones are hidden. The
/// layers come with their heights, from the first on.
pub proof fn clicks_hit_layers(
    column: Seq<Layer>,
    wanted: Option<usize>,
    hide: bool,
    count: nat,
    hit: (usize, i16),
)
    requires
        count <= column.len() <= usize::MAX,
    ensures
        selection::pickable(column, wanted, hide, count).contains(hit) == (hit.0 < count
            && column[hit.0 as int].height == hit.1 && hit.1 != -16_384 && (wanted is Some
            ==> wanted->0 == hit.0) && !(hide && column[hit.0 as int].nswe & 15 == 15)),
        forall|i: int, j: int|
            0 <= i < j < selection::pickable(column, wanted, hide, count).len() ==> (
            #[trigger] selection::pickable(column, wanted, hide, count)[i]).0 < (
            #[trigger] selection::pickable(column, wanted, hide, count)[j]).0,
        forall|i: int|
            0 <= i < selection::pickable(column, wanted, hide, count).len() ==> (
            #[trigger] selection::pickable(column, wanted, hide, count)[i]).0 < count,
    decreases count,
{
    if count > 0 {
        let fewer = (count - 1) as nat;
        clicks_hit_layers(column, wanted, hide, fewer, hit);
        let before = selection::pickable(column, wanted, hide, fewer);
        let whole = selection::pickable(column, wanted, hide, count);
        let last = (fewer as usize, column[fewer as int].height);
        if selection::can_be_hit(column[fewer as int], fewer as int, wanted, hide) {
            assert(whole == before.push(last));
            assert(whole[before.len() as int] == last);
            if before.contains(hit) {
                let i = choose|i: int| 0 <= i < before.len() && before[i] == hit;
                assert(whole[i] == hit);
            }
            if whole.contains(hit) && !before.contains(hit) {
                let i = choose|i: int| 0 <= i < whole.len() && whole[i] == hit;
                if i < before.len() {
                    assert(before[i] == hit);
                }
                assert(hit == last);
            }
        }
    }
}

} // verus!
