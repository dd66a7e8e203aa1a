//! Straight lines over the cell grid.

use vstd::prelude::*;

use crate::l2j::block::LayerAddress;
use crate::l2j::document::{Document, DocumentModel};
use crate::l2j::{document, grid};
use crate::selection;

verus! {

pub open spec fn span(a: int, b: int) -> int {
    if a <= b {
        b - a
    } else {
        a - b
    }
}

/// The number of steps of a line: the larger of its two extents.
pub open spec fn steps(start: LayerAddress, end: LayerAddress) -> int {
    let width = span(start.x as int, end.x as int);
    let height = span(start.y as int, end.y as int);
    if width >= height {
        width
    } else {
        height
    }
}

/// How far a line has come along an axis after some of its steps: the share of
/// the extent, rounded to the nearest cell, halves up.
pub open spec fn progress(extent: int, step: int, steps: int) -> int {
    if steps == 0 {
        0
    } else {
        (2 * extent * step + steps) / (2 * steps)
    }
}

/// The coordinate that lies some cells from one end towards the other.
pub open spec fn toward(from: int, to: int, distance: int) -> int {
    if from <= to {
        from + distance
    } else {
        from - distance
    }
}

/// One cell of a line.
pub open spec fn line_cell(start: LayerAddress, end: LayerAddress, step: int) -> (usize, usize) {
    let n = steps(start, end);
    let width = span(start.x as int, end.x as int);
    let height = span(start.y as int, end.y as int);
    (
        toward(start.x as int, end.x as int, progress(width, step, n)) as usize,
        toward(start.y as int, end.y as int, progress(height, step, n)) as usize,
    )
}

/// The cells of a line, both ends among them.
pub open spec fn line_cells(start: LayerAddress, end: LayerAddress) -> Seq<(usize, usize)> {
    Seq::new((steps(start, end) + 1) as nat, |k: int| line_cell(start, end, k))
}

/// Progress by its bounds.
pub proof fn lemma_progress(extent: int, step: int, steps: int, distance: int)
    requires
        steps > 0,
        2 * steps * distance <= 2 * extent * step + steps,
        2 * extent * step + steps < 2 * steps * distance + 2 * steps,
    ensures
        progress(extent, step, steps) == distance,
{
    let total = 2 * extent * step + steps;
    let quotient = total / (2 * steps);
    vstd::arithmetic::div_mod::lemma_fundamental_div_mod(total, 2 * steps);
    assert(0 <= total % (2 * steps) < 2 * steps);
    assert(quotient == distance) by (nonlinear_arith)
        requires
            steps > 0,
            total == (2 * steps) * quotient + total % (2 * steps),
            0 <= total % (2 * steps) < 2 * steps,
            2 * steps * distance <= total,
            total < 2 * steps * distance + 2 * steps,
    ;
}

/// The bounds of progress.
pub proof fn lemma_progress_bounds(extent: int, step: int, steps: int)
    requires
        steps > 0,
    ensures
        2 * steps * progress(extent, step, steps) <= 2 * extent * step + steps,
        2 * extent * step + steps < 2 * steps * progress(extent, step, steps) + 2 * steps,
{
    let total = 2 * extent * step + steps;
    vstd::arithmetic::div_mod::lemma_fundamental_div_mod(total, 2 * steps);
    assert(0 <= total % (2 * steps) < 2 * steps);
}

/// A line starts at its first end and comes to its last.
pub proof fn lemma_ends(extent: int, steps: int)
    requires
        0 <= extent <= steps,
    ensures
        progress(extent, 0, steps) == 0,
        progress(extent, steps, steps) == extent,
{
    if steps > 0 {
        assert(2 * extent * 0 == 0) by (nonlinear_arith);
        assert(2 * steps * 0 == 0) by (nonlinear_arith);
        lemma_progress(extent, 0, steps, 0);
        assert(2 * extent * steps == 2 * steps * extent) by (nonlinear_arith);
        lemma_progress(extent, steps, steps, extent);
    }
}

/// One step moves by one cell or stays; along the larger extent it always moves.
pub proof fn lemma_step(extent: int, step: int, steps: int)
    requires
        0 <= extent <= steps,
        0 <= step < steps,
    ensures
        progress(extent, step, steps) <= progress(extent, step + 1, steps) <= progress(
            extent,
            step,
            steps,
        ) + 1,
        extent == steps ==> progress(extent, step, steps) == step,
        extent == steps ==> progress(extent, step + 1, steps) == step + 1,
        0 <= progress(extent, step, steps) <= extent,
        progress(extent, step + 1, steps) == progress(extent, step, steps) + 1 <==> 2 * steps * (
        progress(extent, step, steps) + 1) <= 2 * extent * (step + 1) + steps,
{
    let here = progress(extent, step, steps);
    let next = progress(extent, step + 1, steps);
    lemma_progress_bounds(extent, step, steps);
    lemma_progress_bounds(extent, step + 1, steps);
    assert(2 * extent * (step + 1) == 2 * extent * step + 2 * extent) by (nonlinear_arith);
    assert(here <= next <= here + 1) by (nonlinear_arith)
        requires
            steps > 0,
            0 <= extent <= steps,
            2 * steps * here <= 2 * extent * step + steps,
            2 * extent * step + steps < 2 * steps * here + 2 * steps,
            2 * steps * next <= 2 * extent * step + 2 * extent + steps,
            2 * extent * step + 2 * extent + steps < 2 * steps * next + 2 * steps,
    ;
    assert(0 <= here <= extent) by (nonlinear_arith)
        requires
            steps > 0,
            0 <= extent <= steps,
            0 <= step < steps,
            2 * steps * here <= 2 * extent * step + steps,
            2 * extent * step + steps < 2 * steps * here + 2 * steps,
    ;
    if extent == steps {
        assert(2 * steps * step == 2 * extent * step);
        lemma_progress(extent, step, steps, step);
        assert(2 * steps * (step + 1) == 2 * extent * (step + 1));
        lemma_progress(extent, step + 1, steps, step + 1);
    }
    assert(2 * steps * (here + 1) == 2 * steps * here + 2 * steps) by (nonlinear_arith);
    if 2 * steps * (here + 1) <= 2 * extent * (step + 1) + steps {
        assert(next == here + 1) by (nonlinear_arith)
            requires
                steps > 0,
                here <= next <= here + 1,
                2 * steps * (here + 1) <= 2 * extent * (step + 1) + steps,
                2 * extent * (step + 1) + steps < 2 * steps * next + 2 * steps,
        ;
    }
}

/// The error term of the walk tells which axes to step along.
proof fn lemma_decision(width: int, height: int, n: int, k: int, nx: int, ny: int, error: int)
    requires
        0 <= width <= n,
        0 <= height <= n,
        n == width || n == height,
        0 <= k < n,
        nx == progress(width, k, n),
        ny == progress(height, k, n),
        error == width * (1 + ny) - height * (1 + nx),
    ensures
        2 * error >= -height <==> progress(width, k + 1, n) == nx + 1,
        2 * error <= width <==> progress(height, k + 1, n) == ny + 1,
        -4 * n <= error <= 4 * n,
{
    lemma_step(width, k, n);
    lemma_step(height, k, n);
    lemma_progress_bounds(width, k, n);
    lemma_progress_bounds(height, k, n);
    if width == n {
        assert(2 * error > n - 2 * height) by (nonlinear_arith)
            requires
                nx == k,
                width == n,
                error == width * (1 + ny) - height * (1 + nx),
                2 * height * k + n < 2 * n * ny + 2 * n,
        ;
        assert(2 * error <= width <==> 2 * n * (ny + 1) <= 2 * height * (k + 1) + n) by (nonlinear_arith)
            requires
                nx == k,
                width == n,
                error == width * (1 + ny) - height * (1 + nx),
        ;
        assert(error <= 4 * n) by (nonlinear_arith)
            requires
                nx == k,
                width == n,
                n > 0,
                0 <= height <= n,
                0 <= k,
                error == width * (1 + ny) - height * (1 + nx),
                2 * n * ny <= 2 * height * k + n,
        ;
    } else {
        assert(2 * error < 2 * width - n) by (nonlinear_arith)
            requires
                ny == k,
                height == n,
                error == width * (1 + ny) - height * (1 + nx),
                2 * width * k + n < 2 * n * nx + 2 * n,
        ;
        assert(2 * error >= -height <==> 2 * n * (nx + 1) <= 2 * width * (k + 1) + n) by (nonlinear_arith)
            requires
                ny == k,
                height == n,
                error == width * (1 + ny) - height * (1 + nx),
        ;
        assert(error >= -4 * n) by (nonlinear_arith)
            requires
                ny == k,
                height == n,
                n > 0,
                0 <= width <= n,
                0 <= k,
                error == width * (1 + ny) - height * (1 + nx),
                2 * n * nx <= 2 * width * k + n,
        ;
    }
}

/// The cells between two ends, found by stepping along the axis that is behind.
pub fn rasterized_line(start: LayerAddress, end: LayerAddress) -> (cells: Vec<(usize, usize)>)
    ensures
        cells@ == line_cells(start, end),
{
    let ghost n = steps(start, end);
    let ghost width = span(start.x as int, end.x as int);
    let ghost height = span(start.y as int, end.y as int);
    let delta_x: i128 = if start.x <= end.x {
        end.x as i128 - start.x as i128
    } else {
        start.x as i128 - end.x as i128
    };
    let delta_y: i128 = if start.y <= end.y {
        end.y as i128 - start.y as i128
    } else {
        start.y as i128 - end.y as i128
    };
    let mut x: usize = start.x;
    let mut y: usize = start.y;
    let mut error: i128 = delta_x - delta_y;
    let mut cells: Vec<(usize, usize)> = Vec::new();
    let ghost mut k: int = 0;
    proof {
        lemma_ends(width, n);
        lemma_ends(height, n);
        assert(width * (1 + 0) == width && height * (1 + 0) == height) by (nonlinear_arith);
    }
    while x != end.x || y != end.y
        invariant
            n == steps(start, end),
            width == span(start.x as int, end.x as int),
            height == span(start.y as int, end.y as int),
            delta_x == width,
            delta_y == height,
            0 <= k <= n,
            n <= usize::MAX,
            x == toward(start.x as int, end.x as int, progress(width, k, n)),
            y == toward(start.y as int, end.y as int, progress(height, k, n)),
            0 <= progress(width, k, n) <= width,
            0 <= progress(height, k, n) <= height,
            error == width * (1 + progress(height, k, n)) - height * (1 + progress(width, k, n)),
            cells@.len() == k,
            forall|i: int| 0 <= i < k ==> #[trigger] cells@[i] == line_cell(start, end, i),
        decreases n - k,
    {
        let ghost nx = progress(width, k, n);
        let ghost ny = progress(height, k, n);
        proof {
            if k == n {
                lemma_ends(width, n);
                lemma_ends(height, n);
            }
            lemma_decision(width, height, n, k, nx, ny, error as int);
            lemma_step(width, k, n);
            lemma_step(height, k, n);
            if k + 1 == n {
                lemma_ends(width, n);
                lemma_ends(height, n);
            } else {
                lemma_step(width, k + 1, n);
                lemma_step(height, k + 1, n);
            }
        }
        cells.push((x, y));
        let doubled: i128 = error * 2;
        let step_x = doubled >= -delta_y;
        let step_y = doubled <= delta_x;
        if step_x {
            error = error - delta_y;
            x = if start.x <= end.x {
                x + 1
            } else {
                x - 1
            };
        }
        if step_y {
            error = error + delta_x;
            y = if start.y <= end.y {
                y + 1
            } else {
                y - 1
            };
        }
        proof {
            let mx = progress(width, k + 1, n);
            let my = progress(height, k + 1, n);
            assert(width * (1 + (ny + 1)) == width * (1 + ny) + width) by (nonlinear_arith);
            assert(height * (1 + (nx + 1)) == height * (1 + nx) + height) by (nonlinear_arith);
            k = k + 1;
        }
    }
    proof {
        lemma_arrived(start, end, k);
    }
    cells.push((x, y));
    assert(cells@ =~= line_cells(start, end));
    cells
}

/// A line is at its end after all of its steps and no sooner.
proof fn lemma_arrived(start: LayerAddress, end: LayerAddress, k: int)
    requires
        0 <= k <= steps(start, end),
        toward(
            start.x as int,
            end.x as int,
            progress(span(start.x as int, end.x as int), k, steps(start, end)),
        ) == end.x,
        toward(
            start.y as int,
            end.y as int,
            progress(span(start.y as int, end.y as int), k, steps(start, end)),
        ) == end.y,
    ensures
        k == steps(start, end),
{
    let n = steps(start, end);
    if k < n {
        lemma_step(span(start.x as int, end.x as int), k, n);
        lemma_step(span(start.y as int, end.y as int), k, n);
    }
}

/// A line joins its ends: it starts and ends there, and each cell touches the
/// one before it.
pub proof fn line_joins_its_ends(start: LayerAddress, end: LayerAddress, k: int)
    requires
        0 <= k < steps(start, end),
    ensures
        line_cells(start, end)[0] == (start.x, start.y),
        line_cells(start, end).last() == (end.x, end.y),
        span(line_cells(start, end)[k].0 as int, line_cells(start, end)[k + 1].0 as int) <= 1,
        span(line_cells(start, end)[k].1 as int, line_cells(start, end)[k + 1].1 as int) <= 1,
        line_cells(start, end)[k] != line_cells(start, end)[k + 1],
{
    let n = steps(start, end);
    let width = span(start.x as int, end.x as int);
    let height = span(start.y as int, end.y as int);
    lemma_ends(width, n);
    lemma_ends(height, n);
    lemma_step(width, k, n);
    lemma_step(height, k, n);
    if k + 1 < n {
        lemma_step(width, k + 1, n);
        lemma_step(height, k + 1, n);
    }
}

/// The layers picked from the first cells of a line: those that lie on the map.
pub open spec fn picked(
    model: DocumentModel,
    cells: Seq<(usize, usize)>,
    wanted: int,
    count: nat,
) -> Seq<LayerAddress>
    decreases count,
{
    if count == 0 {
        Seq::empty()
    } else {
        let before = picked(model, cells, wanted, (count - 1) as nat);
        let x = cells[count - 1].0 as int;
        let y = cells[count - 1].1 as int;
        if grid::on_map(x, y) {
            before.push(selection::address(x, y, selection::layer_in(model, x, y, wanted)))
        } else {
            before
        }
    }
}

/// The layers along a straight line, each as near to the last end's as its cell has.
pub fn straight_line_selection(
    document: &Document,
    start: LayerAddress,
    end: LayerAddress,
) -> (selection: Vec<LayerAddress>)
    requires
        document.well_formed(),
    ensures
        selection@ == picked(
            document@,
            line_cells(start, end),
            end.layer as int,
            line_cells(start, end).len(),
        ),
{
    let cells = rasterized_line(start, end);
    let mut selection: Vec<LayerAddress> = Vec::new();
    let mut next: usize = 0;
    while next < cells.len()
        invariant
            next <= cells.len(),
            document.well_formed(),
            selection@ == picked(document@, cells@, end.layer as int, next as nat),
        decreases cells.len() - next,
    {
        let (x, y) = cells[next];
        if let Some(count) = document.layer_count(x, y) {
            proof {
                document::lemma_column(document@, x as int, y as int);
            }
            let layer: usize = if end.layer < count {
                end.layer
            } else {
                count - 1
            };
            selection.push(LayerAddress::new(x, y, layer));
        }
        next += 1;
    }
    selection
}

} // verus!
