//! Places on the map: cells, their blocks and their neighbours.

use vstd::prelude::*;
use vstd::string::StringExecFns;

use crate::error::{AppError, ErrorModel, Result};
use crate::l2j::block::{Direction, BLOCKS_PER_AXIS, MAP_CELLS};
use crate::text;
use crate::text::push_decimal;

verus! {

/// Whether a cell lies on the map.
pub open spec fn on_map(x: int, y: int) -> bool {
    0 <= x < 2_048 && 0 <= y < 2_048
}

/// Whether a block lies on the map.
pub open spec fn block_on_map(x: int, y: int) -> bool {
    0 <= x < 256 && 0 <= y < 256
}

/// Blocks are numbered down the columns of the map.
pub open spec fn block_number(x: int, y: int) -> int {
    y + x * 256
}

/// The number of the block that holds a cell.
pub open spec fn block_of(x: int, y: int) -> int {
    block_number(x / 8, y / 8)
}

/// The column of a cell in its block.
pub open spec fn column_of(x: int, y: int) -> int {
    y % 8 + (x % 8) * 8
}

/// The cell next to another one, where the map has it.
pub open spec fn next_cell(x: int, y: int, direction: Direction) -> Option<(int, int)> {
    let nx = x + direction.delta().0;
    let ny = y + direction.delta().1;
    if on_map(nx, ny) {
        Some((nx, ny))
    } else {
        None
    }
}

pub open spec fn no_such_block(x: int, y: int) -> ErrorModel {
    ErrorModel::InvalidArgument(
        "invalid L2J block "@ + text::decimal(x as nat) + ","@ + text::decimal(y as nat),
    )
}

/// Every cell has a block and a column.
pub proof fn lemma_location(x: int, y: int)
    requires
        on_map(x, y),
    ensures
        0 <= block_of(x, y) < 65_536,
        0 <= column_of(x, y) < 64,
{
}

/// Different cells differ in block or column.
pub proof fn lemma_location_is_unique(x: int, y: int, u: int, v: int)
    requires
        on_map(x, y),
        on_map(u, v),
        block_of(x, y) == block_of(u, v),
        column_of(x, y) == column_of(u, v),
    ensures
        x == u,
        y == v,
{
}

/// The number of a block, where the map has it.
pub fn block_index(x: usize, y: usize) -> (index: Option<usize>)
    ensures
        match index {
            Some(index) => block_on_map(x as int, y as int) && index == block_number(
                x as int,
                y as int,
            ) && index < 65_536,
            None => !block_on_map(x as int, y as int),
        },
{
    if x < BLOCKS_PER_AXIS && y < BLOCKS_PER_AXIS {
        Some(y + x * BLOCKS_PER_AXIS)
    } else {
        None
    }
}

/// The number of a block, or an error that names it.
pub fn checked_block_index(x: usize, y: usize) -> (result: Result<usize>)
    ensures
        match result {
            Ok(index) => block_on_map(x as int, y as int) && index == block_number(
                x as int,
                y as int,
            ) && index < 65_536,
            Err(error) => !block_on_map(x as int, y as int) && error@ == no_such_block(
                x as int,
                y as int,
            ),
        },
{
    match block_index(x, y) {
        Some(index) => Ok(index),
        None => {
            let mut message = "invalid L2J block ".to_owned();
            push_decimal(&mut message, x as u64);
            message.append(",");
            push_decimal(&mut message, y as u64);
            Err(AppError::InvalidArgument(message))
        },
    }
}

/// The block and the column of a cell, where the map has it.
pub fn cell_location(x: usize, y: usize) -> (location: Option<(usize, usize)>)
    ensures
        match location {
            Some((block, column)) => {
                &&& on_map(x as int, y as int)
                &&& block == block_of(x as int, y as int)
                &&& column == column_of(x as int, y as int)
                &&& block < 65_536
                &&& column < 64
            },
            None => !on_map(x as int, y as int),
        },
{
    if x >= MAP_CELLS || y >= MAP_CELLS {
        return None;
    }
    Some((y / 8 + (x / 8) * BLOCKS_PER_AXIS, y % 8 + (x % 8) * 8))
}

/// The cell next to another one, where the map has it.
pub fn neighbour(x: usize, y: usize, direction: Direction) -> (cell: Option<(usize, usize)>)
    requires
        on_map(x as int, y as int),
    ensures
        match cell {
            Some((nx, ny)) => next_cell(x as int, y as int, direction) == Some(
                (nx as int, ny as int),
            ) && on_map(nx as int, ny as int),
            None => next_cell(x as int, y as int, direction) is None,
        },
{
    match direction {
        Direction::North => if y > 0 {
            Some((x, y - 1))
        } else {
            None
        },
        Direction::South => if y + 1 < MAP_CELLS {
            Some((x, y + 1))
        } else {
            None
        },
        Direction::West => if x > 0 {
            Some((x - 1, y))
        } else {
            None
        },
        Direction::East => if x + 1 < MAP_CELLS {
            Some((x + 1, y))
        } else {
            None
        },
    }
}

} // verus!
