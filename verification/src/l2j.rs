//! Lossless editable geodata documents.

pub mod block;
pub mod codec;
pub mod codec_laws;
pub mod document;
pub mod encode;
pub mod grid;
pub mod height_order;
pub mod round_trip;
pub mod storage;

pub use block::{
    Direction, EditableBlock, EditableBlockType, Layer, LayerAddress, BLOCKS_PER_AXIS, BLOCK_COUNT,
    CELLS_PER_BLOCK_AXIS, COLUMNS_PER_BLOCK, HEIGHT_STEP, MAP_CELLS, MAX_EDITABLE_HEIGHT,
    MAX_WALKABLE_CLIMB, MIN_EDITABLE_HEIGHT, NULL_HEIGHT,
};
pub use document::edits::{EditResult, HeightEditResult};
pub use document::export::{SavePlan, SaveSummary};
pub use document::Document;
