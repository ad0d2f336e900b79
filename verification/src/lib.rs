//! Board-state engine of a tile-matching puzzle: a fixed-size grid of tile
//! references, a registry of tiles, match detection over the marked tiles and
//! a one-row-per-pass gravity sweep.

pub mod attribute;
pub mod board;
pub mod cursor;
pub mod cycle;
pub mod gravity;
pub mod matching;
pub mod position;
pub mod storage;
pub mod tiles;
