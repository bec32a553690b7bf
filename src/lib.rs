//! A Game of Life engine on a fixed, non-wrapping rectangular grid.
//!
//! `model` holds the mathematical view of a generation, `grid` the
//! executable engine, and `laws` the general facts proved about it.

mod grid;
mod laws;
mod model;

pub use grid::{GridError, World};
pub use laws::{
    in_block, in_column_bar, in_row_bar, lemma_blinker_period_two, lemma_block_still_life,
    lemma_column_bar_turns, lemma_dense_determined, lemma_neighbor_bounds, lemma_row_bar_turns,
    lemma_step_deterministic,
};
pub use model::{next_state, row_major_before, row_major_sorted, GridView};
