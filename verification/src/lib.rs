//! A verified Conway's Game of Life engine on a fixed-size toroidal grid.
//!
//! A `Universe` owns two bit-packed buffers of `width * height` cells and a
//! selector saying which buffer holds the live generation.  `tick` reads the
//! active buffer, writes the next generation into the scratch buffer, and
//! flips the selector; `cells` exposes the active buffer as packed 32-bit
//! words.  The packed storage is `fixedbitset::FixedBitSet`, kept behind a
//! small trusted layer in `bits`; everything on top of that layer is verified.

mod bits;
mod rules;
mod universe;

pub use bits::{word_bit, words_for};
pub use rules::{
    cell_at, east_of, init_cell, init_grid, lemma_corner_wraparound, lemma_flat_in_range,
    lemma_neighbors_in_bounds, neighbor_count, next_cell, north_of, occupancy, south_of, step,
    west_of,
};
pub use universe::{lemma_new_deterministic, lemma_tick_deterministic, Universe};
