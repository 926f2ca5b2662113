//! A terminal snake game core: the grid, the snake, the per-tick rules,
//! food placement and dirty-cell rendering, with their contracts proved.
mod cell;
mod chance;
mod game;
mod grid;
mod heading;
mod render;

pub use cell::{Cell, CellType, Look, Tint};
pub use grid::{empties_below, lemma_cell_coords, shaped};
pub use game::{Game, GameOver, InitError, TickOutcome, MIN_HEIGHT, MIN_WIDTH, TICK_MILLIS};
pub use heading::{direction_for_key, Direction};
