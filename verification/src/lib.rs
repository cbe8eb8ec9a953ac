//! Conway's Game of Life on a fixed-size rectangular grid.

mod cell;
mod grid;
mod text;

pub use cell::Cell;
pub use cell::State;
pub use grid::Dimensions;
pub use grid::Grid;
pub use grid::cols_of;
pub use grid::lemma_step_preserves_border;
pub use grid::neighbour_count;
pub use grid::next_state;
pub use grid::rect;
pub use grid::step;
pub use grid::step_cell;
pub use grid::step_from;
pub use text::cell_text;
pub use text::decimal_text;
pub use text::digit_text;
pub use text::grid_text;
pub use text::header_text;
pub use text::row_cells_text;
pub use text::row_text;
pub use text::rows_text;
