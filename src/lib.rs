//! Incremental A* search over a bounded rectangular grid of at most
//! `PATH_FINDER_MAX_CELLS` cells, with 4-connected moves of uniform cost.
//!
//! The state block (`PathFinder`) is owned by the caller. Passability is
//! filled by a callback, the search is driven one expansion at a time with
//! `path_finder_find_step` or run to completion with `path_finder_find`, and
//! the result is read back through the query accessors.

pub mod grid;
pub mod laws;
pub mod model;
pub mod optimal;
pub mod progress;
pub mod replay;
pub mod search;

pub use grid::{
    Cell, CellMut, CellRef, PathFinder, PathFinderView, CLOSED, EXTRA_SCORE_LIMIT, G_SCORE_LIMIT,
    OPEN, PASSABLE, PATH, PATH_FINDER_MAX_CELLS,
};
pub use search::{
    path_finder_begin, path_finder_clear_path, path_finder_fill, path_finder_find,
    path_finder_find_step, path_finder_get_heuristic_score, path_finder_heuristic,
    path_finder_initialize, path_finder_is_closed, path_finder_is_end, path_finder_is_open,
    path_finder_is_passable, path_finder_is_path, path_finder_is_start,
    path_finder_lowest_in_open_set, path_finder_open_set_is_empty, path_finder_reconstruct_path,
    path_finder_set_end, path_finder_set_start,
};
