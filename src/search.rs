//! The search engine's operations on a `PathFinder`.

use vstd::prelude::*;

use crate::grid::{
    is_closed_flag, is_open_flag, is_passable_flag, is_path_flag, PathFinder, PathFinderView,
    CLOSED, G_SCORE_LIMIT, OPEN, PASSABLE, PATH, PATH_FINDER_MAX_CELLS,
};
use crate::replay::{begin_view, deterministic, find_run, lemma_step_fn, run, search_fuel};
use crate::optimal::{
    lemma_expanded_optimal, lemma_found_shortest, optimal_inv, reached, shortest, walk_to,
};
use crate::progress::{
    chain, chain_cells, connected, lemma_can_finish, lemma_chain_walk, lemma_continue_step,
    lemma_stop_step, lemma_walk_frame, lemma_weight_sum_bounds, measure, ready_to_search,
    frontier_inv,
    same_path_flags, search_frame, search_result, tree_ok,
};
use crate::model::{
    bottom_of, can_finish, expanded, lemma_relaxed_transfer, g_bounded, is_neighbor, lemma_clear_open,
    lemma_flag_tests, lemma_open_to_closed, lemma_set_closed, left_of, relaxed, right_of,
    same_cell, scorer_ok, step_cell, step_post, top_of,
    best_open, follow, lemma_best_open, lemma_clear_progress, lemma_on_route_bounded,
    lemma_route_avoids_end, lemma_set_open, lemma_set_passable, lemma_set_path, lowest_open,
    manhattan, marked_before, on_route, open_set_empty, reaches_start, route_marked,
};

verus! {

/// The view after `path_finder_clear_path`: progress flags, parents and
/// scores erased over the whole capacity, passability and configuration kept.
pub open spec fn cleared(v: PathFinderView) -> PathFinderView {
    PathFinderView {
        has_path: 0,
        state: Seq::new(v.state.len(), |i: int| v.state[i] & 0xf1u8),
        parents: Seq::new(v.parents.len(), |i: int| 0i32),
        g_score: Seq::new(v.g_score.len(), |i: int| 0i32),
        f_score: Seq::new(v.f_score.len(), |i: int| 0i32),
        ..v
    }
}

/// Manhattan distance from `cell` to the end cell, by row-major
/// decomposition of both indices.
pub fn path_finder_heuristic(path_finder: &PathFinder, cell: i32) -> (r: i32)
    requires
        path_finder@.arrays_ok(),
        0 <= cell < path_finder@.count(),
        0 <= path_finder.end < path_finder@.count(),
    ensures
        r == manhattan(path_finder@, cell as int),
        0 <= r < path_finder.cols + path_finder.rows,
{
    let cols = path_finder.cols;
    let end = path_finder.end;
    proof {
        let v = path_finder@;
        assert(v.cols >= 1) by (nonlinear_arith)
            requires
                0 <= cell < v.cols * v.rows,
                v.rows >= 0,
                v.cols >= 0,
        ;
        assert(0 <= cell / cols < v.rows) by (nonlinear_arith)
            requires
                0 <= cell < v.cols * v.rows,
                v.cols >= 1,
                cols == v.cols,
        ;
        assert(0 <= end / cols < v.rows) by (nonlinear_arith)
            requires
                0 <= end < v.cols * v.rows,
                v.cols >= 1,
                cols == v.cols,
        ;
        assert(cell - (cell / cols) * cols == cell % cols) by (nonlinear_arith)
            requires
                cols >= 1,
                cell >= 0,
        ;
        assert(end - (end / cols) * cols == end % cols) by (nonlinear_arith)
            requires
                cols >= 1,
                end >= 0,
        ;
    }
    let cell_y = cell / cols;
    let cell_x = cell - cell_y * cols;
    let end_y = end / cols;
    let end_x = end - end_y * cols;
    let dx = if cell_x > end_x {
        cell_x - end_x
    } else {
        end_x - cell_x
    };
    let dy = if cell_y > end_y {
        cell_y - end_y
    } else {
        end_y - cell_y
    };
    dx + dy
}

/// Number of cells in the active grid.
fn active_count(path_finder: &PathFinder) -> (r: usize)
    requires
        path_finder@.arrays_ok(),
    ensures
        r == path_finder@.count(),
        r <= PATH_FINDER_MAX_CELLS,
{
    proof {
        let v = path_finder@;
        assert(0 <= v.cols * v.rows) by (nonlinear_arith)
            requires
                0 <= v.cols,
                0 <= v.rows,
        ;
    }
    (path_finder.cols * path_finder.rows) as usize
}

/// 1 when no cell of the active grid is open, else 0.
pub fn path_finder_open_set_is_empty(path_finder: &PathFinder) -> (r: u8)
    requires
        path_finder@.arrays_ok(),
    ensures
        r == (if open_set_empty(path_finder@) {
            1u8
        } else {
            0u8
        }),
{
    let count = active_count(path_finder);
    let mut i: usize = 0;
    while i < count
        invariant
            count == path_finder@.count(),
            count <= PATH_FINDER_MAX_CELLS,
            path_finder@.arrays_ok(),
            i <= count,
            forall|j: int| 0 <= j < i ==> !is_open_flag(#[trigger] path_finder@.state[j]),
        decreases count - i,
    {
        if path_finder.state[i] & OPEN == OPEN {
            return 0;
        }
        i += 1;
    }
    1
}

/// The open cell of the active grid with the least f-score, the one with
/// the lowest index on ties; 0 when the open set is empty.
pub fn path_finder_lowest_in_open_set(path_finder: &PathFinder) -> (r: i32)
    requires
        path_finder@.arrays_ok(),
    ensures
        r == lowest_open(path_finder@),
{
    let count = active_count(path_finder);
    let mut best: i32 = -1;
    let mut i: usize = 0;
    while i < count
        invariant
            count == path_finder@.count(),
            count <= PATH_FINDER_MAX_CELLS,
            path_finder@.arrays_ok(),
            i <= count,
            best == best_open(path_finder@.state, path_finder@.f_score, i as int),
        decreases count - i,
    {
        proof {
            lemma_best_open(path_finder@.state, path_finder@.f_score, i as int);
        }
        if path_finder.state[i] & OPEN == OPEN && (best < 0 || path_finder.f_score[i]
            < path_finder.f_score[best as usize]) {
            best = i as i32;
        }
        i += 1;
    }
    if best < 0 {
        0
    } else {
        best
    }
}

/// Opens the start cell.
pub fn path_finder_begin(path_finder: &mut PathFinder)
    requires
        old(path_finder)@.arrays_ok(),
        0 <= old(path_finder).start < PATH_FINDER_MAX_CELLS,
    ensures
        final(path_finder)@ == (PathFinderView {
            state: old(path_finder)@.state.update(
                old(path_finder).start as int,
                old(path_finder)@.state[old(path_finder).start as int] | 0x2u8,
            ),
            ..old(path_finder)@
        }),
{
    let start = path_finder.start as usize;
    path_finder.state[start] = path_finder.state[start] | OPEN;
}

/// Erases the search progress: open, closed and path flags, parents and
/// scores over the whole capacity, and the result flag. Passability and
/// configuration are kept.
pub fn path_finder_clear_path(path_finder: &mut PathFinder)
    requires
        old(path_finder)@.arrays_ok(),
    ensures
        final(path_finder)@ == cleared(old(path_finder)@),
{
    let ghost v0 = path_finder@;
    let mut i: usize = 0;
    while i < PATH_FINDER_MAX_CELLS
        invariant
            0 <= i <= PATH_FINDER_MAX_CELLS,
            path_finder@.arrays_ok(),
            v0.arrays_ok(),
            path_finder@ == (PathFinderView {
                state: path_finder@.state,
                parents: path_finder@.parents,
                g_score: path_finder@.g_score,
                f_score: path_finder@.f_score,
                ..v0
            }),
            forall|j: int|
                0 <= j < i ==> #[trigger] path_finder@.state[j] == v0.state[j] & 0xf1u8,
            forall|j: int| i <= j < PATH_FINDER_MAX_CELLS ==> #[trigger] path_finder@.state[j] == v0.state[j],
            forall|j: int| 0 <= j < i ==> #[trigger] path_finder@.parents[j] == 0,
            forall|j: int| 0 <= j < i ==> #[trigger] path_finder@.g_score[j] == 0,
            forall|j: int| 0 <= j < i ==> #[trigger] path_finder@.f_score[j] == 0,
        decreases PATH_FINDER_MAX_CELLS - i,
    {
        proof {
            lemma_clear_progress(path_finder@.state[i as int]);
        }
        path_finder.state[i] = path_finder.state[i] & !(OPEN | CLOSED | PATH);
        path_finder.parents[i] = 0;
        path_finder.g_score[i] = 0;
        path_finder.f_score[i] = 0;
        i += 1;
    }
    path_finder.has_path = 0;
    assert(path_finder@.state =~= cleared(v0).state);
    assert(path_finder@.parents =~= cleared(v0).parents);
    assert(path_finder@.g_score =~= cleared(v0).g_score);
    assert(path_finder@.f_score =~= cleared(v0).f_score);
}

/// Resets the whole block: every cell passable with no other flag, parents
/// and scores zero, dimensions, start, end and result zero.
pub fn path_finder_initialize(path_finder: &mut PathFinder)
    requires
        old(path_finder)@.arrays_ok(),
    ensures
        final(path_finder)@.all_cells(0x1, 0, 0, 0),
        final(path_finder).cols == 0,
        final(path_finder).rows == 0,
        final(path_finder).start == 0,
        final(path_finder).end == 0,
        final(path_finder).has_path == 0,
{
    let mut i: usize = 0;
    while i < PATH_FINDER_MAX_CELLS
        invariant
            0 <= i <= PATH_FINDER_MAX_CELLS,
            path_finder@.arrays_ok(),
            forall|j: int| 0 <= j < i ==> #[trigger] path_finder@.state[j] == 0x1u8,
            forall|j: int| 0 <= j < i ==> #[trigger] path_finder@.parents[j] == 0,
            forall|j: int| 0 <= j < i ==> #[trigger] path_finder@.g_score[j] == 0,
            forall|j: int| 0 <= j < i ==> #[trigger] path_finder@.f_score[j] == 0,
        decreases PATH_FINDER_MAX_CELLS - i,
    {
        path_finder.parents[i] = 0;
        path_finder.g_score[i] = 0;
        path_finder.f_score[i] = 0;
        path_finder.state[i] = PASSABLE;
        i += 1;
    }
    path_finder.rows = 0;
    path_finder.cols = 0;
    path_finder.start = 0;
    path_finder.end = 0;
    path_finder.has_path = 0;
}

/// Sets or clears the passable flag of every active cell from
/// `fill_func(col, row)`, called once per cell in row-major order. Other
/// flags, and cells outside the active grid, are left as they were.
pub fn path_finder_fill<F: Fn(i32, i32) -> bool>(path_finder: &mut PathFinder, fill_func: F)
    requires
        old(path_finder)@.arrays_ok(),
        forall|col: i32, row: i32|
            0 <= col < old(path_finder).cols && 0 <= row < old(path_finder).rows
                ==> fill_func.requires((col, row)),
    ensures
        final(path_finder)@ == (PathFinderView { state: final(path_finder)@.state, ..old(path_finder)@ }),
        final(path_finder)@.state.len() == PATH_FINDER_MAX_CELLS,
        forall|i: int|
            0 <= i < old(path_finder)@.count() ==> {
                &&& fill_func.ensures(
                    ((i % old(path_finder).cols as int) as i32, (i / old(path_finder).cols as int) as i32),
                    is_passable_flag(#[trigger] final(path_finder)@.state[i]),
                )
                &&& final(path_finder)@.state[i] & 0xfeu8 == old(path_finder)@.state[i] & 0xfeu8
            },
        forall|i: int|
            old(path_finder)@.count() <= i < PATH_FINDER_MAX_CELLS ==> #[trigger] final(path_finder)@.state[i]
                == old(path_finder)@.state[i],
{
    let ghost v0 = path_finder@;
    let count = active_count(path_finder);
    let cols = path_finder.cols;
    let mut i: usize = 0;
    while i < count
        invariant
            count == v0.count(),
            count <= PATH_FINDER_MAX_CELLS,
            cols == v0.cols,
            0 <= i <= count,
            v0.arrays_ok(),
            forall|col: i32, row: i32|
                0 <= col < v0.cols && 0 <= row < v0.rows ==> fill_func.requires((col, row)),
            path_finder@ == (PathFinderView { state: path_finder@.state, ..v0 }),
            path_finder@.state.len() == PATH_FINDER_MAX_CELLS,
            forall|j: int|
                0 <= j < i ==> {
                    &&& fill_func.ensures(
                        ((j % cols as int) as i32, (j / cols as int) as i32),
                        is_passable_flag(#[trigger] path_finder@.state[j]),
                    )
                    &&& path_finder@.state[j] & 0xfeu8 == v0.state[j] & 0xfeu8
                },
            forall|j: int| i <= j < PATH_FINDER_MAX_CELLS ==> #[trigger] path_finder@.state[j] == v0.state[j],
        decreases count - i,
    {
        let ii = i as i32;
        proof {
            assert(cols >= 1) by (nonlinear_arith)
                requires
                    0 <= ii < v0.cols * v0.rows,
                    v0.rows >= 0,
                    cols == v0.cols,
            ;
            assert(0 <= ii / cols < v0.rows && 0 <= ii % cols < cols) by (nonlinear_arith)
                requires
                    0 <= ii < v0.cols * v0.rows,
                    cols >= 1,
                    cols == v0.cols,
            ;
        }
        let col = ii % cols;
        let row = ii / cols;
        let passable = fill_func(col, row);
        proof {
            lemma_set_passable(path_finder@.state[i as int]);
        }
        if passable {
            path_finder.state[i] = path_finder.state[i] | PASSABLE;
        } else {
            path_finder.state[i] = path_finder.state[i] & !PASSABLE;
        }
        i += 1;
    }
}

/// Walks parent links back from the end cell to the start cell and sets the
/// path flag on every cell met in between. The start and end cells are not
/// marked.
pub fn path_finder_reconstruct_path(path_finder: &mut PathFinder)
    requires
        old(path_finder)@.arrays_ok(),
        0 <= old(path_finder).start < PATH_FINDER_MAX_CELLS,
        exists|k: nat| reaches_start(old(path_finder)@, k),
    ensures
        route_marked(old(path_finder)@, final(path_finder)@),
        !on_route(old(path_finder)@, old(path_finder)@.start),
        !on_route(old(path_finder)@, old(path_finder)@.end),
{
    let ghost v0 = path_finder@;
    let ghost k = choose|k: nat| reaches_start(v0, k);
    let start = path_finder.start;
    let mut idx = path_finder.end;
    let ghost mut j: nat = 0;
    while idx != start
        invariant
            v0.arrays_ok(),
            0 <= start < PATH_FINDER_MAX_CELLS,
            start == v0.start,
            reaches_start(v0, k),
            j <= k,
            idx == follow(v0.parents, v0.end, j),
            path_finder@ == (PathFinderView { state: path_finder@.state, ..v0 }),
            path_finder@.state.len() == PATH_FINDER_MAX_CELLS,
            forall|i: int|
                0 <= i < PATH_FINDER_MAX_CELLS ==> #[trigger] path_finder@.state[i] == if marked_before(
                    v0,
                    j,
                    i,
                ) {
                    v0.state[i] | 0x8u8
                } else {
                    v0.state[i]
                },
        decreases k - j,
    {
        assert(j < k);
        let p = path_finder.parents[idx as usize];
        assert(p == follow(v0.parents, v0.end, j + 1));
        if p != start {
            assert(j + 1 < k);
            assert(follow(v0.parents, v0.end, (j + 1) as nat) != v0.start);
            let pi = p as usize;
            proof {
                lemma_set_path(v0.state[pi as int]);
            }
            path_finder.state[pi] = path_finder.state[pi] | PATH;
        }
        proof {
            let jj = (j + 1) as nat;
            assert forall|i: int| 0 <= i < PATH_FINDER_MAX_CELLS implies #[trigger] path_finder@.state[i]
                == if marked_before(v0, jj, i) {
                v0.state[i] | 0x8u8
            } else {
                v0.state[i]
            } by {
                if i == p && p != start {
                    assert(marked_before(v0, jj, i));
                } else {
                    if marked_before(v0, jj, i) {
                        let m = choose|m: nat|
                            0 < m <= jj && #[trigger] follow(v0.parents, v0.end, m) == i && i
                                != v0.start;
                        assert(m != jj);
                        assert(marked_before(v0, j, i));
                    }
                }
            }
            j = jj;
        }
        idx = p;
    }
    proof {
        assert(j == k);
        assert forall|i: int| 0 <= i < PATH_FINDER_MAX_CELLS implies marked_before(v0, k, i)
            == on_route(v0, i) by {
            lemma_on_route_bounded(v0, k, i);
            if marked_before(v0, k, i) {
                let m = choose|m: nat|
                    0 < m <= k && #[trigger] follow(v0.parents, v0.end, m) == i && i != v0.start;
                assert(0 < m < k);
            }
        }
        lemma_on_route_bounded(v0, k, v0.start);
        lemma_on_route_bounded(v0, k, v0.end);
        if on_route(v0, v0.end) {
            let m = choose|m: nat| 0 < m < k && #[trigger] follow(v0.parents, v0.end, m) == v0.end;
            lemma_route_avoids_end(v0, k, m);
        }
    }
}

/// Relaxes active cell `n` from the cell `cur` being expanded, with
/// tentative g-score `g`.
fn relax_neighbor<S: Fn(i32, i32) -> i32>(
    path_finder: &mut PathFinder,
    cur: i32,
    n: i32,
    g: i32,
    score_func: Option<&S>,
)
    requires
        old(path_finder)@.wf(),
        0 <= n < old(path_finder)@.count(),
        1 <= g <= G_SCORE_LIMIT + 1,
        scorer_ok(score_func),
    ensures
        final(path_finder)@ == (PathFinderView {
            state: final(path_finder)@.state,
            parents: final(path_finder)@.parents,
            g_score: final(path_finder)@.g_score,
            f_score: final(path_finder)@.f_score,
            ..old(path_finder)@
        }),
        final(path_finder)@.arrays_ok(),
        forall|i: int|
            0 <= i < PATH_FINDER_MAX_CELLS && i != n ==> #[trigger] same_cell(
                old(path_finder)@,
                final(path_finder)@,
                i,
            ),
        relaxed(old(path_finder)@, final(path_finder)@, cur as int, n as int, g as int, score_func),
{
    let ni = n as usize;
    let s = path_finder.state[ni];
    proof {
        lemma_flag_tests(s);
        lemma_set_closed(s);
        lemma_set_open(s);
    }
    if s & CLOSED == 0 {
        if s & PASSABLE == 0 {
            path_finder.state[ni] = s | CLOSED;
        } else if s & OPEN == 0 || g < path_finder.g_score[ni] {
            let cols = path_finder.cols;
            proof {
                let v = path_finder@;
                assert(v.cols + v.rows <= PATH_FINDER_MAX_CELLS + 1) by (nonlinear_arith)
                    requires
                        v.cols >= 1,
                        v.rows >= 1,
                        v.cols * v.rows <= PATH_FINDER_MAX_CELLS,
                ;
            }
            path_finder.parents[ni] = cur;
            path_finder.g_score[ni] = g;
            let h = path_finder_heuristic(path_finder, n);
            let mut f = g + h;
            match score_func {
                Some(sf) => {
                    let extra = sf(n % cols, n / cols);
                    f = f + extra;
                },
                None => {},
            }
            path_finder.f_score[ni] = f;
            path_finder.state[ni] = s | OPEN;
        }
    }
}

/// One expansion of the search.
///
/// If the open set is empty, sets `has_path` to 0. Otherwise takes the
/// lowest open cell; if it is the end cell, marks the route and sets
/// `has_path` to 1. Both end the search and return 0. Otherwise the cell
/// is closed, its active neighbours are relaxed, and 1 is returned. The
/// f-score of a relaxed cell is its g-score plus the Manhattan distance to
/// the end, plus what `score_func` gives for the cell's column and row.
///
/// The block must be well formed, the g-scores of open cells at most
/// `G_SCORE_LIMIT`, and where the lowest open cell is the end cell its
/// parent links must lead to the start cell (as they do for every open
/// cell in a search begun on a cleared block). An empty open set is
/// checked first, so cell 0, the selection on an empty open set, is never
/// taken for the end cell.
pub fn path_finder_find_step<S: Fn(i32, i32) -> i32>(
    path_finder: &mut PathFinder,
    score_func: Option<&S>,
) -> (r: u8)
    requires
        old(path_finder)@.wf(),
        g_bounded(old(path_finder)@, G_SCORE_LIMIT as int),
        can_finish(old(path_finder)@),
        scorer_ok(score_func),
    ensures
        step_post(old(path_finder)@, final(path_finder)@, r, score_func),
{
    let ghost v = path_finder@;
    if path_finder_open_set_is_empty(path_finder) == 1 {
        path_finder.has_path = 0;
        return 0;
    }
    let current = path_finder_lowest_in_open_set(path_finder);
    if current == path_finder.end {
        path_finder_reconstruct_path(path_finder);
        path_finder.has_path = 1;
        return 0;
    }
    proof {
        lemma_best_open(v.state, v.f_score, v.count());
    }
    assert(0 <= current < v.count());
    assert(v.cols <= PATH_FINDER_MAX_CELLS) by (nonlinear_arith)
        requires
            v.cols * v.rows <= PATH_FINDER_MAX_CELLS,
            v.rows >= 1,
            v.cols >= 1,
    ;
    let ci = current as usize;
    let s = path_finder.state[ci];
    proof {
        lemma_clear_open(s);
        lemma_open_to_closed(s);
    }
    path_finder.state[ci] = (s & !OPEN) | CLOSED;
    let ghost v1 = path_finder@;
    let g = path_finder.g_score[ci] + 1;
    let cols = path_finder.cols;
    let count = active_count(path_finder) as i32;
    let left = if current % cols == 0 {
        -1
    } else {
        current - 1
    };
    let top = current - cols;
    let right = if (current + 1) % cols == 0 {
        -1
    } else {
        current + 1
    };
    let bottom = current + cols;
    assert(left == left_of(v, current as int) && top == top_of(v, current as int));
    assert(right == right_of(v, current as int) && bottom == bottom_of(v, current as int));
    if 0 <= left && left < count {
        relax_neighbor(path_finder, current, left, g, score_func);
    }
    let ghost v2 = path_finder@;
    if 0 <= top && top < count {
        relax_neighbor(path_finder, current, top, g, score_func);
    }
    let ghost v3 = path_finder@;
    if 0 <= right && right < count {
        relax_neighbor(path_finder, current, right, g, score_func);
    }
    let ghost v4 = path_finder@;
    if 0 <= bottom && bottom < count {
        relax_neighbor(path_finder, current, bottom, g, score_func);
    }
    proof {
        let w = path_finder@;
        let c = current as int;
        assert(left != top && left != right && left != bottom && top != right && top != bottom
            && right != bottom || left < 0 || right < 0 || top < 0) by {
            if left >= 0 {
                assert(c % v.cols != 0);
                assert(v.cols != 1);
            }
            if right >= 0 {
                assert((c + 1) % v.cols != 0);
                assert(v.cols != 1);
            }
        }
        let gg = g as int;
        assert forall|i: int| 0 <= i < PATH_FINDER_MAX_CELLS implies #[trigger] step_cell(
            v,
            w,
            c,
            i,
            score_func,
        ) by {
            let dl = 0 <= left < count;
            let dt = 0 <= top < count;
            let dr = 0 <= right < count;
            let db = 0 <= bottom < count;
            if i == c {
                assert(same_cell(v1, v2, i));
                assert(same_cell(v2, v3, i));
                assert(same_cell(v3, v4, i));
                assert(same_cell(v4, w, i));
            } else {
                assert(same_cell(v, v1, i));
                if i == left && dl {
                    assert(same_cell(v2, v3, i));
                    assert(same_cell(v3, v4, i));
                    assert(same_cell(v4, w, i));
                    lemma_relaxed_transfer(v, v1, v2, w, c, i, gg, score_func);
                } else if i == top && dt {
                    assert(same_cell(v1, v2, i));
                    assert(same_cell(v3, v4, i));
                    assert(same_cell(v4, w, i));
                    lemma_relaxed_transfer(v, v2, v3, w, c, i, gg, score_func);
                } else if i == right && dr {
                    assert(same_cell(v1, v2, i));
                    assert(same_cell(v2, v3, i));
                    assert(same_cell(v4, w, i));
                    lemma_relaxed_transfer(v, v3, v4, w, c, i, gg, score_func);
                } else if i == bottom && db {
                    assert(same_cell(v1, v2, i));
                    assert(same_cell(v2, v3, i));
                    assert(same_cell(v3, v4, i));
                    lemma_relaxed_transfer(v, v4, w, w, c, i, gg, score_func);
                } else {
                    assert(same_cell(v1, v2, i));
                    assert(same_cell(v2, v3, i));
                    assert(same_cell(v3, v4, i));
                    assert(same_cell(v4, w, i));
                    assert(!is_neighbor(v, c, i));
                }
            }
        }
    }
    1
}

/// Runs the search to completion: opens the start cell, then steps until a
/// step reports the end of the search.
///
/// The result is in `has_path` and in the path flags: `has_path` is 1
/// exactly when the end cell can be reached from the start cell.
/// Without a scoring callback the route found is a shortest one: the end
/// cell's g-score is the number of moves of a shortest walk to it.
pub fn path_finder_find<S: Fn(i32, i32) -> i32>(
    path_finder: &mut PathFinder,
    score_func: Option<&S>,
)
    requires
        ready_to_search(old(path_finder)@),
        scorer_ok(score_func),
    ensures
        search_result(old(path_finder)@, final(path_finder)@),
        final(path_finder).has_path == 1 <==> connected(old(path_finder)@),
        score_func is None && final(path_finder).has_path == 1 ==> shortest(
            old(path_finder)@,
            old(path_finder).end as int,
            final(path_finder).g_score[old(path_finder).end as int] as int,
        ),
        deterministic(score_func) ==> final(path_finder)@ == find_run(old(path_finder)@, score_func),
{
    let ghost v0 = path_finder@;
    path_finder_begin(path_finder);
    let ghost v1 = path_finder@;
    let ghost m0 = measure(v1);
    proof {
        lemma_set_open(v0.state[v0.start]);
        lemma_weight_sum_bounds(v1.state, v1.count());
        assert(search_frame(v0, v1));
        assert(chain(v1, v1.start, 0));
        assert(tree_ok(v1));
        assert(same_path_flags(v0, v1));
        assert(v1 == begin_view(v0));
        assert(frontier_inv(v1));
        assert(walk_to(v1, seq![v1.start], v1.start));
        assert(reached(v1, v1.start));
        assert(optimal_inv(v1));
    }
    let ghost mut fuel: nat = search_fuel();
    loop
        invariant_except_break
            path_finder@.wf(),
            search_frame(v0, path_finder@),
            same_path_flags(v0, path_finder@),
            v0.arrays_ok(),
            tree_ok(path_finder@),
            frontier_inv(path_finder@),
            score_func is None ==> optimal_inv(path_finder@),
            0 <= measure(path_finder@) <= m0,
            m0 <= 3 * PATH_FINDER_MAX_CELLS,
            g_bounded(path_finder@, m0 - measure(path_finder@)),
            scorer_ok(score_func),
            measure(path_finder@) < fuel,
            deterministic(score_func) ==> run(path_finder@, score_func, fuel) == find_run(
                v0,
                score_func,
            ),
        ensures
            search_result(v0, path_finder@),
            score_func is None && path_finder.has_path == 1 ==> shortest(
                v0,
                v0.end,
                path_finder.g_score[v0.end] as int,
            ),
            deterministic(score_func) ==> path_finder@ == find_run(v0, score_func),
        decreases measure(path_finder@),
    {
        let ghost pre = path_finder@;
        proof {
            lemma_can_finish(pre);
            lemma_weight_sum_bounds(pre.state, pre.count());
        }
        let r = path_finder_find_step(path_finder, score_func);
        if r != 1 {
            proof {
                lemma_stop_step(v0, pre, path_finder@, score_func);
                if score_func is None && path_finder.has_path == 1 {
                    lemma_best_open(pre.state, pre.f_score, pre.count());
                    lemma_found_shortest(v0, pre);
                    assert(path_finder@.g_score == pre.g_score);
                }
                if deterministic(score_func) {
                    lemma_step_fn(pre, path_finder@, r, score_func);
                }
            }
            break;
        }
        proof {
            lemma_continue_step(v0, pre, path_finder@, score_func, m0);
            if score_func is None {
                lemma_expanded_optimal(pre, path_finder@, score_func);
            }
            if deterministic(score_func) {
                lemma_step_fn(pre, path_finder@, r, score_func);
            }
            fuel = (fuel - 1) as nat;
        }
    }
    proof {
        let w = path_finder@;
        if w.has_path == 1 {
            let k = choose|k: nat| chain(w, w.end, k);
            lemma_chain_walk(w, w.end, k);
            lemma_walk_frame(v0, w, chain_cells(w, w.end, k));
        }
    }
}

/// The f-score of the cell at `col`, `row`.
pub fn path_finder_get_heuristic_score(path_finder: &mut PathFinder, col: i32, row: i32) -> (r: i32)
    requires
        old(path_finder)@.arrays_ok(),
        0 <= col < old(path_finder).cols,
        0 <= row < old(path_finder).rows,
    ensures
        final(path_finder)@ == old(path_finder)@,
        r == old(path_finder)@.f_score[old(path_finder)@.index_of(col as int, row as int)],
{
    let i = cell_at(path_finder, col, row);
    path_finder.f_score[i]
}

/// Index of the active cell at `col`, `row`.
fn cell_at(path_finder: &PathFinder, col: i32, row: i32) -> (r: usize)
    requires
        path_finder@.arrays_ok(),
        0 <= col < path_finder.cols,
        0 <= row < path_finder.rows,
    ensures
        r == path_finder@.index_of(col as int, row as int),
        r < path_finder@.count(),
{
    proof {
        let v = path_finder@;
        assert(0 <= row * v.cols + col < v.cols * v.rows) by (nonlinear_arith)
            requires
                0 <= col < v.cols,
                0 <= row < v.rows,
        ;
    }
    (row * path_finder.cols + col) as usize
}

/// 1 when the cell at `col`, `row` has flag `bit` set, else 0.
fn has_flag(path_finder: &PathFinder, col: i32, row: i32, bit: u8) -> (r: u8)
    requires
        path_finder@.arrays_ok(),
        0 <= col < path_finder.cols,
        0 <= row < path_finder.rows,
    ensures
        r == (if path_finder@.state[path_finder@.index_of(col as int, row as int)] & bit == bit {
            1u8
        } else {
            0u8
        }),
{
    let i = cell_at(path_finder, col, row);
    if path_finder.state[i] & bit == bit {
        1
    } else {
        0
    }
}

/// 1 when the cell at `col`, `row` is passable, else 0.
pub fn path_finder_is_passable(path_finder: &mut PathFinder, col: i32, row: i32) -> (r: u8)
    requires
        old(path_finder)@.arrays_ok(),
        0 <= col < old(path_finder).cols,
        0 <= row < old(path_finder).rows,
    ensures
        final(path_finder)@ == old(path_finder)@,
        r == (if is_passable_flag(
            old(path_finder)@.state[old(path_finder)@.index_of(col as int, row as int)],
        ) {
            1u8
        } else {
            0u8
        }),
{
    has_flag(path_finder, col, row, PASSABLE)
}

/// 1 when the cell at `col`, `row` is closed, else 0.
pub fn path_finder_is_closed(path_finder: &mut PathFinder, col: i32, row: i32) -> (r: u8)
    requires
        old(path_finder)@.arrays_ok(),
        0 <= col < old(path_finder).cols,
        0 <= row < old(path_finder).rows,
    ensures
        final(path_finder)@ == old(path_finder)@,
        r == (if is_closed_flag(
            old(path_finder)@.state[old(path_finder)@.index_of(col as int, row as int)],
        ) {
            1u8
        } else {
            0u8
        }),
{
    has_flag(path_finder, col, row, CLOSED)
}

/// 1 when the cell at `col`, `row` is open, else 0.
pub fn path_finder_is_open(path_finder: &mut PathFinder, col: i32, row: i32) -> (r: u8)
    requires
        old(path_finder)@.arrays_ok(),
        0 <= col < old(path_finder).cols,
        0 <= row < old(path_finder).rows,
    ensures
        final(path_finder)@ == old(path_finder)@,
        r == (if is_open_flag(
            old(path_finder)@.state[old(path_finder)@.index_of(col as int, row as int)],
        ) {
            1u8
        } else {
            0u8
        }),
{
    has_flag(path_finder, col, row, OPEN)
}

/// 1 when the cell at `col`, `row` is on the reconstructed route, else 0.
pub fn path_finder_is_path(path_finder: &mut PathFinder, col: i32, row: i32) -> (r: u8)
    requires
        old(path_finder)@.arrays_ok(),
        0 <= col < old(path_finder).cols,
        0 <= row < old(path_finder).rows,
    ensures
        final(path_finder)@ == old(path_finder)@,
        r == (if is_path_flag(
            old(path_finder)@.state[old(path_finder)@.index_of(col as int, row as int)],
        ) {
            1u8
        } else {
            0u8
        }),
{
    has_flag(path_finder, col, row, PATH)
}

/// The flat index `row * cols + col` is computed in `i32` without
/// overflow.
pub open spec fn flat_index_fits(v: PathFinderView, col: i32, row: i32) -> bool {
    &&& i32::MIN <= row * v.cols <= i32::MAX
    &&& i32::MIN <= v.index_of(col as int, row as int) <= i32::MAX
}

/// 1 when `col`, `row` is the start cell, else 0.
pub fn path_finder_is_start(path_finder: &mut PathFinder, col: i32, row: i32) -> (r: u8)
    requires
        flat_index_fits(old(path_finder)@, col, row),
    ensures
        final(path_finder)@ == old(path_finder)@,
        r == (if old(path_finder)@.index_of(col as int, row as int) == old(path_finder).start {
            1u8
        } else {
            0u8
        }),
{
    if row * path_finder.cols + col == path_finder.start {
        1
    } else {
        0
    }
}

/// 1 when `col`, `row` is the end cell, else 0.
pub fn path_finder_is_end(path_finder: &mut PathFinder, col: i32, row: i32) -> (r: u8)
    requires
        flat_index_fits(old(path_finder)@, col, row),
    ensures
        final(path_finder)@ == old(path_finder)@,
        r == (if old(path_finder)@.index_of(col as int, row as int) == old(path_finder).end {
            1u8
        } else {
            0u8
        }),
{
    if row * path_finder.cols + col == path_finder.end {
        1
    } else {
        0
    }
}

/// Sets the start cell to `row * cols + col`, unchecked.
pub fn path_finder_set_start(path_finder: &mut PathFinder, col: i32, row: i32)
    requires
        flat_index_fits(old(path_finder)@, col, row),
    ensures
        final(path_finder)@ == (PathFinderView {
            start: old(path_finder)@.index_of(col as int, row as int),
            ..old(path_finder)@
        }),
{
    path_finder.start = row * path_finder.cols + col;
}

/// Sets the end cell to `row * cols + col`, unchecked.
pub fn path_finder_set_end(path_finder: &mut PathFinder, col: i32, row: i32)
    requires
        flat_index_fits(old(path_finder)@, col, row),
    ensures
        final(path_finder)@ == (PathFinderView {
            end: old(path_finder)@.index_of(col as int, row as int),
            ..old(path_finder)@
        }),
{
    path_finder.end = row * path_finder.cols + col;
}

} // verus!
