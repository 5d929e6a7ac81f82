//! The search read as a function: with a deterministic scoring callback a
//! step's result, and a whole run's, depend on the block alone.

use vstd::prelude::*;

use crate::grid::{
    is_closed_flag, is_open_flag, is_passable_flag, PathFinderView, PATH_FINDER_MAX_CELLS,
};
use crate::model::{
    extra_ok, is_neighbor, lowest_open, manhattan, on_route, open_set_empty,
    route_marked, step_cell, step_post,
};

verus! {

/// The scoring callback gives one extra term per cell: two calls on the
/// same column and row return the same value.
pub open spec fn deterministic<S: Fn(i32, i32) -> i32>(score: Option<&S>) -> bool {
    match score {
        None => true,
        Some(f) => forall|col: i32, row: i32, a: i32, b: i32|
            #[trigger] f.ensures((col, row), a) && #[trigger] f.ensures((col, row), b) ==> a == b,
    }
}

/// The extra term the scoring callback gives for a cell.
pub open spec fn extra_of<S: Fn(i32, i32) -> i32>(score: Option<&S>, col: int, row: int) -> int {
    match score {
        None => 0,
        Some(f) => (choose|e: i32| #[trigger] f.ensures((col as i32, row as i32), e)) as int,
    }
}

/// Expanding `cur` relaxes cell `i` to a new parent and g-score.
pub open spec fn improves(v: PathFinderView, cur: int, i: int) -> bool {
    let s = v.state[i];
    &&& i != cur
    &&& is_neighbor(v, cur, i)
    &&& !is_closed_flag(s)
    &&& is_passable_flag(s)
    &&& (!is_open_flag(s) || v.g_score[cur] + 1 < v.g_score[i])
}

/// Expanding `cur` closes the impassable neighbour `i`.
pub open spec fn walls_off(v: PathFinderView, cur: int, i: int) -> bool {
    let s = v.state[i];
    &&& i != cur
    &&& is_neighbor(v, cur, i)
    &&& !is_closed_flag(s)
    &&& !is_passable_flag(s)
}

/// The block after expanding `cur`.
pub open spec fn expand_fn<S: Fn(i32, i32) -> i32>(
    v: PathFinderView,
    cur: int,
    score: Option<&S>,
) -> PathFinderView {
    let g = v.g_score[cur] + 1;
    PathFinderView {
        state: Seq::new(
            v.state.len(),
            |i: int|
                if i == cur {
                    (v.state[i] & 0xfdu8) | 0x4u8
                } else if walls_off(v, cur, i) {
                    v.state[i] | 0x4u8
                } else if improves(v, cur, i) {
                    v.state[i] | 0x2u8
                } else {
                    v.state[i]
                },
        ),
        parents: Seq::new(
            v.parents.len(),
            |i: int|
                if improves(v, cur, i) {
                    cur as i32
                } else {
                    v.parents[i]
                },
        ),
        g_score: Seq::new(
            v.g_score.len(),
            |i: int|
                if improves(v, cur, i) {
                    g as i32
                } else {
                    v.g_score[i]
                },
        ),
        f_score: Seq::new(
            v.f_score.len(),
            |i: int|
                if improves(v, cur, i) {
                    (g + manhattan(v, i) + extra_of(score, i % v.cols, i / v.cols)) as i32
                } else {
                    v.f_score[i]
                },
        ),
        ..v
    }
}

/// The block after marking the route and setting `has_path`.
pub open spec fn mark_fn(v: PathFinderView) -> PathFinderView {
    PathFinderView {
        has_path: 1,
        state: Seq::new(
            v.state.len(),
            |i: int|
                if on_route(v, i) {
                    v.state[i] | 0x8u8
                } else {
                    v.state[i]
                },
        ),
        ..v
    }
}

/// A step on `v` ends the search.
pub open spec fn stops(v: PathFinderView) -> bool {
    lowest_open(v) == v.end || open_set_empty(v)
}

/// The block after one step.
pub open spec fn step_fn<S: Fn(i32, i32) -> i32>(
    v: PathFinderView,
    score: Option<&S>,
) -> PathFinderView {
    let cur = lowest_open(v);
    if open_set_empty(v) {
        PathFinderView { has_path: 0, ..v }
    } else if cur == v.end {
        mark_fn(v)
    } else {
        expand_fn(v, cur, score)
    }
}

/// The block after stepping until a step ends the search, or until `fuel`
/// steps have gone on.
pub open spec fn run<S: Fn(i32, i32) -> i32>(
    v: PathFinderView,
    score: Option<&S>,
    fuel: nat,
) -> PathFinderView
    decreases fuel,
{
    if fuel == 0 {
        v
    } else if stops(v) {
        step_fn(v, score)
    } else {
        run(step_fn(v, score), score, (fuel - 1) as nat)
    }
}

/// The block with the start cell opened.
pub open spec fn begin_view(v: PathFinderView) -> PathFinderView {
    PathFinderView { state: v.state.update(v.start, v.state[v.start] | 0x2u8), ..v }
}

/// More steps than any search on `PATH_FINDER_MAX_CELLS` cells takes.
pub open spec fn search_fuel() -> nat {
    4 * PATH_FINDER_MAX_CELLS as nat
}

/// The block that a run to completion leaves.
pub open spec fn find_run<S: Fn(i32, i32) -> i32>(
    v: PathFinderView,
    score: Option<&S>,
) -> PathFinderView {
    run(begin_view(v), score, search_fuel())
}

/// With a deterministic scoring callback, what a step leaves is `step_fn`.
pub proof fn lemma_step_fn<S: Fn(i32, i32) -> i32>(
    v: PathFinderView,
    w: PathFinderView,
    r: u8,
    score: Option<&S>,
)
    requires
        v.wf(),
        deterministic(score),
        step_post(v, w, r, score),
    ensures
        w == step_fn(v, score),
        r == 1 <==> !stops(v),
{
    let cur = lowest_open(v);
    let u = step_fn(v, score);
    if open_set_empty(v) {
    } else if cur == v.end {
        let m = PathFinderView { has_path: v.has_path, ..w };
        assert(route_marked(v, m));
        assert(w.state =~= u.state);
    } else {
        assert forall|i: int|
            #![trigger w.state[i]]
            #![trigger w.parents[i]]
            #![trigger w.g_score[i]]
            #![trigger w.f_score[i]]
            0 <= i < PATH_FINDER_MAX_CELLS implies {
            &&& w.state[i] == u.state[i]
            &&& w.parents[i] == u.parents[i]
            &&& w.g_score[i] == u.g_score[i]
            &&& w.f_score[i] == u.f_score[i]
        } by {
            assert(step_cell(v, w, cur, i, score));
            let g = v.g_score[cur] + 1;
            let col = i % v.cols;
            let row = i / v.cols;
            let h = manhattan(v, i);
            if improves(v, cur, i) {
                let e = w.f_score[i] - g - h;
                assert(extra_ok(score, col, row, e));
                match score {
                    None => {},
                    Some(f) => {
                        assert(f.ensures((col as i32, row as i32), e as i32));
                        let c = choose|c: i32| #[trigger] f.ensures((col as i32, row as i32), c);
                        assert(c == e as i32);
                    },
                }
            }
        }
        assert(w.state =~= u.state);
        assert(w.parents =~= u.parents);
        assert(w.g_score =~= u.g_score);
        assert(w.f_score =~= u.f_score);
    }
}

} // verus!
