//! Properties of the search that relate several calls or hold of every
//! input, proved over the contracts of the operations.

use vstd::prelude::*;

use crate::grid::{is_open_flag, PathFinderView, PATH_FINDER_MAX_CELLS};
use crate::model::{lemma_open_to_closed, lemma_set_closed, lemma_set_open, lemma_set_path};
use crate::progress::ready_to_search;
use crate::replay::{begin_view, deterministic, find_run, run, search_fuel, step_fn, stops};
use crate::search::cleared;
use crate::model::{
    extra_ok, lemma_best_open, lowest_open, open_set_empty, route_marked,
    step_cell, step_post,
};

verus! {

/// Frontier selection breaks ties by index: the open cell that is selected
/// is the one with the least f-score, and among open cells that share the
/// least f-score, the one with the lowest index.
pub proof fn lowest_open_is_first_minimum(v: PathFinderView, i: int)
    requires
        v.arrays_ok(),
        v.in_grid(i),
        is_open_flag(v.state[i]),
        forall|j: int|
            v.in_grid(j) && is_open_flag(#[trigger] v.state[j]) ==> v.f_score[i] <= v.f_score[j],
        forall|j: int|
            0 <= j < i && is_open_flag(#[trigger] v.state[j]) ==> v.f_score[i] < v.f_score[j],
    ensures
        lowest_open(v) == i,
{
    lemma_best_open(v.state, v.f_score, v.count());
}

/// Frontier selection on an empty open set gives cell 0.
pub proof fn lowest_open_of_empty_set(v: PathFinderView)
    requires
        v.arrays_ok(),
        open_set_empty(v),
    ensures
        lowest_open(v) == 0,
{
    lemma_best_open(v.state, v.f_score, v.count());
}

/// A step is deterministic: with a deterministic scoring callback, two
/// steps on the same block expand the same cell, return the same flag and
/// leave the same block. By induction, repeated runs from the same block
/// close the same cells in the same order.
pub proof fn step_is_deterministic<S: Fn(i32, i32) -> i32>(
    v: PathFinderView,
    w1: PathFinderView,
    r1: u8,
    w2: PathFinderView,
    r2: u8,
    score: Option<&S>,
)
    requires
        v.wf(),
        deterministic(score),
        step_post(v, w1, r1, score),
        step_post(v, w2, r2, score),
    ensures
        w1 == w2,
        r1 == r2,
{
    let cur = lowest_open(v);
    if open_set_empty(v) {
    } else if cur == v.end {
        let m1 = PathFinderView { has_path: v.has_path, ..w1 };
        let m2 = PathFinderView { has_path: v.has_path, ..w2 };
        assert(route_marked(v, m1) && route_marked(v, m2));
        assert(m1.state =~= m2.state);
        assert(m1 == m2);
    } else {
        assert forall|i: int|
            #![trigger w1.state[i]]
            #![trigger w1.parents[i]]
            #![trigger w1.g_score[i]]
            #![trigger w1.f_score[i]]
            0 <= i < PATH_FINDER_MAX_CELLS implies {
            &&& w1.state[i] == w2.state[i]
            &&& w1.parents[i] == w2.parents[i]
            &&& w1.g_score[i] == w2.g_score[i]
            &&& w1.f_score[i] == w2.f_score[i]
        } by {
            assert(step_cell(v, w1, cur, i, score));
            assert(step_cell(v, w2, cur, i, score));
            let g = v.g_score[cur] + 1;
            let col = i % v.cols;
            let row = i / v.cols;
            let h = crate::model::manhattan(v, i);
            if extra_ok(score, col, row, w1.f_score[i] - g - h) && extra_ok(
                score,
                col,
                row,
                w2.f_score[i] - g - h,
            ) {
                match score {
                    None => {},
                    Some(f) => {
                        let a = (w1.f_score[i] - g - h) as i32;
                        let b = (w2.f_score[i] - g - h) as i32;
                        assert(f.ensures((col as i32, row as i32), a));
                        assert(f.ensures((col as i32, row as i32), b));
                        assert(a == b);
                    },
                }
            }
        }
        assert(w1.state =~= w2.state);
        assert(w1.parents =~= w2.parents);
        assert(w1.g_score =~= w2.g_score);
        assert(w1.f_score =~= w2.f_score);
    }
}

/// A step touches nothing that `path_finder_clear_path` keeps.
proof fn lemma_cleared_step<S: Fn(i32, i32) -> i32>(v: PathFinderView, score: Option<&S>)
    ensures
        cleared(step_fn(v, score)) == cleared(v),
{
    let w = step_fn(v, score);
    assert forall|i: int| 0 <= i < v.state.len() implies #[trigger] (w.state[i] & 0xf1u8) == (
    v.state[i] & 0xf1u8) by {
        lemma_open_to_closed(v.state[i]);
        lemma_set_closed(v.state[i]);
        lemma_set_open(v.state[i]);
        lemma_set_path(v.state[i]);
    }
    assert(cleared(w).state =~= cleared(v).state);
    assert(cleared(w).parents =~= cleared(v).parents);
    assert(cleared(w).g_score =~= cleared(v).g_score);
    assert(cleared(w).f_score =~= cleared(v).f_score);
}

proof fn lemma_cleared_run<S: Fn(i32, i32) -> i32>(
    v: PathFinderView,
    score: Option<&S>,
    fuel: nat,
)
    ensures
        cleared(run(v, score, fuel)) == cleared(v),
    decreases fuel,
{
    if fuel > 0 {
        lemma_cleared_step(v, score);
        if !stops(v) {
            lemma_cleared_run(step_fn(v, score), score, (fuel - 1) as nat);
        }
    }
}

/// Clearing the path after a run to completion gives back the block the
/// run started from, when that block carried no search progress; a fresh
/// run on the cleared block, with or without opening the start cell first,
/// therefore reproduces the first run, its `has_path` and its path flags
/// included.
pub proof fn clear_then_rerun_reproduces<S: Fn(i32, i32) -> i32>(
    x: PathFinderView,
    score: Option<&S>,
)
    requires
        ready_to_search(x),
        cleared(x) == x,
        deterministic(score),
    ensures
        cleared(find_run(x, score)) == x,
        ready_to_search(cleared(find_run(x, score))),
        find_run(cleared(find_run(x, score)), score) == find_run(x, score),
        ready_to_search(begin_view(cleared(find_run(x, score)))),
        find_run(begin_view(cleared(find_run(x, score))), score) == find_run(x, score),
{
    let b = begin_view(x);
    lemma_set_open(x.state[x.start]);
    assert(begin_view(b).state =~= b.state);
    assert(begin_view(b) == b);
    lemma_cleared_run(b, score, search_fuel());
    lemma_set_open(x.state[x.start]);
    assert(cleared(b).state =~= cleared(x).state);
    assert(cleared(b) == cleared(x));
}

} // verus!
