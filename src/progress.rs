//! What a step preserves and what it consumes: a measure that every
//! continuing step lowers, the bound on g-scores of open cells, and the
//! parent chains that lead every open cell back to the start cell.

use vstd::prelude::*;

use crate::grid::{
    is_closed_flag, is_open_flag, is_passable_flag, PathFinderView, PATH_FINDER_MAX_CELLS,
};
use crate::grid::is_path_flag;
use crate::model::{
    step_post, can_finish, expanded, follow, g_bounded, is_neighbor, lemma_best_open,
    lemma_open_to_closed, lemma_set_closed, lemma_set_open, lemma_set_path, lowest_open,
    on_route, open_set_empty, reaches_start, route_marked, step_cell,
};

verus! {

// ---------------------------------------------------------------------------
// Termination measure

/// A cell's share of the measure: 3 untouched, 2 open, 1 open and closed,
/// 0 closed. A step never raises it and lowers it for the expanded cell.
pub open spec fn weight(s: u8) -> int {
    if is_closed_flag(s) {
        if is_open_flag(s) {
            1
        } else {
            0
        }
    } else {
        if is_open_flag(s) {
            2
        } else {
            3
        }
    }
}

pub open spec fn weight_sum(state: Seq<u8>, n: int) -> int
    decreases n,
{
    if n <= 0 {
        0
    } else {
        weight_sum(state, n - 1) + weight(state[n - 1])
    }
}

/// Sum of the weights of the active cells.
pub open spec fn measure(v: PathFinderView) -> int {
    weight_sum(v.state, v.count())
}

pub proof fn lemma_weight_sum_bounds(state: Seq<u8>, n: int)
    requires
        0 <= n,
    ensures
        0 <= weight_sum(state, n) <= 3 * n,
    decreases n,
{
    if n > 0 {
        lemma_weight_sum_bounds(state, n - 1);
    }
}

pub proof fn lemma_weight_sum_le(a: Seq<u8>, b: Seq<u8>, n: int)
    requires
        0 <= n,
        forall|j: int| 0 <= j < n ==> weight(#[trigger] b[j]) <= weight(a[j]),
    ensures
        weight_sum(b, n) <= weight_sum(a, n),
    decreases n,
{
    if n > 0 {
        lemma_weight_sum_le(a, b, n - 1);
    }
}

pub proof fn lemma_weight_sum_lt(a: Seq<u8>, b: Seq<u8>, n: int, i: int)
    requires
        0 <= i < n,
        forall|j: int| 0 <= j < n ==> weight(#[trigger] b[j]) <= weight(a[j]),
        weight(b[i]) < weight(a[i]),
    ensures
        weight_sum(b, n) < weight_sum(a, n),
    decreases n,
{
    if i == n - 1 {
        lemma_weight_sum_le(a, b, n - 1);
    } else {
        lemma_weight_sum_lt(a, b, n - 1, i);
    }
}

/// No cell's weight goes up in an expansion, and the expanded cell's goes
/// down.
pub proof fn lemma_expanded_measure<S: Fn(i32, i32) -> i32>(
    v: PathFinderView,
    w: PathFinderView,
    cur: int,
    score: Option<&S>,
)
    requires
        v.wf(),
        expanded(v, w, cur, score),
        0 <= cur < v.count(),
        is_open_flag(v.state[cur]),
    ensures
        measure(w) < measure(v),
{
    assert forall|j: int| 0 <= j < v.count() implies weight(#[trigger] w.state[j]) <= weight(
        v.state[j],
    ) by {
        assert(step_cell(v, w, cur, j, score));
        lemma_open_to_closed(v.state[j]);
        lemma_set_closed(v.state[j]);
        lemma_set_open(v.state[j]);
    }
    assert(step_cell(v, w, cur, cur, score));
    lemma_open_to_closed(v.state[cur]);
    lemma_weight_sum_lt(v.state, w.state, v.count(), cur);
}

// ---------------------------------------------------------------------------
// g-scores

/// An expansion raises the bound on open g-scores by at most one.
pub proof fn lemma_expanded_g_bounded<S: Fn(i32, i32) -> i32>(
    v: PathFinderView,
    w: PathFinderView,
    cur: int,
    score: Option<&S>,
    b: int,
)
    requires
        v.wf(),
        expanded(v, w, cur, score),
        0 <= cur < v.count(),
        is_open_flag(v.state[cur]),
        g_bounded(v, b),
    ensures
        g_bounded(w, b + 1),
{
    assert forall|j: int| 0 <= j < w.count() && is_open_flag(#[trigger] w.state[j]) implies 0
        <= w.g_score[j] <= b + 1 by {
        assert(step_cell(v, w, cur, j, score));
        lemma_open_to_closed(v.state[j]);
        lemma_set_closed(v.state[j]);
        lemma_set_open(v.state[j]);
    }
}

// ---------------------------------------------------------------------------
// Parent chains

/// `p` is the start cell or a closed cell: its parent link no longer
/// changes.
pub open spec fn settled(v: PathFinderView, p: int) -> bool {
    p == v.start || (v.in_grid(p) && is_closed_flag(v.state[p]))
}

/// Following at most `k` parent links from `i` leads to the start cell,
/// each link from a passable active cell to a settled neighbour.
pub open spec fn chain(v: PathFinderView, i: int, k: nat) -> bool
    decreases k,
{
    if i == v.start {
        true
    } else if k == 0 {
        false
    } else {
        let p = v.parents[i] as int;
        &&& v.in_grid(i)
        &&& is_passable_flag(v.state[i])
        &&& v.in_grid(p)
        &&& is_neighbor(v, p, i)
        &&& settled(v, p)
        &&& chain(v, p, (k - 1) as nat)
    }
}

/// Every open active cell has a chain back to the start cell.
pub open spec fn tree_ok(v: PathFinderView) -> bool {
    forall|i: int|
        v.in_grid(i) && is_open_flag(#[trigger] v.state[i]) ==> exists|k: nat| chain(v, i, k)
}

/// `w` keeps the configuration and passability of `v`, keeps every closed
/// cell closed with its parent, and keeps the bits that a search leaves
/// alone.
pub open spec fn search_frame(v: PathFinderView, w: PathFinderView) -> bool {
    &&& w.cols == v.cols
    &&& w.rows == v.rows
    &&& w.start == v.start
    &&& w.end == v.end
    &&& w.state.len() == v.state.len()
    &&& w.parents.len() == v.parents.len()
    &&& w.g_score.len() == v.g_score.len()
    &&& w.f_score.len() == v.f_score.len()
    &&& forall|j: int|
        0 <= j < v.state.len() ==> (#[trigger] w.state[j] & 0xf1u8) == (v.state[j] & 0xf1u8)
    &&& forall|j: int|
        0 <= j < v.state.len() ==> is_passable_flag(#[trigger] w.state[j]) == is_passable_flag(
            v.state[j],
        )
    &&& forall|j: int|
        0 <= j < v.state.len() && is_closed_flag(#[trigger] v.state[j]) ==> {
            &&& is_closed_flag(w.state[j])
            &&& w.parents[j] == v.parents[j]
        }
}

pub proof fn lemma_search_frame_trans(u: PathFinderView, v: PathFinderView, w: PathFinderView)
    requires
        search_frame(u, v),
        search_frame(v, w),
    ensures
        search_frame(u, w),
{
    assert forall|j: int| 0 <= j < u.state.len() implies (#[trigger] w.state[j] & 0xf1u8) == (
    u.state[j] & 0xf1u8) by {
        assert(w.state[j] & 0xf1u8 == v.state[j] & 0xf1u8);
    }
    assert forall|j: int|
        0 <= j < u.state.len() && is_closed_flag(#[trigger] u.state[j]) implies is_closed_flag(
        w.state[j]) && w.parents[j] == u.parents[j] by {
        assert(is_closed_flag(v.state[j]));
    }
}

/// A chain survives any change that keeps its settled cells settled with
/// their parents, provided its first link is kept too.
pub proof fn lemma_chain_frame(v: PathFinderView, w: PathFinderView, i: int, k: nat)
    requires
        v.arrays_ok(),
        search_frame(v, w),
        chain(v, i, k),
        i == v.start || w.parents[i] == v.parents[i],
    ensures
        chain(w, i, k),
    decreases k,
{
    if i != v.start {
        let p = v.parents[i] as int;
        assert(is_passable_flag(w.state[i]));
        if p != v.start {
            assert(is_closed_flag(v.state[p]));
        }
        lemma_chain_frame(v, w, p, (k - 1) as nat);
    }
}

pub proof fn lemma_expanded_frame<S: Fn(i32, i32) -> i32>(
    v: PathFinderView,
    w: PathFinderView,
    cur: int,
    score: Option<&S>,
)
    requires
        v.wf(),
        expanded(v, w, cur, score),
        0 <= cur < v.count(),
    ensures
        search_frame(v, w),
{
    assert forall|j: int| 0 <= j < v.state.len() implies {
        &&& (#[trigger] w.state[j] & 0xf1u8) == (v.state[j] & 0xf1u8)
        &&& is_passable_flag(w.state[j]) == is_passable_flag(v.state[j])
        &&& is_closed_flag(v.state[j]) ==> is_closed_flag(w.state[j]) && w.parents[j]
            == v.parents[j]
    } by {
        assert(step_cell(v, w, cur, j, score));
        lemma_open_to_closed(v.state[j]);
        lemma_set_closed(v.state[j]);
        lemma_set_open(v.state[j]);
    }
}

pub proof fn lemma_route_frame(v: PathFinderView, w: PathFinderView)
    requires
        v.arrays_ok(),
        route_marked(v, w),
    ensures
        search_frame(v, w),
{
    assert forall|j: int| 0 <= j < v.state.len() implies {
        &&& (#[trigger] w.state[j] & 0xf1u8) == (v.state[j] & 0xf1u8)
        &&& is_passable_flag(w.state[j]) == is_passable_flag(v.state[j])
        &&& is_closed_flag(v.state[j]) ==> is_closed_flag(w.state[j]) && w.parents[j]
            == v.parents[j]
    } by {
        lemma_set_path(v.state[j]);
    }
}

/// An expansion keeps every open cell's chain.
pub proof fn lemma_expanded_tree<S: Fn(i32, i32) -> i32>(
    v: PathFinderView,
    w: PathFinderView,
    cur: int,
    score: Option<&S>,
)
    requires
        v.wf(),
        expanded(v, w, cur, score),
        0 <= cur < v.count(),
        is_open_flag(v.state[cur]),
        tree_ok(v),
    ensures
        tree_ok(w),
{
    lemma_expanded_frame(v, w, cur, score);
    assert forall|j: int| w.in_grid(j) && is_open_flag(#[trigger] w.state[j]) implies exists|
        k: nat,
    | chain(w, j, k) by {
        assert(step_cell(v, w, cur, j, score));
        assert(step_cell(v, w, cur, cur, score));
        lemma_open_to_closed(v.state[j]);
        lemma_set_closed(v.state[j]);
        lemma_set_open(v.state[j]);
        lemma_open_to_closed(v.state[cur]);
        if w.parents[j] == cur && j != cur && is_neighbor(v, cur, j) && !is_closed_flag(v.state[j])
            && is_passable_flag(v.state[j]) && j != v.start {
            let k = choose|k: nat| chain(v, cur, k);
            lemma_chain_frame(v, w, cur, k);
            assert(settled(w, cur));
            assert(chain(w, j, k + 1));
        } else if j == v.start {
            assert(chain(w, j, 0));
        } else {
            assert(is_open_flag(v.state[j]));
            let k = choose|k: nat| chain(v, j, k);
            lemma_chain_frame(v, w, j, k);
        }
    }
}

/// One parent link taken first.
pub proof fn lemma_follow_first(parents: Seq<i32>, i: int, m: nat)
    ensures
        follow(parents, i, m + 1) == follow(parents, parents[i] as int, m),
    decreases m,
{
    if m == 0 {
        assert(follow(parents, i, 0) == i);
        assert(follow(parents, i, 1) == parents[follow(parents, i, 0)] as int);
    } else {
        let m1 = (m - 1) as nat;
        lemma_follow_first(parents, i, m1);
        assert(follow(parents, i, m + 1) == parents[follow(parents, i, m)] as int);
        assert(follow(parents, parents[i] as int, m) == parents[follow(
            parents,
            parents[i] as int,
            m1,
        )] as int);
    }
}

/// A chain ends at the start cell when its links are followed.
pub proof fn lemma_chain_follow(v: PathFinderView, i: int, k: nat)
    requires
        v.arrays_ok(),
        0 <= v.start < PATH_FINDER_MAX_CELLS,
        chain(v, i, k),
    ensures
        exists|m: nat|
            {
                &&& follow(v.parents, i, m) == v.start
                &&& forall|j: nat|
                    j < m ==> {
                        &&& #[trigger] follow(v.parents, i, j) != v.start
                        &&& 0 <= follow(v.parents, i, j) < PATH_FINDER_MAX_CELLS
                    }
            },
    decreases k,
{
    if i == v.start {
        assert(follow(v.parents, i, 0) == v.start);
    } else {
        let p = v.parents[i] as int;
        assert(v.count() <= PATH_FINDER_MAX_CELLS);
        lemma_chain_follow(v, p, (k - 1) as nat);
        let m = choose|m: nat|
            {
                &&& follow(v.parents, p, m) == v.start
                &&& forall|j: nat|
                    j < m ==> {
                        &&& #[trigger] follow(v.parents, p, j) != v.start
                        &&& 0 <= follow(v.parents, p, j) < PATH_FINDER_MAX_CELLS
                    }
            };
        lemma_follow_first(v.parents, i, m);
        assert forall|j: nat| j < m + 1 implies {
            &&& #[trigger] follow(v.parents, i, j) != v.start
            &&& 0 <= follow(v.parents, i, j) < PATH_FINDER_MAX_CELLS
        } by {
            if j > 0 {
                lemma_follow_first(v.parents, i, (j - 1) as nat);
                assert(follow(v.parents, p, (j - 1) as nat) != v.start);
            }
        }
        assert(follow(v.parents, i, m + 1) == v.start);
    }
}

/// With every open cell chained to the start, a step may always end the
/// search.
pub proof fn lemma_can_finish(v: PathFinderView)
    requires
        v.wf(),
        tree_ok(v),
    ensures
        can_finish(v),
{
    lemma_best_open(v.state, v.f_score, v.count());
    if !open_set_empty(v) && lowest_open(v) == v.end {
        {
            let k = choose|k: nat| chain(v, v.end, k);
            lemma_chain_follow(v, v.end, k);
            let m = choose|m: nat|
                {
                    &&& follow(v.parents, v.end, m) == v.start
                    &&& forall|j: nat|
                        j < m ==> {
                            &&& #[trigger] follow(v.parents, v.end, j) != v.start
                            &&& 0 <= follow(v.parents, v.end, j) < PATH_FINDER_MAX_CELLS
                        }
                };
            assert(reaches_start(v, m));
        }
    }
}


// ---------------------------------------------------------------------------
// Completeness

/// Cell `c` has been expanded: it is closed, and passable or the start cell
/// (an impassable cell other than the start is closed without expansion).
pub open spec fn expanded_cell(v: PathFinderView, c: int) -> bool {
    &&& v.in_grid(c)
    &&& is_closed_flag(v.state[c])
    &&& (is_passable_flag(v.state[c]) || c == v.start)
}

/// The frontier has no gap: every neighbour of an expanded cell has been
/// discovered; the end cell is never expanded; the start cell has been
/// discovered, and expanded as soon as anything is closed; open cells are
/// passable or the start cell.
pub open spec fn frontier_inv(v: PathFinderView) -> bool {
    &&& forall|c: int, n: int|
        expanded_cell(v, c) && #[trigger] is_neighbor(v, c, n) ==> is_open_flag(v.state[n])
            || is_closed_flag(v.state[n])
    &&& is_closed_flag(v.state[v.end]) ==> !is_passable_flag(v.state[v.end]) && v.end != v.start
    &&& is_open_flag(v.state[v.start]) || is_closed_flag(v.state[v.start])
    &&& is_closed_flag(v.state[v.start]) || {
        &&& forall|c: int| v.in_grid(c) ==> !is_closed_flag(#[trigger] v.state[c])
        &&& forall|i: int| v.in_grid(i) && is_open_flag(#[trigger] v.state[i]) ==> i == v.start
    }
    &&& forall|i: int|
        v.in_grid(i) && is_open_flag(#[trigger] v.state[i]) ==> is_passable_flag(v.state[i]) || i
            == v.start
}

/// An expansion that does not reach the end keeps the frontier without gaps.
pub proof fn lemma_expanded_frontier<S: Fn(i32, i32) -> i32>(
    v: PathFinderView,
    w: PathFinderView,
    score: Option<&S>,
)
    requires
        v.wf(),
        !open_set_empty(v),
        lowest_open(v) != v.end,
        expanded(v, w, lowest_open(v), score),
        frontier_inv(v),
    ensures
        frontier_inv(w),
{
    let cur = lowest_open(v);
    lemma_best_open(v.state, v.f_score, v.count());
    lemma_open_to_closed(v.state[cur]);
    assert(step_cell(v, w, cur, cur, score));
    if !is_closed_flag(v.state[v.start]) {
        assert(cur == v.start);
    }
    assert(is_closed_flag(w.state[v.start])) by {
        assert(step_cell(v, w, cur, v.start, score));
        lemma_open_to_closed(v.state[v.start]);
        lemma_set_closed(v.state[v.start]);
        lemma_set_open(v.state[v.start]);
    }
    assert forall|c: int, n: int|
        expanded_cell(w, c) && #[trigger] is_neighbor(w, c, n) implies is_open_flag(w.state[n])
        || is_closed_flag(w.state[n]) by {
        assert(step_cell(v, w, cur, c, score));
        assert(step_cell(v, w, cur, n, score));
        lemma_open_to_closed(v.state[c]);
        lemma_set_closed(v.state[c]);
        lemma_set_open(v.state[c]);
        lemma_open_to_closed(v.state[n]);
        lemma_set_closed(v.state[n]);
        lemma_set_open(v.state[n]);
        if c != cur {
            assert(expanded_cell(v, c));
            assert(is_neighbor(v, c, n));
        }
    }
    assert(step_cell(v, w, cur, v.end, score));
    lemma_open_to_closed(v.state[v.end]);
    lemma_set_closed(v.state[v.end]);
    lemma_set_open(v.state[v.end]);
    assert forall|i: int| w.in_grid(i) && is_open_flag(#[trigger] w.state[i]) implies is_passable_flag(
        w.state[i],
    ) || i == w.start by {
        assert(step_cell(v, w, cur, i, score));
        lemma_open_to_closed(v.state[i]);
        lemma_set_closed(v.state[i]);
        lemma_set_open(v.state[i]);
    }
}

/// When the open set runs out, no walk leads from the start cell to the
/// end cell.
pub proof fn lemma_exhausted_unreachable(v0: PathFinderView, v: PathFinderView)
    requires
        v.wf(),
        v0.arrays_ok(),
        search_frame(v0, v),
        frontier_inv(v),
        open_set_empty(v),
    ensures
        !connected(v0),
{
    if connected(v0) {
        let cells = choose|cells: Seq<int>| is_walk(v0, cells) && cells.last() == v0.end;
        assert forall|j: int| 0 <= j < cells.len() implies expanded_cell(v, #[trigger] cells[j]) by {
            lemma_walk_expanded(v0, v, cells, j);
        }
        assert(expanded_cell(v, cells[cells.len() - 1]));
    }
}

proof fn lemma_walk_expanded(v0: PathFinderView, v: PathFinderView, cells: Seq<int>, j: int)
    requires
        v.wf(),
        v0.arrays_ok(),
        search_frame(v0, v),
        frontier_inv(v),
        open_set_empty(v),
        is_walk(v0, cells),
        0 <= j < cells.len(),
    ensures
        expanded_cell(v, cells[j]),
    decreases j,
{
    if j == 0 {
        assert(!is_open_flag(v.state[v.start]));
    } else {
        lemma_walk_expanded(v0, v, cells, j - 1);
        let c = cells[j - 1];
        let n = cells[j];
        assert(is_neighbor(v0, c, n));
        assert(is_neighbor(v, c, n));
        assert(!is_open_flag(v.state[n]));
        assert(is_passable_flag(v.state[n]) == is_passable_flag(v0.state[n]));
    }
}

// ---------------------------------------------------------------------------
// Run to completion

/// A block on which a search can be run to completion: a well-formed grid
/// with no closed cell, no open cell but the start cell (which `begin` may
/// already have opened), and a zero g-score at the start cell.
pub open spec fn ready_to_search(v: PathFinderView) -> bool {
    &&& v.wf()
    &&& forall|i: int|
        v.in_grid(i) ==> !is_closed_flag(#[trigger] v.state[i]) && (is_open_flag(v.state[i]) ==> i
            == v.start)
    &&& v.g_score[v.start] == 0
}

/// `w` is what a search run to completion from `v` leaves: the same
/// configuration and passability, and either a route found (`has_path` 1,
/// the end cell chained back to the start cell and every cell of that
/// route marked) or the open set exhausted (`has_path` 0, the end cell
/// unreachable, no new marks).
pub open spec fn search_result(v: PathFinderView, w: PathFinderView) -> bool {
    &&& search_frame(v, w)
    &&& w.has_path == 0 || w.has_path == 1
    &&& w.has_path == 0 ==> {
        &&& !connected(v)
        &&& open_set_empty(w)
        &&& forall|i: int|
            0 <= i < PATH_FINDER_MAX_CELLS ==> is_path_flag(#[trigger] w.state[i]) == is_path_flag(
                v.state[i],
            )
    }
    &&& w.has_path == 1 ==> {
        &&& exists|k: nat| chain(w, w.end, k)
        &&& exists|k: nat| reaches_start(w, k)
        &&& forall|i: int|
            0 <= i < PATH_FINDER_MAX_CELLS ==> is_path_flag(#[trigger] w.state[i]) == (on_route(
                w,
                i,
            ) || is_path_flag(v.state[i]))
    }
}

/// Path flags of `v` and `w` agree on every cell.
pub open spec fn same_path_flags(v: PathFinderView, w: PathFinderView) -> bool {
    forall|i: int|
        0 <= i < PATH_FINDER_MAX_CELLS ==> is_path_flag(#[trigger] w.state[i]) == is_path_flag(
            v.state[i],
        )
}

pub proof fn lemma_expanded_path_flags<S: Fn(i32, i32) -> i32>(
    v: PathFinderView,
    w: PathFinderView,
    cur: int,
    score: Option<&S>,
)
    requires
        v.wf(),
        expanded(v, w, cur, score),
    ensures
        same_path_flags(v, w),
{
    assert forall|i: int| 0 <= i < PATH_FINDER_MAX_CELLS implies is_path_flag(
        #[trigger] w.state[i],
    ) == is_path_flag(v.state[i]) by {
        assert(step_cell(v, w, cur, i, score));
        lemma_open_to_closed(v.state[i]);
        lemma_set_closed(v.state[i]);
        lemma_set_open(v.state[i]);
    }
}

/// The step that ends a search leaves a search result.
pub proof fn lemma_stop_step<S: Fn(i32, i32) -> i32>(
    v0: PathFinderView,
    pre: PathFinderView,
    w: PathFinderView,
    score: Option<&S>,
)
    requires
        pre.wf(),
        v0.arrays_ok(),
        search_frame(v0, pre),
        same_path_flags(v0, pre),
        tree_ok(pre),
        frontier_inv(pre),
        can_finish(pre),
        step_post(pre, w, 0, score),
    ensures
        search_result(v0, w),
{
    lemma_best_open(pre.state, pre.f_score, pre.count());
    if open_set_empty(pre) {
        lemma_exhausted_unreachable(v0, pre);
        assert(w.state == pre.state);
    } else {
        if pre.end == pre.start {
            assert(chain(pre, pre.end, 0));
        }
        lemma_found_step(v0, pre, w, score);
    }
}

/// The step that finds the end cell marks the route back to the start.
proof fn lemma_found_step<S: Fn(i32, i32) -> i32>(
    v0: PathFinderView,
    pre: PathFinderView,
    w: PathFinderView,
    score: Option<&S>,
)
    requires
        pre.wf(),
        v0.arrays_ok(),
        search_frame(v0, pre),
        same_path_flags(v0, pre),
        can_finish(pre),
        !open_set_empty(pre),
        lowest_open(pre) == pre.end,
        exists|k: nat| chain(pre, pre.end, k),
        step_post(pre, w, 0, score),
    ensures
        search_result(v0, w),
{
    let wm = PathFinderView { has_path: pre.has_path, ..w };
    lemma_route_frame(pre, wm);
    assert(search_frame(pre, w));
    lemma_search_frame_trans(v0, pre, w);
    let k = choose|k: nat| chain(pre, pre.end, k);
    lemma_chain_frame(pre, w, pre.end, k);
    assert(w.parents == pre.parents);
    assert forall|i: int| 0 <= i < PATH_FINDER_MAX_CELLS implies is_path_flag(
        #[trigger] w.state[i],
    ) == (on_route(w, i) || is_path_flag(v0.state[i])) by {
        lemma_set_path(pre.state[i]);
        assert(wm.state[i] == w.state[i]);
        assert(on_route(w, i) == on_route(pre, i));
    }
    let kr = choose|k: nat| reaches_start(pre, k);
    assert(reaches_start(w, kr));
}

/// A step that goes on keeps the loop's invariants and lowers the measure.
pub proof fn lemma_continue_step<S: Fn(i32, i32) -> i32>(
    v0: PathFinderView,
    pre: PathFinderView,
    w: PathFinderView,
    score: Option<&S>,
    m0: int,
)
    requires
        pre.wf(),
        v0.arrays_ok(),
        search_frame(v0, pre),
        same_path_flags(v0, pre),
        tree_ok(pre),
        frontier_inv(pre),
        0 <= measure(pre) <= m0,
        g_bounded(pre, m0 - measure(pre)),
        step_post(pre, w, 1, score),
    ensures
        w.wf(),
        search_frame(v0, w),
        same_path_flags(v0, w),
        tree_ok(w),
        frontier_inv(w),
        0 <= measure(w) < measure(pre),
        g_bounded(w, m0 - measure(w)),
        w.start == pre.start,
        w.end == pre.end,
{
    let cur = lowest_open(pre);
    lemma_best_open(pre.state, pre.f_score, pre.count());
    lemma_expanded_measure(pre, w, cur, score);
    lemma_expanded_g_bounded(pre, w, cur, score, m0 - measure(pre));
    lemma_expanded_tree(pre, w, cur, score);
    lemma_expanded_frame(pre, w, cur, score);
    lemma_search_frame_trans(v0, pre, w);
    lemma_expanded_path_flags(pre, w, cur, score);
    lemma_expanded_frontier(pre, w, score);
    lemma_weight_sum_bounds(w.state, w.count());
}

// ---------------------------------------------------------------------------
// Reachability

/// `cells` starts at the start cell and each later cell is a passable
/// active neighbour of the cell before it.
pub open spec fn is_walk(v: PathFinderView, cells: Seq<int>) -> bool {
    &&& cells.len() > 0
    &&& cells[0] == v.start
    &&& forall|j: int|
        0 < j < cells.len() ==> {
            &&& v.in_grid(#[trigger] cells[j])
            &&& is_passable_flag(v.state[cells[j]])
            &&& v.in_grid(cells[j - 1])
            &&& is_neighbor(v, cells[j - 1], cells[j])
        }
}

/// The end cell can be reached from the start cell through passable cells
/// by 4-connected moves.
pub open spec fn connected(v: PathFinderView) -> bool {
    exists|cells: Seq<int>| is_walk(v, cells) && cells.last() == v.end
}

/// The cells of a chain, from the start cell to `i`.
pub open spec fn chain_cells(v: PathFinderView, i: int, k: nat) -> Seq<int>
    decreases k,
{
    if i == v.start || k == 0 {
        seq![i]
    } else {
        chain_cells(v, v.parents[i] as int, (k - 1) as nat).push(i)
    }
}

pub proof fn lemma_chain_walk(v: PathFinderView, i: int, k: nat)
    requires
        chain(v, i, k),
    ensures
        is_walk(v, chain_cells(v, i, k)),
        chain_cells(v, i, k).last() == i,
    decreases k,
{
    if i != v.start {
        let k1 = (k - 1) as nat;
        let p = v.parents[i] as int;
        lemma_chain_walk(v, p, k1);
        let c = chain_cells(v, p, k1);
        let d = c.push(i);
        assert(chain_cells(v, i, k) == d);
        assert forall|j: int| 0 < j < d.len() implies {
            &&& v.in_grid(#[trigger] d[j])
            &&& is_passable_flag(v.state[d[j]])
            &&& v.in_grid(d[j - 1])
            &&& is_neighbor(v, d[j - 1], d[j])
        } by {
            if j < c.len() {
                assert(d[j] == c[j] && d[j - 1] == c[j - 1]);
            } else {
                assert(d[j - 1] == c.last());
            }
        }
    }
}

pub proof fn lemma_walk_frame(v: PathFinderView, w: PathFinderView, cells: Seq<int>)
    requires
        v.arrays_ok(),
        search_frame(v, w),
        is_walk(w, cells),
    ensures
        is_walk(v, cells),
{
    assert forall|j: int| 0 < j < cells.len() implies {
        &&& v.in_grid(#[trigger] cells[j])
        &&& is_passable_flag(v.state[cells[j]])
        &&& v.in_grid(cells[j - 1])
        &&& is_neighbor(v, cells[j - 1], cells[j])
    } by {
        assert(is_passable_flag(w.state[cells[j]]));
    }
}

} // verus!
