//! Spec functions that describe the search, and the lemmas about them.

use vstd::prelude::*;

use crate::grid::{
    is_closed_flag, is_open_flag, is_passable_flag, is_path_flag, PathFinderView,
    EXTRA_SCORE_LIMIT, PATH_FINDER_MAX_CELLS,
};

verus! {

// ---------------------------------------------------------------------------
// Flag arithmetic

pub proof fn lemma_set_open(s: u8)
    by (bit_vector)
    ensures
        is_open_flag(s | 0x2u8),
        (s | 0x2u8) | 0x2u8 == s | 0x2u8,
        (s | 0x2u8) & 0xf1u8 == s & 0xf1u8,
        is_closed_flag(s | 0x2u8) == is_closed_flag(s),
        is_passable_flag(s | 0x2u8) == is_passable_flag(s),
        is_path_flag(s | 0x2u8) == is_path_flag(s),
{
}

pub proof fn lemma_set_closed(s: u8)
    by (bit_vector)
    ensures
        is_closed_flag(s | 0x4u8),
        (s | 0x4u8) & 0xf1u8 == s & 0xf1u8,
        is_open_flag(s | 0x4u8) == is_open_flag(s),
        is_passable_flag(s | 0x4u8) == is_passable_flag(s),
        is_path_flag(s | 0x4u8) == is_path_flag(s),
{
}

pub proof fn lemma_set_path(s: u8)
    by (bit_vector)
    ensures
        is_path_flag(s | 0x8u8),
        (s | 0x8u8) & 0xf1u8 == s & 0xf1u8,
        (s | 0x8u8) | 0x8u8 == s | 0x8u8,
        is_open_flag(s | 0x8u8) == is_open_flag(s),
        is_closed_flag(s | 0x8u8) == is_closed_flag(s),
        is_passable_flag(s | 0x8u8) == is_passable_flag(s),
{
}

pub proof fn lemma_open_to_closed(s: u8)
    by (bit_vector)
    ensures
        is_closed_flag((s & 0xfdu8) | 0x4u8),
        ((s & 0xfdu8) | 0x4u8) & 0xf1u8 == s & 0xf1u8,
        !is_open_flag((s & 0xfdu8) | 0x4u8),
        is_passable_flag((s & 0xfdu8) | 0x4u8) == is_passable_flag(s),
        is_path_flag((s & 0xfdu8) | 0x4u8) == is_path_flag(s),
{
}

pub proof fn lemma_clear_open(s: u8)
    by (bit_vector)
    ensures
        s & !0x2u8 == s & 0xfdu8,
{
}

pub proof fn lemma_flag_tests(s: u8)
    by (bit_vector)
    ensures
        (s & 0x1u8 == 0) == !is_passable_flag(s),
        (s & 0x2u8 == 0) == !is_open_flag(s),
        (s & 0x4u8 == 0) == !is_closed_flag(s),
        (s & 0x8u8 == 0) == !is_path_flag(s),
{
}

pub proof fn lemma_set_passable(s: u8)
    by (bit_vector)
    ensures
        is_passable_flag(s | 0x1u8),
        !is_passable_flag(s & 0xfeu8),
        (s | 0x1u8) & 0xfeu8 == s & 0xfeu8,
        (s & 0xfeu8) & 0xfeu8 == s & 0xfeu8,
        s & !0x1u8 == s & 0xfeu8,
{
}

pub proof fn lemma_clear_progress(s: u8)
    by (bit_vector)
    ensures
        !is_open_flag(s & 0xf1u8),
        !is_closed_flag(s & 0xf1u8),
        !is_path_flag(s & 0xf1u8),
        is_passable_flag(s & 0xf1u8) == is_passable_flag(s),
        s & !(0x2u8 | 0x4u8 | 0x8u8) == s & 0xf1u8,
{
}

// ---------------------------------------------------------------------------
// Frontier

/// No cell of the active grid is open.
pub open spec fn open_set_empty(v: PathFinderView) -> bool {
    forall|i: int| 0 <= i < v.count() ==> !is_open_flag(#[trigger] v.state[i])
}

/// Index of the open cell with the least f-score among the first `n`
/// cells, the first one on ties; -1 when none of them is open.
pub open spec fn best_open(state: Seq<u8>, f_score: Seq<i32>, n: int) -> int
    decreases n,
{
    if n <= 0 {
        -1
    } else {
        let b = best_open(state, f_score, n - 1);
        if is_open_flag(state[n - 1]) && (b < 0 || f_score[n - 1] < f_score[b]) {
            n - 1
        } else {
            b
        }
    }
}

/// The cell the next step expands: the lowest open cell, or 0 when the
/// open set is empty.
pub open spec fn lowest_open(v: PathFinderView) -> int {
    let b = best_open(v.state, v.f_score, v.count());
    if b < 0 {
        0
    } else {
        b
    }
}

/// What `best_open` picks, stated directly.
pub proof fn lemma_best_open(state: Seq<u8>, f_score: Seq<i32>, n: int)
    requires
        0 <= n <= state.len(),
        n <= f_score.len(),
    ensures
        ({
            let b = best_open(state, f_score, n);
            &&& -1 <= b < n
            &&& (b < 0 <==> forall|i: int| 0 <= i < n ==> !is_open_flag(#[trigger] state[i]))
            &&& b >= 0 ==> {
                &&& is_open_flag(state[b])
                &&& forall|i: int|
                    0 <= i < n && is_open_flag(#[trigger] state[i]) ==> f_score[b] <= f_score[i]
                &&& forall|i: int|
                    0 <= i < b && is_open_flag(#[trigger] state[i]) ==> f_score[b] < f_score[i]
            }
        }),
    decreases n,
{
    if n > 0 {
        lemma_best_open(state, f_score, n - 1);
    }
}

// ---------------------------------------------------------------------------
// Heuristic

pub open spec fn abs_diff(a: int, b: int) -> int {
    if a > b {
        a - b
    } else {
        b - a
    }
}

/// Manhattan distance from `cell` to the end cell.
pub open spec fn manhattan(v: PathFinderView, cell: int) -> int {
    abs_diff(cell % v.cols, v.end % v.cols) + abs_diff(cell / v.cols, v.end / v.cols)
}


// ---------------------------------------------------------------------------
// Parent chains and route marking

/// The cell reached from `i` by following `m` parent links.
pub open spec fn follow(parents: Seq<i32>, i: int, m: nat) -> int
    decreases m,
{
    if m == 0 {
        i
    } else {
        parents[follow(parents, i, (m - 1) as nat)] as int
    }
}

/// Following parent links from the end cell hits the start cell for the
/// first time after `k` links, through cells inside the arrays.
pub open spec fn reaches_start(v: PathFinderView, k: nat) -> bool {
    &&& follow(v.parents, v.end, k) == v.start
    &&& forall|j: nat|
        j < k ==> {
            &&& #[trigger] follow(v.parents, v.end, j) != v.start
            &&& 0 <= follow(v.parents, v.end, j) < PATH_FINDER_MAX_CELLS
        }
}

/// Cell `i` lies on the parent chain from the end cell, after the end cell
/// and before the start cell.
pub open spec fn on_route(v: PathFinderView, i: int) -> bool {
    exists|j: nat|
        0 < j && #[trigger] follow(v.parents, v.end, j) == i && forall|m: nat|
            m <= j ==> #[trigger] follow(v.parents, v.end, m) != v.start
}

/// `w` is `v` with the path flag set on every cell of the route and on no
/// other cell.
pub open spec fn route_marked(v: PathFinderView, w: PathFinderView) -> bool {
    &&& w == PathFinderView { state: w.state, ..v }
    &&& w.state.len() == v.state.len()
    &&& forall|i: int|
        0 <= i < v.state.len() ==> #[trigger] w.state[i] == if on_route(v, i) {
            v.state[i] | 0x8u8
        } else {
            v.state[i]
        }
}

/// Cell `i` is one of links 1 to `j` of the chain from the end cell and
/// is not the start cell.
pub open spec fn marked_before(v: PathFinderView, j: nat, i: int) -> bool {
    exists|m: nat| 0 < m <= j && #[trigger] follow(v.parents, v.end, m) == i && i != v.start
}

/// A chain that comes back to its first cell repeats with that period.
pub proof fn lemma_follow_period(parents: Seq<i32>, i: int, m: nat, t: nat)
    requires
        follow(parents, i, m) == i,
    ensures
        follow(parents, i, m + t) == follow(parents, i, t),
    decreases t,
{
    if t > 0 {
        lemma_follow_period(parents, i, m, (t - 1) as nat);
        assert(follow(parents, i, m + t) == parents[follow(parents, i, (m + t - 1) as nat)] as int);
    }
}

/// Before it reaches the start cell the chain never comes back to the end
/// cell.
pub proof fn lemma_route_avoids_end(v: PathFinderView, k: nat, m: nat)
    requires
        reaches_start(v, k),
        0 < m < k,
    ensures
        follow(v.parents, v.end, m) != v.end,
{
    if follow(v.parents, v.end, m) == v.end {
        let t = (k - m) as nat;
        lemma_follow_period(v.parents, v.end, m, t);
        assert(follow(v.parents, v.end, t) != v.start);
    }
}

/// The route is the chain cells strictly between the end and the k-th link.
pub proof fn lemma_on_route_bounded(v: PathFinderView, k: nat, i: int)
    requires
        reaches_start(v, k),
    ensures
        on_route(v, i) <==> exists|j: nat| 0 < j < k && #[trigger] follow(v.parents, v.end, j) == i,
{
    if on_route(v, i) {
        let j = choose|j: nat|
            0 < j && #[trigger] follow(v.parents, v.end, j) == i && forall|m: nat|
                m <= j ==> #[trigger] follow(v.parents, v.end, m) != v.start;
        if j >= k {
            assert(follow(v.parents, v.end, k) != v.start);
        }
        assert(0 < j < k && follow(v.parents, v.end, j) == i);
    }
    if exists|j: nat| 0 < j < k && #[trigger] follow(v.parents, v.end, j) == i {
        let j = choose|j: nat| 0 < j < k && #[trigger] follow(v.parents, v.end, j) == i;
        assert forall|m: nat| m <= j implies #[trigger] follow(v.parents, v.end, m) != v.start by {
            assert(m < k);
        }
    }
}


// ---------------------------------------------------------------------------
// One expansion step

/// Left neighbour slot of `cur`; -1 in the first column.
pub open spec fn left_of(v: PathFinderView, cur: int) -> int {
    if cur % v.cols == 0 {
        -1
    } else {
        cur - 1
    }
}

pub open spec fn top_of(v: PathFinderView, cur: int) -> int {
    cur - v.cols
}

/// Right neighbour slot of `cur`; -1 in the last column.
pub open spec fn right_of(v: PathFinderView, cur: int) -> int {
    if (cur + 1) % v.cols == 0 {
        -1
    } else {
        cur + 1
    }
}

pub open spec fn bottom_of(v: PathFinderView, cur: int) -> int {
    cur + v.cols
}

/// `n` is an active cell next to `cur` (left, top, right or bottom).
pub open spec fn is_neighbor(v: PathFinderView, cur: int, n: int) -> bool {
    &&& v.in_grid(n)
    &&& (n == left_of(v, cur) || n == top_of(v, cur) || n == right_of(v, cur) || n == bottom_of(
        v,
        cur,
    ))
}

/// The four values of cell `i` agree in `v` and `w`.
pub open spec fn same_cell(v: PathFinderView, w: PathFinderView, i: int) -> bool {
    &&& w.state[i] == v.state[i]
    &&& w.parents[i] == v.parents[i]
    &&& w.g_score[i] == v.g_score[i]
    &&& w.f_score[i] == v.f_score[i]
}

/// The scoring callback accepts every cell and keeps its extra term within
/// `EXTRA_SCORE_LIMIT`.
pub open spec fn scorer_ok<S: Fn(i32, i32) -> i32>(score: Option<&S>) -> bool {
    match score {
        None => true,
        Some(f) => {
            &&& forall|col: i32, row: i32| f.requires((col, row))
            &&& forall|col: i32, row: i32, e: i32|
                f.ensures((col, row), e) ==> -EXTRA_SCORE_LIMIT <= e <= EXTRA_SCORE_LIMIT
        },
    }
}

/// `e` is an extra term that the scoring callback can give for the cell at
/// `col`, `row`; without a callback it is 0.
pub open spec fn extra_ok<S: Fn(i32, i32) -> i32>(
    score: Option<&S>,
    col: int,
    row: int,
    e: int,
) -> bool {
    match score {
        None => e == 0,
        Some(f) => {
            &&& -EXTRA_SCORE_LIMIT <= e <= EXTRA_SCORE_LIMIT
            &&& f.ensures((col as i32, row as i32), e as i32)
        },
    }
}

/// Cell `n` of `w` is cell `n` of `v` relaxed from `cur` with tentative
/// g-score `g`: an impassable cell is closed, a passable one that is not yet
/// open or gets a better g-score takes `cur` as parent and is opened, a
/// closed one is left alone.
pub open spec fn relaxed<S: Fn(i32, i32) -> i32>(
    v: PathFinderView,
    w: PathFinderView,
    cur: int,
    n: int,
    g: int,
    score: Option<&S>,
) -> bool {
    let s = v.state[n];
    if is_closed_flag(s) {
        same_cell(v, w, n)
    } else if !is_passable_flag(s) {
        &&& w.state[n] == s | 0x4u8
        &&& w.parents[n] == v.parents[n]
        &&& w.g_score[n] == v.g_score[n]
        &&& w.f_score[n] == v.f_score[n]
    } else if !is_open_flag(s) || g < v.g_score[n] {
        &&& w.state[n] == s | 0x2u8
        &&& w.parents[n] == cur
        &&& w.g_score[n] == g
        &&& extra_ok(score, n % v.cols, n / v.cols, w.f_score[n] - g - manhattan(v, n))
    } else {
        same_cell(v, w, n)
    }
}

/// A relaxation stays one when the cell's old values are read from a view
/// that agrees on it, and its new values from a later view that agrees on it.
pub proof fn lemma_relaxed_transfer<S: Fn(i32, i32) -> i32>(
    v: PathFinderView,
    v1: PathFinderView,
    w1: PathFinderView,
    w: PathFinderView,
    cur: int,
    n: int,
    g: int,
    score: Option<&S>,
)
    requires
        same_cell(v, v1, n),
        v1.cols == v.cols,
        v1.end == v.end,
        relaxed(v1, w1, cur, n, g, score),
        same_cell(w1, w, n),
    ensures
        relaxed(v, w, cur, n, g, score),
{
    assert(manhattan(v1, n) == manhattan(v, n));
}

/// Cell `i` after expanding `cur`: `cur` leaves the open set for the closed
/// set, each active neighbour is relaxed, every other cell is unchanged.
pub open spec fn step_cell<S: Fn(i32, i32) -> i32>(
    v: PathFinderView,
    w: PathFinderView,
    cur: int,
    i: int,
    score: Option<&S>,
) -> bool {
    if i == cur {
        &&& w.state[i] == (v.state[i] & 0xfdu8) | 0x4u8
        &&& w.parents[i] == v.parents[i]
        &&& w.g_score[i] == v.g_score[i]
        &&& w.f_score[i] == v.f_score[i]
    } else if is_neighbor(v, cur, i) {
        relaxed(v, w, cur, i, v.g_score[cur] + 1, score)
    } else {
        same_cell(v, w, i)
    }
}

/// `w` is `v` after expanding cell `cur`.
pub open spec fn expanded<S: Fn(i32, i32) -> i32>(
    v: PathFinderView,
    w: PathFinderView,
    cur: int,
    score: Option<&S>,
) -> bool {
    &&& w == PathFinderView {
        state: w.state,
        parents: w.parents,
        g_score: w.g_score,
        f_score: w.f_score,
        ..v
    }
    &&& w.state.len() == PATH_FINDER_MAX_CELLS
    &&& w.parents.len() == PATH_FINDER_MAX_CELLS
    &&& w.g_score.len() == PATH_FINDER_MAX_CELLS
    &&& w.f_score.len() == PATH_FINDER_MAX_CELLS
    &&& forall|i: int| 0 <= i < PATH_FINDER_MAX_CELLS ==> #[trigger] step_cell(v, w, cur, i, score)
}

/// Every open cell of the active grid has a g-score in `0..=b`.
pub open spec fn g_bounded(v: PathFinderView, b: int) -> bool {
    forall|i: int|
        0 <= i < v.count() && is_open_flag(#[trigger] v.state[i]) ==> 0 <= v.g_score[i] <= b
}

/// A step on `v` may end the search with reconstruction only where the
/// parent chain from the end cell reaches the start cell.
pub open spec fn can_finish(v: PathFinderView) -> bool {
    !open_set_empty(v) && lowest_open(v) == v.end ==> exists|k: nat| reaches_start(v, k)
}

/// What one step does to `v`, giving `w` and the continue flag `r`.
pub open spec fn step_post<S: Fn(i32, i32) -> i32>(
    v: PathFinderView,
    w: PathFinderView,
    r: u8,
    score: Option<&S>,
) -> bool {
    let cur = lowest_open(v);
    if open_set_empty(v) {
        &&& r == 0
        &&& w == PathFinderView { has_path: 0, ..v }
    } else if cur == v.end {
        &&& r == 0
        &&& w.has_path == 1
        &&& route_marked(v, PathFinderView { has_path: v.has_path, ..w })
    } else {
        &&& r == 1
        &&& expanded(v, w, cur, score)
    }
}

} // verus!
