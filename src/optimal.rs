//! Without a scoring callback the search finds a shortest route: the
//! Manhattan heuristic changes by at most one between neighbours, so every
//! cell is expanded with the g-score of a shortest walk to it.

use vstd::prelude::*;

use vstd::arithmetic::div_mod::{
    lemma_fundamental_div_mod, lemma_fundamental_div_mod_converse, lemma_mod_pos_bound,
};

use crate::grid::{
    is_closed_flag, is_open_flag, is_passable_flag, PathFinderView,
};
use crate::model::{
    bottom_of, expanded, is_neighbor, lemma_best_open, lemma_open_to_closed, lemma_set_closed,
    lemma_set_open, left_of, lowest_open, manhattan, open_set_empty, right_of, step_cell, top_of,
};
use crate::progress::{expanded_cell, frontier_inv, is_walk, lemma_expanded_frame, search_frame};
use crate::replay::improves;

verus! {

/// `cells` is a walk from the start cell to `c`.
pub open spec fn walk_to(v: PathFinderView, cells: Seq<int>, c: int) -> bool {
    is_walk(v, cells) && cells.last() == c
}

/// The shortest walks from the start cell to `c` make `d` moves.
pub open spec fn shortest(v: PathFinderView, c: int, d: int) -> bool {
    &&& exists|cells: Seq<int>| #[trigger] walk_to(v, cells, c) && cells.len() == d + 1
    &&& forall|cells: Seq<int>| #[trigger] walk_to(v, cells, c) ==> cells.len() >= d + 1
}

/// Column and row of `a` in a grid of `cols` columns.
proof fn lemma_col_row(cols: int, a: int)
    requires
        cols >= 1,
        a >= 0,
    ensures
        a == (a / cols) * cols + a % cols,
        0 <= a % cols < cols,
        a / cols >= 0,
{
    lemma_fundamental_div_mod(a, cols);
    lemma_mod_pos_bound(a, cols);
    assert((a / cols) * cols == cols * (a / cols)) by (nonlinear_arith);
    assert(a / cols >= 0) by (nonlinear_arith)
        requires
            a >= 0,
            cols >= 1,
            a == cols * (a / cols) + a % cols,
            0 <= a % cols < cols,
    ;
}

/// Between neighbours the heuristic changes by at most one.
pub proof fn lemma_manhattan_step(v: PathFinderView, a: int, b: int)
    requires
        v.cols >= 1,
        0 <= a,
        0 <= v.end,
        is_neighbor(v, a, b),
    ensures
        manhattan(v, a) <= manhattan(v, b) + 1,
        manhattan(v, b) <= manhattan(v, a) + 1,
{
    let c = v.cols;
    lemma_col_row(c, a);
    lemma_col_row(c, b);
    let q = a / c;
    let r = a % c;
    if b == left_of(v, a) {
        assert(r != 0);
        lemma_fundamental_div_mod_converse(b, c, q, r - 1);
    } else if b == right_of(v, a) {
        lemma_col_row(c, a + 1);
        if r + 1 == c {
            assert((q + 1) * c == q * c + c) by (nonlinear_arith);
            lemma_fundamental_div_mod_converse(a + 1, c, q + 1, 0);
        }
        lemma_fundamental_div_mod_converse(b, c, q, r + 1);
    } else if b == top_of(v, a) {
        assert((q - 1) * c == q * c - c) by (nonlinear_arith);
        assert(q >= 1) by (nonlinear_arith)
            requires
                b == q * c + r - c,
                b >= 0,
                0 <= r < c,
        ;
        lemma_fundamental_div_mod_converse(b, c, q - 1, r);
    } else {
        assert(b == bottom_of(v, a));
        assert((q + 1) * c == q * c + c) by (nonlinear_arith);
        lemma_fundamental_div_mod_converse(b, c, q + 1, r);
    }
}

/// Along a walk the heuristic falls by at most one per move.
pub proof fn lemma_manhattan_along(v: PathFinderView, cells: Seq<int>, j: int, m: int)
    requires
        v.cols >= 1,
        0 <= v.end,
        is_walk(v, cells),
        0 <= j <= m < cells.len(),
    ensures
        manhattan(v, cells[j]) <= manhattan(v, cells[m]) + (m - j),
    decreases m - j,
{
    if j < m {
        lemma_manhattan_along(v, cells, j + 1, m);
        assert(is_neighbor(v, cells[j], cells[j + 1]));
        assert(v.in_grid(cells[j]));
        lemma_manhattan_step(v, cells[j], cells[j + 1]);
    }
}

/// A walk whose first cell is expanded and whose `m`-th is not leaves the
/// expanded cells somewhere before.
pub proof fn lemma_first_gap(v: PathFinderView, cells: Seq<int>, m: int)
    requires
        0 < m < cells.len(),
        expanded_cell(v, cells[0]),
        !expanded_cell(v, cells[m]),
    ensures
        exists|j: int|
            1 <= j <= m && expanded_cell(v, cells[j - 1]) && !expanded_cell(v, #[trigger] cells[j]),
    decreases m,
{
    if !expanded_cell(v, cells[m - 1]) {
        lemma_first_gap(v, cells, m - 1);
    } else {
        assert(expanded_cell(v, cells[m - 1]) && !expanded_cell(v, cells[m]));
    }
}

/// A walk stays one when passability and configuration are kept.
pub proof fn lemma_walk_same(v: PathFinderView, w: PathFinderView, cells: Seq<int>)
    requires
        v.arrays_ok(),
        search_frame(v, w),
    ensures
        is_walk(v, cells) == is_walk(w, cells),
{
    if is_walk(v, cells) {
        assert forall|j: int| 0 < j < cells.len() implies {
            &&& w.in_grid(#[trigger] cells[j])
            &&& is_passable_flag(w.state[cells[j]])
            &&& w.in_grid(cells[j - 1])
            &&& is_neighbor(w, cells[j - 1], cells[j])
        } by {
            assert(is_passable_flag(w.state[cells[j]]) == is_passable_flag(v.state[cells[j]]));
        }
    }
    if is_walk(w, cells) {
        assert forall|j: int| 0 < j < cells.len() implies {
            &&& v.in_grid(#[trigger] cells[j])
            &&& is_passable_flag(v.state[cells[j]])
            &&& v.in_grid(cells[j - 1])
            &&& is_neighbor(v, cells[j - 1], cells[j])
        } by {
            assert(is_passable_flag(w.state[cells[j]]) == is_passable_flag(v.state[cells[j]]));
        }
    }
}

/// Some walk from the start cell reaches `i` in `g_score[i]` moves.
pub open spec fn reached(v: PathFinderView, i: int) -> bool {
    exists|cells: Seq<int>| #[trigger] walk_to(v, cells, i) && cells.len() == v.g_score[i] + 1
}

/// What a search without a scoring callback keeps: the start cell's
/// g-score is 0; every open or expanded cell's g-score is the length of
/// some walk to it; no walk to an expanded cell is shorter than its
/// g-score; an open neighbour of an expanded cell has a g-score at most one
/// above it; an open cell other than the start has f-score g plus the
/// heuristic; no open cell is closed.
pub open spec fn optimal_inv(v: PathFinderView) -> bool {
    &&& v.g_score[v.start] == 0
    &&& forall|i: int|
        #![trigger v.state[i]]
        v.in_grid(i) && (is_open_flag(v.state[i]) || expanded_cell(v, i)) ==> reached(v, i)
    &&& forall|c: int, cells: Seq<int>|
        expanded_cell(v, c) && #[trigger] walk_to(v, cells, c) ==> cells.len() >= v.g_score[c] + 1
    &&& forall|c: int, n: int|
        expanded_cell(v, c) && #[trigger] is_neighbor(v, c, n) && is_open_flag(v.state[n])
            ==> v.g_score[n] <= v.g_score[c] + 1
    &&& forall|i: int|
        v.in_grid(i) && is_open_flag(#[trigger] v.state[i]) && i != v.start ==> v.f_score[i]
            == v.g_score[i] + manhattan(v, i)
    &&& forall|i: int|
        v.in_grid(i) && is_open_flag(#[trigger] v.state[i]) ==> !is_closed_flag(v.state[i])
}

/// The cell a step selects is reached by no walk shorter than its g-score.
pub proof fn lemma_selected_shortest(v: PathFinderView)
    requires
        v.wf(),
        frontier_inv(v),
        optimal_inv(v),
        !open_set_empty(v),
    ensures
        forall|cells: Seq<int>|
            #[trigger] walk_to(v, cells, lowest_open(v)) ==> cells.len() >= v.g_score[lowest_open(
                v,
            )] + 1,
{
    let cur = lowest_open(v);
    lemma_best_open(v.state, v.f_score, v.count());
    assert(is_open_flag(v.state[cur]));
    assert forall|cells: Seq<int>| #[trigger] walk_to(v, cells, cur) implies cells.len()
        >= v.g_score[cur] + 1 by {
        let m = cells.len() - 1;
        if !is_closed_flag(v.state[v.start]) {
            assert(cur == v.start);
        } else {
            assert(expanded_cell(v, cells[0]));
            assert(!is_closed_flag(v.state[cur]));
            assert(!expanded_cell(v, cells[m]));
            lemma_first_gap(v, cells, m);
            let j = choose|j: int|
                1 <= j <= m && expanded_cell(v, cells[j - 1]) && !expanded_cell(
                    v,
                    #[trigger] cells[j],
                );
            let x = cells[j];
            let p = cells[j - 1];
            assert(v.in_grid(x) && is_passable_flag(v.state[x]) && is_neighbor(v, p, x));
            assert(!is_closed_flag(v.state[x]));
            assert(is_open_flag(v.state[x]));
            assert(v.g_score[x] <= v.g_score[p] + 1);
            let prefix = cells.subrange(0, j);
            assert forall|k: int| 0 < k < prefix.len() implies {
                &&& v.in_grid(#[trigger] prefix[k])
                &&& is_passable_flag(v.state[prefix[k]])
                &&& v.in_grid(prefix[k - 1])
                &&& is_neighbor(v, prefix[k - 1], prefix[k])
            } by {
                assert(prefix[k] == cells[k] && prefix[k - 1] == cells[k - 1]);
            }
            assert(walk_to(v, prefix, p));
            assert(prefix.len() >= v.g_score[p] + 1);
            lemma_manhattan_along(v, cells, j, m);
            assert(v.f_score[cur] <= v.f_score[x]);
            assert(x != v.start);
            assert(cur != v.start);
        }
    }
}

/// Without a scoring callback, an expansion keeps `optimal_inv`.
pub proof fn lemma_expanded_optimal<S: Fn(i32, i32) -> i32>(
    v: PathFinderView,
    w: PathFinderView,
    score: Option<&S>,
)
    requires
        v.wf(),
        score is None,
        frontier_inv(v),
        optimal_inv(v),
        !open_set_empty(v),
        lowest_open(v) != v.end,
        expanded(v, w, lowest_open(v), score),
    ensures
        optimal_inv(w),
{
    let cur = lowest_open(v);
    lemma_best_open(v.state, v.f_score, v.count());
    lemma_expanded_frame(v, w, cur, score);
    lemma_selected_shortest(v);
    assert(step_cell(v, w, cur, cur, score));
    lemma_open_to_closed(v.state[cur]);
    if !is_closed_flag(v.state[v.start]) {
        assert(cur == v.start);
    }
    assert(w.g_score[w.start] == 0) by {
        assert(step_cell(v, w, cur, v.start, score));
    }
    assert forall|i: int|
        #![trigger w.state[i]]
        w.in_grid(i) && (is_open_flag(w.state[i]) || expanded_cell(w, i)) implies reached(w, i) by {
        assert(step_cell(v, w, cur, i, score));
        lemma_open_to_closed(v.state[i]);
        lemma_set_closed(v.state[i]);
        lemma_set_open(v.state[i]);
        if improves(v, cur, i) {
            let c = choose|cells: Seq<int>|
                #[trigger] walk_to(v, cells, cur) && cells.len() == v.g_score[cur] + 1;
            let d = c.push(i);
            assert forall|k: int| 0 < k < d.len() implies {
                &&& v.in_grid(#[trigger] d[k])
                &&& is_passable_flag(v.state[d[k]])
                &&& v.in_grid(d[k - 1])
                &&& is_neighbor(v, d[k - 1], d[k])
            } by {
                if k < c.len() {
                    assert(d[k] == c[k] && d[k - 1] == c[k - 1]);
                }
            }
            lemma_walk_same(v, w, d);
            assert(walk_to(w, d, i));
        } else {
            assert(v.in_grid(i) && (is_open_flag(v.state[i]) || expanded_cell(v, i)));
            let c = choose|cells: Seq<int>|
                #[trigger] walk_to(v, cells, i) && cells.len() == v.g_score[i] + 1;
            lemma_walk_same(v, w, c);
            assert(walk_to(w, c, i));
        }
    }
    assert forall|c: int, cells: Seq<int>|
        expanded_cell(w, c) && #[trigger] walk_to(w, cells, c) implies cells.len() >= w.g_score[c]
        + 1 by {
        assert(step_cell(v, w, cur, c, score));
        lemma_open_to_closed(v.state[c]);
        lemma_set_closed(v.state[c]);
        lemma_set_open(v.state[c]);
        lemma_walk_same(v, w, cells);
        assert(walk_to(v, cells, c));
    }
    assert forall|c: int, n: int|
        expanded_cell(w, c) && #[trigger] is_neighbor(w, c, n) && is_open_flag(w.state[n]) implies w.g_score[n]
        <= w.g_score[c] + 1 by {
        assert(step_cell(v, w, cur, c, score));
        assert(step_cell(v, w, cur, n, score));
        lemma_open_to_closed(v.state[c]);
        lemma_set_closed(v.state[c]);
        lemma_set_open(v.state[c]);
        lemma_open_to_closed(v.state[n]);
        lemma_set_closed(v.state[n]);
        lemma_set_open(v.state[n]);
        assert(is_neighbor(v, c, n));
        if c != cur {
            assert(expanded_cell(v, c));
        }
    }
    assert forall|i: int|
        w.in_grid(i) && is_open_flag(#[trigger] w.state[i]) && i != w.start implies w.f_score[i]
        == w.g_score[i] + manhattan(w, i) by {
        assert(step_cell(v, w, cur, i, score));
        lemma_open_to_closed(v.state[i]);
        lemma_set_closed(v.state[i]);
        lemma_set_open(v.state[i]);
        assert(manhattan(w, i) == manhattan(v, i));
    }
    assert forall|i: int| w.in_grid(i) && is_open_flag(#[trigger] w.state[i]) implies !is_closed_flag(
        w.state[i],
    ) by {
        assert(step_cell(v, w, cur, i, score));
        lemma_open_to_closed(v.state[i]);
        lemma_set_closed(v.state[i]);
        lemma_set_open(v.state[i]);
    }
}

/// When the end cell is selected, its g-score is the length of a shortest
/// walk to it.
pub proof fn lemma_found_shortest(v0: PathFinderView, v: PathFinderView)
    requires
        v0.arrays_ok(),
        v.wf(),
        search_frame(v0, v),
        frontier_inv(v),
        optimal_inv(v),
        !open_set_empty(v),
        lowest_open(v) == v.end,
    ensures
        shortest(v0, v0.end, v.g_score[v.end] as int),
{
    lemma_best_open(v.state, v.f_score, v.count());
    lemma_selected_shortest(v);
    assert(reached(v, v.end));
    let c = choose|cells: Seq<int>|
        #[trigger] walk_to(v, cells, v.end) && cells.len() == v.g_score[v.end] + 1;
    lemma_walk_same(v0, v, c);
    assert(walk_to(v0, c, v0.end));
    assert forall|cells: Seq<int>| #[trigger] walk_to(v0, cells, v0.end) implies cells.len()
        >= v.g_score[v.end] + 1 by {
        lemma_walk_same(v0, v, cells);
        assert(walk_to(v, cells, v.end));
    }
}

} // verus!
