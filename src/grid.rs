//! The state block: dimensions, start and end, and four per-cell arrays of
//! fixed capacity (state flags, parent links, g-scores and f-scores).

use vstd::prelude::*;

verus! {

/// Number of cells that every per-cell array holds.
pub const PATH_FINDER_MAX_CELLS: usize = 1024;

/// Flag bit: the cell can be walked on.
pub const PASSABLE: u8 = 0x1;

/// Flag bit: the cell is in the open set (the frontier).
pub const OPEN: u8 = 0x2;

/// Flag bit: the cell has been expanded, or found impassable.
pub const CLOSED: u8 = 0x4;

/// Flag bit: the cell lies on the reconstructed route.
pub const PATH: u8 = 0x8;

/// Largest g-score an open cell may carry when a step is taken; far above
/// any route length on a grid of `PATH_FINDER_MAX_CELLS` cells, and low
/// enough that the scores of a step fit in `i32`.
pub const G_SCORE_LIMIT: i32 = 1048576;

/// Largest magnitude of the extra term a scoring callback may return.
pub const EXTRA_SCORE_LIMIT: i32 = 1073741824;

pub open spec fn is_passable_flag(s: u8) -> bool {
    s & 0x1u8 == 0x1u8
}

pub open spec fn is_open_flag(s: u8) -> bool {
    s & 0x2u8 == 0x2u8
}

pub open spec fn is_closed_flag(s: u8) -> bool {
    s & 0x4u8 == 0x4u8
}

pub open spec fn is_path_flag(s: u8) -> bool {
    s & 0x8u8 == 0x8u8
}

/// The search state block.
///
/// Each of `state`, `parents`, `g_score` and `f_score` holds
/// `PATH_FINDER_MAX_CELLS` entries; only the first `cols * rows` of them
/// take part in a search. A cell's index is `row * cols + col`.
#[derive(Clone, Debug)]
pub struct PathFinder {
    pub cols: i32,
    pub rows: i32,
    pub start: i32,
    pub end: i32,
    pub has_path: u8,
    pub state: Vec<u8>,
    pub parents: Vec<i32>,
    pub g_score: Vec<i32>,
    pub f_score: Vec<i32>,
}

impl PathFinder {
    /// References to the values of the cell at `col`, `row`.
    pub fn cell(&self, col: i32, row: i32) -> (r: CellRef<'_>)
        requires
            self@.arrays_ok(),
            0 <= col < self.cols,
            0 <= row < self.rows,
        ensures
            r@ == self@.cell_at(self@.index_of(col as int, row as int)),
    {
        let index = self.cell_index(col, row);
        CellRef::new(self, index)
    }

    /// References to the values of the active cell at `cell_index`.
    pub fn get(&self, cell_index: usize) -> (r: CellRef<'_>)
        requires
            self@.arrays_ok(),
            cell_index < self@.count(),
        ensures
            r@ == self@.cell_at(cell_index as int),
    {
        CellRef::new(self, cell_index)
    }

    /// Mutable access to the values of the active cell at `cell_index`.
    pub fn get_mut(&mut self, cell_index: usize) -> (r: CellMut<'_>)
        requires
            old(self)@.arrays_ok(),
            cell_index < old(self)@.count(),
        ensures
            *r.state == old(self)@.state[cell_index as int],
            *r.parent == old(self)@.parents[cell_index as int],
            *r.g_score == old(self)@.g_score[cell_index as int],
            *r.f_score == old(self)@.f_score[cell_index as int],
            final(self)@ == (PathFinderView {
                state: old(self)@.state.update(cell_index as int, *final(r.state)),
                parents: old(self)@.parents.update(cell_index as int, *final(r.parent)),
                g_score: old(self)@.g_score.update(cell_index as int, *final(r.g_score)),
                f_score: old(self)@.f_score.update(cell_index as int, *final(r.f_score)),
                ..old(self)@
            }),
    {
        CellMut::new(self, cell_index)
    }

    /// Column and row of the active cell at `cell_index`.
    pub fn col_and_row_from_index(&self, cell_index: usize) -> (r: [i32; 2])
        requires
            self@.arrays_ok(),
            cell_index < self@.count(),
        ensures
            r@ == seq![
                self@.col_of(cell_index as int) as i32,
                self@.row_of(cell_index as int) as i32,
            ],
            self@.index_of(r[0] as int, r[1] as int) == cell_index,
    {
        let cols = self.cols as usize;
        proof {
            let v = self@;
            assert(v.cols >= 1) by (nonlinear_arith)
                requires
                    0 <= cell_index < v.cols * v.rows,
                    v.rows >= 0,
                    v.cols >= 0,
            ;
            assert(cell_index / cols <= cell_index && cell_index == (cell_index / cols) * cols + (
            cell_index % cols)) by (nonlinear_arith)
                requires
                    cols >= 1,
            ;
        }
        let col = cell_index % cols;
        let row = cell_index / cols;
        [col as i32, row as i32]
    }

    /// Flat index `row * cols + col` of an active cell.
    pub fn cell_index(&self, col: i32, row: i32) -> (r: usize)
        requires
            self@.arrays_ok(),
            0 <= col < self.cols,
            0 <= row < self.rows,
        ensures
            r == self@.index_of(col as int, row as int),
            r < self@.count(),
    {
        proof {
            let v = self@;
            assert(0 <= row * v.cols + col < v.cols * v.rows) by (nonlinear_arith)
                requires
                    0 <= col < v.cols,
                    0 <= row < v.rows,
            ;
        }
        (row as usize) * (self.cols as usize) + (col as usize)
    }

    /// Number of cells in the active grid, `cols * rows`.
    pub fn size(&self) -> (r: usize)
        requires
            self@.arrays_ok(),
        ensures
            r == self@.count(),
    {
        proof {
            let v = self@;
            assert(0 <= v.cols * v.rows) by (nonlinear_arith)
                requires
                    0 <= v.cols,
                    0 <= v.rows,
            ;
        }
        (self.cols as usize) * (self.rows as usize)
    }
}

/// A vector of `PATH_FINDER_MAX_CELLS` copies of `x`.
fn filled<T: Copy>(x: T) -> (r: Vec<T>)
    ensures
        r@ == Seq::new(PATH_FINDER_MAX_CELLS as nat, |i: int| x),
{
    let mut r: Vec<T> = Vec::new();
    while r.len() < PATH_FINDER_MAX_CELLS
        invariant
            r.len() <= PATH_FINDER_MAX_CELLS,
            forall|i: int| 0 <= i < r.len() ==> #[trigger] r@[i] == x,
        decreases PATH_FINDER_MAX_CELLS - r.len(),
    {
        r.push(x);
    }
    assert(r@ =~= Seq::new(PATH_FINDER_MAX_CELLS as nat, |i: int| x));
    r
}

impl Default for PathFinder {
    /// An empty grid: zero dimensions, start, end and result, every array
    /// entry zero.
    fn default() -> (r: Self)
        ensures
            r@.all_cells(0, 0, 0, 0),
            r.cols == 0,
            r.rows == 0,
            r.start == 0,
            r.end == 0,
            r.has_path == 0,
    {
        PathFinder {
            cols: 0,
            rows: 0,
            start: 0,
            end: 0,
            has_path: 0,
            state: filled(0u8),
            parents: filled(0i32),
            g_score: filled(0i32),
            f_score: filled(0i32),
        }
    }
}

/// Two vectors hold the same values.
fn same_bytes(a: &Vec<u8>, b: &Vec<u8>) -> (r: bool)
    ensures
        r == (a@ == b@),
{
    if a.len() != b.len() {
        return false;
    }
    let mut i: usize = 0;
    while i < a.len()
        invariant
            a.len() == b.len(),
            i <= a.len(),
            forall|j: int| 0 <= j < i ==> #[trigger] a@[j] == b@[j],
        decreases a.len() - i,
    {
        if a[i] != b[i] {
            return false;
        }
        i += 1;
    }
    assert(a@ =~= b@);
    true
}

/// Two vectors hold the same values.
fn same_ints(a: &Vec<i32>, b: &Vec<i32>) -> (r: bool)
    ensures
        r == (a@ == b@),
{
    if a.len() != b.len() {
        return false;
    }
    let mut i: usize = 0;
    while i < a.len()
        invariant
            a.len() == b.len(),
            i <= a.len(),
            forall|j: int| 0 <= j < i ==> #[trigger] a@[j] == b@[j],
        decreases a.len() - i,
    {
        if a[i] != b[i] {
            return false;
        }
        i += 1;
    }
    assert(a@ =~= b@);
    true
}

impl PartialEq for PathFinder {
    fn eq(&self, other: &PathFinder) -> (r: bool)
        ensures
            r == (self@ == other@),
    {
        self.cols == other.cols && self.rows == other.rows && self.start == other.start
            && self.end == other.end && self.has_path == other.has_path && same_bytes(
            &self.state,
            &other.state,
        ) && same_ints(&self.parents, &other.parents) && same_ints(
            &self.g_score,
            &other.g_score,
        ) && same_ints(&self.f_score, &other.f_score)
    }
}

impl vstd::std_specs::cmp::PartialEqSpecImpl for PathFinder {
    open spec fn obeys_eq_spec() -> bool {
        true
    }

    open spec fn eq_spec(&self, other: &PathFinder) -> bool {
        self@ == other@
    }
}

/// Mathematical model of a `PathFinder`.
pub ghost struct PathFinderView {
    pub cols: int,
    pub rows: int,
    pub start: int,
    pub end: int,
    pub has_path: u8,
    pub state: Seq<u8>,
    pub parents: Seq<i32>,
    pub g_score: Seq<i32>,
    pub f_score: Seq<i32>,
}

impl View for PathFinder {
    type V = PathFinderView;

    open spec fn view(&self) -> PathFinderView {
        PathFinderView {
            cols: self.cols as int,
            rows: self.rows as int,
            start: self.start as int,
            end: self.end as int,
            has_path: self.has_path,
            state: self.state@,
            parents: self.parents@,
            g_score: self.g_score@,
            f_score: self.f_score@,
        }
    }
}

impl PathFinderView {
    /// Number of cells in the active grid.
    pub open spec fn count(self) -> int {
        self.cols * self.rows
    }

    /// The arrays have their fixed capacity and the grid fits in it.
    pub open spec fn arrays_ok(self) -> bool {
        &&& self.state.len() == PATH_FINDER_MAX_CELLS
        &&& self.parents.len() == PATH_FINDER_MAX_CELLS
        &&& self.g_score.len() == PATH_FINDER_MAX_CELLS
        &&& self.f_score.len() == PATH_FINDER_MAX_CELLS
        &&& 0 <= self.cols
        &&& 0 <= self.rows
        &&& self.cols * self.rows <= PATH_FINDER_MAX_CELLS
    }

    /// A grid with at least one cell, and start and end inside it.
    pub open spec fn wf(self) -> bool {
        &&& self.arrays_ok()
        &&& 1 <= self.cols
        &&& 1 <= self.rows
        &&& 0 <= self.start < self.count()
        &&& 0 <= self.end < self.count()
    }

    pub open spec fn in_grid(self, i: int) -> bool {
        0 <= i < self.count()
    }

    pub open spec fn index_of(self, col: int, row: int) -> int {
        row * self.cols + col
    }

    pub open spec fn col_of(self, i: int) -> int {
        i % self.cols
    }

    pub open spec fn row_of(self, i: int) -> int {
        i / self.cols
    }

    /// The four values stored for cell `i`.
    pub open spec fn cell_at(self, i: int) -> Cell {
        Cell {
            state: self.state[i],
            parent: self.parents[i],
            g_score: self.g_score[i],
            f_score: self.f_score[i],
        }
    }

    /// The view with every array set to the given fill values.
    pub open spec fn all_cells(self, s: u8, p: i32, g: i32, f: i32) -> bool {
        &&& self.state =~= Seq::new(PATH_FINDER_MAX_CELLS as nat, |i: int| s)
        &&& self.parents =~= Seq::new(PATH_FINDER_MAX_CELLS as nat, |i: int| p)
        &&& self.g_score =~= Seq::new(PATH_FINDER_MAX_CELLS as nat, |i: int| g)
        &&& self.f_score =~= Seq::new(PATH_FINDER_MAX_CELLS as nat, |i: int| f)
    }
}

/// A copy of the four values stored for one cell.
#[derive(Clone, Copy, Debug, Default, PartialEq, Eq, Structural)]
pub struct Cell {
    pub state: u8,
    pub parent: i32,
    pub g_score: i32,
    pub f_score: i32,
}

/// Shared references to the four values stored for one cell.
#[derive(Clone, Debug)]
pub struct CellRef<'a> {
    pub state: &'a u8,
    pub parent: &'a i32,
    pub g_score: &'a i32,
    pub f_score: &'a i32,
}

/// Mutable references to the four values stored for one cell.
#[derive(Debug)]
pub struct CellMut<'a> {
    pub state: &'a mut u8,
    pub parent: &'a mut i32,
    pub g_score: &'a mut i32,
    pub f_score: &'a mut i32,
}

impl<'a> View for CellRef<'a> {
    type V = Cell;

    open spec fn view(&self) -> Cell {
        Cell {
            state: *self.state,
            parent: *self.parent,
            g_score: *self.g_score,
            f_score: *self.f_score,
        }
    }
}

impl<'a> PartialEq<Cell> for CellRef<'a> {
    fn eq(&self, other: &Cell) -> (r: bool)
        ensures
            r == (self@ == *other),
    {
        *self.state == other.state && *self.parent == other.parent && *self.g_score
            == other.g_score && *self.f_score == other.f_score
    }
}

impl<'a> vstd::std_specs::cmp::PartialEqSpecImpl<Cell> for CellRef<'a> {
    open spec fn obeys_eq_spec() -> bool {
        true
    }

    open spec fn eq_spec(&self, other: &Cell) -> bool {
        self@ == *other
    }
}

impl<'a> PartialEq<Cell> for CellMut<'a> {
    fn eq(&self, other: &Cell) -> (r: bool)
        ensures
            r == (Cell {
                state: *old(self.state),
                parent: *old(self.parent),
                g_score: *old(self.g_score),
                f_score: *old(self.f_score),
            } == *other),
    {
        *self.state == other.state && *self.parent == other.parent && *self.g_score
            == other.g_score && *self.f_score == other.f_score
    }
}

impl<'a> vstd::std_specs::cmp::PartialEqSpecImpl<Cell> for CellMut<'a> {
    open spec fn obeys_eq_spec() -> bool {
        true
    }

    open spec fn eq_spec(&self, other: &Cell) -> bool {
        Cell {
            state: *self.state,
            parent: *self.parent,
            g_score: *self.g_score,
            f_score: *self.f_score,
        } == *other
    }
}

impl<'a> CellRef<'a> {
    /// The values of the cell at `index`.
    pub fn new(path_finder: &'a PathFinder, index: usize) -> (r: Self)
        requires
            path_finder@.arrays_ok(),
            index < PATH_FINDER_MAX_CELLS,
        ensures
            *r.state == path_finder@.state[index as int],
            *r.parent == path_finder@.parents[index as int],
            *r.g_score == path_finder@.g_score[index as int],
            *r.f_score == path_finder@.f_score[index as int],
    {
        CellRef {
            state: &path_finder.state[index],
            parent: &path_finder.parents[index],
            g_score: &path_finder.g_score[index],
            f_score: &path_finder.f_score[index],
        }
    }

    /// Copies the referenced values out.
    pub fn to_cell(&self) -> (r: Cell)
        ensures
            r == (Cell {
                state: *self.state,
                parent: *self.parent,
                g_score: *self.g_score,
                f_score: *self.f_score,
            }),
    {
        let state = *self.state;
        let parent = *self.parent;
        let g_score = *self.g_score;
        let f_score = *self.f_score;
        Cell { state, parent, g_score, f_score }
    }
}

impl<'a> CellMut<'a> {
    /// Mutable access to the values of the cell at `index`.
    pub fn new(path_finder: &'a mut PathFinder, index: usize) -> (r: Self)
        requires
            old(path_finder)@.arrays_ok(),
            index < PATH_FINDER_MAX_CELLS,
        ensures
            *r.state == old(path_finder)@.state[index as int],
            *r.parent == old(path_finder)@.parents[index as int],
            *r.g_score == old(path_finder)@.g_score[index as int],
            *r.f_score == old(path_finder)@.f_score[index as int],
            final(path_finder)@ == (PathFinderView {
                state: old(path_finder)@.state.update(index as int, *final(r.state)),
                parents: old(path_finder)@.parents.update(index as int, *final(r.parent)),
                g_score: old(path_finder)@.g_score.update(index as int, *final(r.g_score)),
                f_score: old(path_finder)@.f_score.update(index as int, *final(r.f_score)),
                ..old(path_finder)@
            }),
    {
        CellMut {
            state: &mut path_finder.state[index],
            parent: &mut path_finder.parents[index],
            g_score: &mut path_finder.g_score[index],
            f_score: &mut path_finder.f_score[index],
        }
    }

    /// Copies the referenced values out.
    pub fn to_cell(&self) -> (r: Cell)
        ensures
            r == (Cell {
                state: *old(self.state),
                parent: *old(self.parent),
                g_score: *old(self.g_score),
                f_score: *old(self.f_score),
            }),
    {
        let state = *self.state;
        let parent = *self.parent;
        let g_score = *self.g_score;
        let f_score = *self.f_score;
        Cell { state, parent, g_score, f_score }
    }
}

} // verus!
