use uastar::{
    path_finder_begin, path_finder_fill, path_finder_find_step, path_finder_heuristic,
    path_finder_lowest_in_open_set, path_finder_open_set_is_empty, path_finder_reconstruct_path,
    Cell, PathFinder,
};

type ScoreFn = fn(i32, i32) -> i32;

#[test]
fn open_set_is_empty() {
    let mut path_finder = PathFinder {
        cols: 5,
        rows: 4,
        ..Default::default()
    };

    assert_eq!(path_finder_open_set_is_empty(&path_finder), 1);

    path_finder.state[7] = 2;
    assert_eq!(path_finder_open_set_is_empty(&path_finder), 0);
}

#[test]
fn lowest_in_open_set() {
    let path_finder = PathFinder::default();
    assert_eq!(path_finder_lowest_in_open_set(&path_finder), 0);

    let mut path_finder = PathFinder {
        cols: 5,
        rows: 4,
        ..Default::default()
    };
    assert_eq!(path_finder_lowest_in_open_set(&path_finder), 0);

    path_finder.state[3] = 0x2;
    path_finder.f_score[3] = -5;
    assert_eq!(path_finder_lowest_in_open_set(&path_finder), 3);

    path_finder.state[6] = 0x2;
    path_finder.f_score[6] = -9;
    assert_eq!(path_finder_lowest_in_open_set(&path_finder), 6);

    path_finder.state[11] = 0x2;
    path_finder.f_score[11] = -7;
    assert_eq!(path_finder_lowest_in_open_set(&path_finder), 6);

    path_finder.f_score[11] = -10;
    assert_eq!(path_finder_lowest_in_open_set(&path_finder), 11);
}

#[test]
fn reconstruct_path() {
    /*
     * Representation
     *
     * /-----\
     * | >>>v|
     * | S v<|
     * |v<<< |
     * |>>>E |
     * \-----/
     */

    let mut path_finder = PathFinder {
        cols: 5,
        rows: 4,
        start: 6,
        end: 18,
        ..Default::default()
    };

    let parents = &mut path_finder.parents;
    parents[18] = 17;
    parents[17] = 16;
    parents[16] = 15;
    parents[15] = 10;
    parents[10] = 11;
    parents[11] = 12;
    parents[12] = 13;
    parents[13] = 8;
    parents[8] = 9;
    parents[9] = 4;
    parents[4] = 3;
    parents[3] = 2;
    parents[2] = 1;
    parents[1] = 6;

    path_finder_reconstruct_path(&mut path_finder);
    path_finder
        .parents
        .iter()
        .copied()
        .zip(path_finder.state.iter().copied())
        .enumerate()
        .for_each(|(index, (parent_index, state))| {
            if parent_index == 0 || index as i32 == path_finder.end {
                assert_eq!(state, 0);
            } else {
                assert_eq!(state, 0x8);
            }
        });
}

const IMPASSABLES: [usize; 6] = [1, 2, 3, 5, 8, 13];

#[test]
fn fill() {
    let mut path_finder = PathFinder {
        cols: 5,
        rows: 4,
        ..Default::default()
    };
    let cols = path_finder.cols;
    let fill_func = move |col: i32, row: i32| -> bool {
        let index: usize = (row * cols + col).try_into().unwrap();
        IMPASSABLES.binary_search(&index).is_err()
    };

    let size = path_finder.cols * path_finder.rows;
    let test_states = move |path_finder: &PathFinder| {
        path_finder
            .state
            .iter()
            .take(size as usize)
            .copied()
            .enumerate()
            .for_each(|(index, state)| {
                if IMPASSABLES.binary_search(&index).is_err() {
                    assert_eq!(state, 0x1);
                } else {
                    assert_eq!(state, 0);
                }
            })
    };

    path_finder_fill(&mut path_finder, fill_func);
    test_states(&path_finder);

    path_finder.state.iter_mut().for_each(|state| *state = 0x1);
    path_finder_fill(&mut path_finder, fill_func);
    test_states(&path_finder);
}

#[test]
fn begin() {
    let mut path_finder = PathFinder {
        start: 13,
        ..Default::default()
    };

    path_finder_begin(&mut path_finder);
    assert_eq!(path_finder.state[13], 0x2);
    path_finder
        .state
        .iter()
        .copied()
        .take(13)
        .chain(path_finder.state.iter().copied().skip(14))
        .for_each(|state| assert_eq!(state, 0));
}

#[test]
fn find_step_at_end() {
    /*
     * Representation
     *
     * /-----\
     * |     |
     * | S   |
     * | v   |
     * | >>E |
     * \-----/
     */

    let mut path_finder = PathFinder {
        cols: 5,
        rows: 4,
        start: 6,
        end: 18,
        ..Default::default()
    };

    const PATH_INDICES: [usize; 4] = [11, 16, 17, 18];
    let parents = &mut path_finder.parents;
    parents[11] = 6;
    parents[16] = 11;
    parents[17] = 16;
    parents[18] = 17;

    PATH_INDICES
        .iter()
        .for_each(|&index| path_finder.state[index] = 0x2);
    path_finder.f_score[18] = -10;

    let run = path_finder_find_step(&mut path_finder, None::<&ScoreFn>);
    assert_eq!(run, 0);
    assert_eq!(path_finder.has_path, 1);
    path_finder
        .state
        .iter()
        .take((path_finder.cols * path_finder.rows).try_into().unwrap())
        .copied()
        .enumerate()
        .for_each(|(index, state)| {
            if path_finder.end == index as i32 {
                assert_eq!(state, 0x2);
            } else if PATH_INDICES.binary_search(&index).is_ok() {
                assert_eq!(state, 0xa);
            } else {
                assert_eq!(state, 0);
            }
        });
}

#[test]
fn find_step_empty_set() {
    let mut path_finder = PathFinder {
        cols: 5,
        rows: 4,
        start: 6,
        end: 18,
        ..Default::default()
    };
    path_finder.f_score[18] = -10;

    let run = path_finder_find_step(&mut path_finder, None::<&ScoreFn>);
    assert_eq!(run, 0);
    assert_eq!(path_finder.has_path, 0);
    assert!(path_finder.state.iter().copied().all(|state| state == 0));
}

#[test]
fn find_step() {
    let mut path_finder = create_complex_map();
    path_finder_fill(&mut path_finder, create_complex_map_fill_func);
    path_finder_begin(&mut path_finder);

    check_next_step(&mut path_finder);
    assert_eq!(
        path_finder.cell(6, 5),
        Cell {
            state: 5,
            ..Default::default()
        }
    );

    for _step in 0..312 {
        assert!(check_next_step(&mut path_finder));
    }

    assert!(!check_next_step(&mut path_finder));
}

fn check_next_step(path_finder: &mut PathFinder) -> bool {
    let current_cell_index = path_finder_lowest_in_open_set(path_finder);
    let current_cell = path_finder
        .get(current_cell_index.try_into().unwrap())
        .to_cell();
    let [col, row] = path_finder.col_and_row_from_index(current_cell_index.try_into().unwrap());
    let g_score = current_cell.g_score + 1;
    let score_func: ScoreFn = create_complex_map_score_func;

    const OFFSETS: [[i32; 2]; 4] = [[-1, 0], [0, 1], [1, 0], [0, -1]];
    let mut old_cells = [
        Cell::default(),
        Cell::default(),
        Cell::default(),
        Cell::default(),
    ];

    OFFSETS
        .iter()
        .zip(old_cells.iter_mut())
        .for_each(|(&[x, y], old_cell)| {
            let col = match col.checked_add(x) {
                Some(col) if col >= 0 && col < path_finder.cols => col,
                _ => return,
            };

            let row = match row.checked_add(y) {
                Some(row) if row >= 0 && row < path_finder.rows => row,
                _ => return,
            };

            *old_cell = path_finder.cell(col, row).to_cell();
        });

    if path_finder_find_step(path_finder, Some(&score_func)) != 1 {
        return false;
    }

    OFFSETS
        .iter()
        .zip(old_cells.iter())
        .for_each(|(&[x, y], old_cell)| {
            let col = match col.checked_add(x) {
                Some(col) if col >= 0 && col < path_finder.cols => col,
                _ => return,
            };

            let row = match row.checked_add(y) {
                Some(row) if row >= 0 && row < path_finder.rows => row,
                _ => return,
            };

            let cell = path_finder.cell(col, row);
            if *cell.parent != current_cell_index {
                return;
            }

            if old_cell.state & 0x1 == 0 {
                assert_eq!(
                    path_finder.cell(col, row),
                    Cell {
                        state: old_cell.state | 0x4,
                        parent: old_cell.parent,
                        g_score: old_cell.g_score,
                        f_score: old_cell.f_score,
                    }
                );
            } else {
                let (g_score, f_score) = if old_cell.state & 0x2 == 0 || g_score < old_cell.g_score
                {
                    let heuristics = path_finder_heuristic(
                        path_finder,
                        path_finder.cell_index(col, row).try_into().unwrap(),
                    );
                    let score = score_func(col, row);
                    let f_score = score + heuristics + g_score;

                    (g_score, f_score)
                } else {
                    (old_cell.g_score, old_cell.f_score)
                };

                assert_eq!(
                    path_finder.cell(col, row),
                    Cell {
                        state: 3,
                        parent: current_cell_index,
                        g_score,
                        f_score,
                    }
                );
            }
        });

    true
}

fn create_complex_map() -> PathFinder {
    /*
     * Representation
     *              1         2
     *    0123456789012345678901234
     *   /-------------------------\
     *  0|                         |
     *  1|     fffff               |
     *  2|     fffff               |
     *  3|        #                |
     *  4|        #  ffffff        |
     *  5|      S #  ffffff        |
     *  6|        #                |
     *  7|##############           |
     *  8|          11111          |
     *  9|          f##############|
     * 10|          f      #       |
     *  1|              #81#  E    |
     *  2|              #  #       |
     *  3|              #18######1 |
     *  4|              #          |
     *  5|              #          |
     *   \-------------------------/
     */

    PathFinder {
        cols: 25,
        rows: 16,
        start: 131,
        end: 295,
        ..Default::default()
    }
}

struct Pos {
    row: i32,
    col: i32,
}

struct Area {
    first: Pos,
    last: Pos,
}

fn create_complex_map_fill_func(col: i32, row: i32) -> bool {
    const WALLS: [Area; 6] = [
        Area {
            first: Pos { row: 3, col: 8 },
            last: Pos { row: 6, col: 8 },
        },
        Area {
            first: Pos { row: 7, col: 0 },
            last: Pos { row: 7, col: 13 },
        },
        Area {
            first: Pos { row: 9, col: 11 },
            last: Pos { row: 9, col: 24 },
        },
        Area {
            first: Pos { row: 11, col: 14 },
            last: Pos { row: 15, col: 14 },
        },
        Area {
            first: Pos { row: 10, col: 17 },
            last: Pos { row: 13, col: 17 },
        },
        Area {
            first: Pos { row: 13, col: 18 },
            last: Pos { row: 13, col: 22 },
        },
    ];

    WALLS
        .iter()
        .find(|wall| {
            wall.first.row <= row
                && wall.first.col <= col
                && wall.last.row >= row
                && wall.last.col >= col
        })
        .is_none()
}

struct Danger {
    area: Area,
    score: i32,
}

fn create_complex_map_score_func(col: i32, row: i32) -> i32 {
    const DANGERS: [Danger; 9] = [
        Danger {
            area: Area {
                first: Pos { row: 1, col: 4 },
                last: Pos { row: 2, col: 9 },
            },
            score: 0xf,
        },
        Danger {
            area: Area {
                first: Pos { row: 4, col: 11 },
                last: Pos { row: 5, col: 16 },
            },
            score: 0xf,
        },
        Danger {
            area: Area {
                first: Pos { row: 8, col: 10 },
                last: Pos { row: 8, col: 14 },
            },
            score: 1,
        },
        Danger {
            area: Area {
                first: Pos { row: 9, col: 10 },
                last: Pos { row: 10, col: 10 },
            },
            score: 0xf,
        },
        Danger {
            area: Area {
                first: Pos { row: 11, col: 15 },
                last: Pos { row: 11, col: 15 },
            },
            score: 8,
        },
        Danger {
            area: Area {
                first: Pos { row: 11, col: 16 },
                last: Pos { row: 11, col: 16 },
            },
            score: 1,
        },
        Danger {
            area: Area {
                first: Pos { row: 13, col: 15 },
                last: Pos { row: 13, col: 15 },
            },
            score: 1,
        },
        Danger {
            area: Area {
                first: Pos { row: 13, col: 16 },
                last: Pos { row: 13, col: 16 },
            },
            score: 8,
        },
        Danger {
            area: Area {
                first: Pos { row: 13, col: 13 },
                last: Pos { row: 13, col: 13 },
            },
            score: 1,
        },
    ];

    DANGERS
        .iter()
        .find(|danger| {
            danger.area.first.row <= row
                && danger.area.first.col <= col
                && danger.area.last.row >= row
                && danger.area.last.col >= col
        })
        .map(|danger| danger.score)
        .unwrap_or(0)
}
