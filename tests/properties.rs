use uastar::{
    path_finder_begin, path_finder_clear_path, path_finder_fill, path_finder_find,
    path_finder_find_step, path_finder_get_heuristic_score, path_finder_heuristic,
    path_finder_initialize, path_finder_is_closed, path_finder_is_end, path_finder_is_open,
    path_finder_is_passable, path_finder_is_path, path_finder_is_start,
    path_finder_lowest_in_open_set, path_finder_open_set_is_empty, path_finder_reconstruct_path,
    path_finder_set_end, path_finder_set_start, Cell, PathFinder, PATH_FINDER_MAX_CELLS,
};

type ScoreFn = fn(i32, i32) -> i32;

fn grid(cols: i32, rows: i32, passable: impl Fn(i32, i32) -> bool) -> PathFinder {
    let mut path_finder = PathFinder::default();
    path_finder_initialize(&mut path_finder);
    path_finder.cols = cols;
    path_finder.rows = rows;
    path_finder_fill(&mut path_finder, passable);
    path_finder
}

fn path_cells(path_finder: &PathFinder) -> Vec<usize> {
    (0..PATH_FINDER_MAX_CELLS)
        .filter(|&i| path_finder.state[i] & 0x8 == 0x8)
        .collect()
}

#[test]
fn heuristic_is_manhattan_distance_to_end() {
    let path_finder = PathFinder {
        cols: 5,
        rows: 4,
        start: 6,
        end: 18,
        ..Default::default()
    };
    assert_eq!(path_finder_heuristic(&path_finder, 6), 4);
    assert_eq!(path_finder_heuristic(&path_finder, 0), 6);
    assert_eq!(path_finder_heuristic(&path_finder, 4), 4);
    assert_eq!(path_finder_heuristic(&path_finder, 18), 0);
    assert_eq!(path_finder_heuristic(&path_finder, 19), 1);
}

#[test]
fn lowest_breaks_ties_by_lowest_index() {
    let mut path_finder = PathFinder {
        cols: 5,
        rows: 4,
        ..Default::default()
    };
    path_finder.state[2] = 0x2;
    path_finder.f_score[2] = 5;
    path_finder.state[9] = 0x2;
    path_finder.f_score[9] = 3;
    path_finder.state[4] = 0x2;
    path_finder.f_score[4] = 3;
    path_finder.state[15] = 0x3;
    path_finder.f_score[15] = 3;
    assert_eq!(path_finder_lowest_in_open_set(&path_finder), 4);
}

#[test]
fn lowest_ignores_cells_outside_the_grid() {
    let mut path_finder = PathFinder {
        cols: 5,
        rows: 4,
        ..Default::default()
    };
    path_finder.state[20] = 0x2;
    path_finder.f_score[20] = -100;
    assert_eq!(path_finder_open_set_is_empty(&path_finder), 1);
    assert_eq!(path_finder_lowest_in_open_set(&path_finder), 0);
}

#[test]
fn open_grid_finds_monotonic_route() {
    let mut path_finder = grid(5, 4, |_, _| true);
    path_finder_set_start(&mut path_finder, 1, 1);
    path_finder_set_end(&mut path_finder, 3, 3);
    assert_eq!(path_finder.start, 6);
    assert_eq!(path_finder.end, 18);

    path_finder_find(&mut path_finder, None::<&ScoreFn>);
    assert_eq!(path_finder.has_path, 1);

    let mut route = vec![path_finder.end as usize];
    while *route.last().unwrap() != path_finder.start as usize {
        let next = path_finder.parents[*route.last().unwrap()] as usize;
        route.push(next);
    }
    route.reverse();
    assert_eq!(route.len(), 5);
    for pair in route.windows(2) {
        let (a, b) = (pair[0] as i32, pair[1] as i32);
        let (ac, ar) = (a % 5, a / 5);
        let (bc, br) = (b % 5, b / 5);
        assert_eq!((bc - ac).abs() + (br - ar).abs(), 1);
        assert!(bc >= ac && br >= ar);
    }
    let mut marked = path_cells(&path_finder);
    marked.sort();
    let mut inner: Vec<usize> = route[1..route.len() - 1].to_vec();
    inner.sort();
    assert_eq!(marked, inner);
    assert_eq!(path_finder.state[6] & 0x8, 0);
    assert_eq!(path_finder.state[18] & 0x8, 0);
}

#[test]
fn walled_grid_has_no_path() {
    let mut path_finder = grid(5, 4, |col, row| {
        let i = row * 5 + col;
        i == 6 || i == 18
    });
    path_finder.start = 6;
    path_finder.end = 18;
    path_finder_find(&mut path_finder, None::<&ScoreFn>);
    assert_eq!(path_finder.has_path, 0);
    assert!(path_cells(&path_finder).is_empty());
    assert_eq!(path_finder_open_set_is_empty(&path_finder), 1);
}

#[test]
fn enclosed_end_is_reported_unreachable() {
    let mut path_finder = grid(5, 4, |col, row| {
        let i = row * 5 + col;
        i != 13 && i != 17 && i != 19
    });
    path_finder.start = 6;
    path_finder.end = 18;
    path_finder_begin(&mut path_finder);
    let mut steps = 0;
    while path_finder_find_step(&mut path_finder, None::<&ScoreFn>) == 1 {
        steps += 1;
        assert!(steps <= 20);
    }
    assert_eq!(path_finder.has_path, 0);
    assert_eq!(path_finder_open_set_is_empty(&path_finder), 1);
    assert!(path_cells(&path_finder).is_empty());
}

fn striped_score(col: i32, row: i32) -> i32 {
    (col * 7 + row * 3) % 5
}

#[test]
fn repeated_runs_close_cells_in_the_same_order() {
    let walls = |col: i32, row: i32| !(col == 3 && row < 5);
    let make = || {
        let mut path_finder = grid(8, 6, walls);
        path_finder.start = 8;
        path_finder.end = 46;
        path_finder_begin(&mut path_finder);
        path_finder
    };
    let score: ScoreFn = striped_score;
    let run = |path_finder: &mut PathFinder| {
        let mut closed = Vec::new();
        loop {
            let current = path_finder_lowest_in_open_set(path_finder);
            if path_finder_find_step(path_finder, Some(&score)) != 1 {
                break;
            }
            closed.push(current);
        }
        closed
    };
    let mut first = make();
    let mut second = make();
    let a = run(&mut first);
    let b = run(&mut second);
    assert!(!a.is_empty());
    assert_eq!(a, b);
    assert!(first == second);
    assert_eq!(first.has_path, 1);
}

#[test]
fn clear_then_find_reproduces_result() {
    let mut path_finder = grid(6, 5, |col, row| !(col == 2 && row > 0));
    path_finder.start = 0;
    path_finder.end = 29;
    let fresh = path_finder.clone();
    let score: ScoreFn = striped_score;

    path_finder_find(&mut path_finder, Some(&score));
    let first = path_finder.clone();
    assert_eq!(first.has_path, 1);
    assert!(!path_cells(&first).is_empty());

    path_finder_clear_path(&mut path_finder);
    assert!(path_finder == fresh);

    path_finder_find(&mut path_finder, Some(&score));
    assert_eq!(path_finder.has_path, first.has_path);
    assert_eq!(path_cells(&path_finder), path_cells(&first));
    assert!(path_finder == first);
}

#[test]
fn step_relaxes_neighbours_with_score() {
    let mut path_finder = grid(3, 3, |_, _| true);
    path_finder.start = 4;
    path_finder.end = 8;
    path_finder_begin(&mut path_finder);
    let score: ScoreFn = |col, row| col * 10 + row;
    assert_eq!(path_finder_find_step(&mut path_finder, Some(&score)), 1);

    assert_eq!(path_finder.state[4], 0x5);
    let expect = |index: usize, f_score: i32| {
        assert_eq!(
            path_finder.get(index),
            Cell {
                state: 0x3,
                parent: 4,
                g_score: 1,
                f_score,
            }
        );
    };
    expect(3, 5);
    expect(1, 14);
    expect(5, 23);
    expect(7, 14);
    for index in [0usize, 2, 6, 8] {
        assert_eq!(path_finder.state[index], 0x1);
    }
}

#[test]
fn step_closes_impassable_neighbour_without_opening_it() {
    let mut path_finder = grid(3, 3, |col, row| !(col == 2 && row == 1));
    path_finder.start = 4;
    path_finder.end = 8;
    path_finder_begin(&mut path_finder);
    assert_eq!(path_finder_find_step(&mut path_finder, None::<&ScoreFn>), 1);
    assert_eq!(path_finder.state[5], 0x4);
    assert_eq!(path_finder.parents[5], 0);
    assert_eq!(path_finder.f_score[5], 0);
    assert_eq!(path_finder.f_score[7], 2);
}

#[test]
fn step_does_not_wrap_across_rows() {
    let mut path_finder = grid(3, 3, |_, _| true);
    path_finder.start = 3;
    path_finder.end = 8;
    path_finder_begin(&mut path_finder);
    assert_eq!(path_finder_find_step(&mut path_finder, None::<&ScoreFn>), 1);
    assert_eq!(path_finder.state[2], 0x1);
    for index in [0usize, 4, 6] {
        assert_eq!(path_finder.state[index], 0x3);
    }
}

#[test]
fn reconstruct_with_start_next_to_end_marks_nothing() {
    let mut path_finder = PathFinder {
        cols: 5,
        rows: 4,
        start: 6,
        end: 7,
        ..Default::default()
    };
    path_finder.parents[7] = 6;
    path_finder_reconstruct_path(&mut path_finder);
    assert!(path_cells(&path_finder).is_empty());
}

#[test]
fn find_with_start_equal_to_end() {
    let mut path_finder = grid(4, 4, |_, _| true);
    path_finder.start = 5;
    path_finder.end = 5;
    path_finder_find(&mut path_finder, None::<&ScoreFn>);
    assert_eq!(path_finder.has_path, 1);
    assert!(path_cells(&path_finder).is_empty());
}

#[test]
fn find_on_largest_grid() {
    let mut path_finder = grid(32, 32, |_, _| true);
    path_finder.start = 0;
    path_finder.end = 1023;
    path_finder_find(&mut path_finder, None::<&ScoreFn>);
    assert_eq!(path_finder.has_path, 1);
    assert_eq!(path_cells(&path_finder).len(), 61);
}

#[test]
fn clear_path_keeps_passability_and_configuration() {
    let mut path_finder = PathFinder {
        cols: 5,
        rows: 4,
        start: 2,
        end: 3,
        has_path: 1,
        ..Default::default()
    };
    path_finder.state[0] = 0xf;
    path_finder.state[1] = 0xe;
    path_finder.state[1000] = 0x1a;
    path_finder.parents[1000] = 7;
    path_finder.g_score[5] = 3;
    path_finder.f_score[5] = 9;
    path_finder_clear_path(&mut path_finder);
    assert_eq!(path_finder.state[0], 0x1);
    assert_eq!(path_finder.state[1], 0x0);
    assert_eq!(path_finder.state[1000], 0x10);
    assert_eq!(path_finder.parents[1000], 0);
    assert_eq!(path_finder.g_score[5], 0);
    assert_eq!(path_finder.f_score[5], 0);
    assert_eq!(path_finder.has_path, 0);
    assert_eq!((path_finder.cols, path_finder.rows), (5, 4));
    assert_eq!((path_finder.start, path_finder.end), (2, 3));
}

#[test]
fn initialize_resets_everything() {
    let mut path_finder = PathFinder {
        cols: 5,
        rows: 4,
        start: 2,
        end: 3,
        has_path: 1,
        ..Default::default()
    };
    path_finder.state[9] = 0xe;
    path_finder.parents[9] = 4;
    path_finder.g_score[9] = 4;
    path_finder.f_score[9] = 4;
    path_finder_initialize(&mut path_finder);
    assert!(path_finder.state.iter().all(|&s| s == 0x1));
    assert!(path_finder.parents.iter().all(|&p| p == 0));
    assert!(path_finder.g_score.iter().all(|&g| g == 0));
    assert!(path_finder.f_score.iter().all(|&f| f == 0));
    assert_eq!(path_finder.state.len(), PATH_FINDER_MAX_CELLS);
    assert_eq!(
        (
            path_finder.cols,
            path_finder.rows,
            path_finder.start,
            path_finder.end,
            path_finder.has_path
        ),
        (0, 0, 0, 0, 0)
    );
}

#[test]
fn fill_leaves_other_flags_and_outside_cells() {
    let mut path_finder = PathFinder {
        cols: 2,
        rows: 2,
        ..Default::default()
    };
    path_finder.state[0] = 0xe;
    path_finder.state[1] = 0xf;
    path_finder.state[4] = 0x0;
    path_finder_fill(&mut path_finder, |col, row| col == row);
    assert_eq!(path_finder.state[0], 0xf);
    assert_eq!(path_finder.state[1], 0xe);
    assert_eq!(path_finder.state[2], 0x0);
    assert_eq!(path_finder.state[3], 0x1);
    assert_eq!(path_finder.state[4], 0x0);
}

#[test]
fn query_accessors() {
    let mut path_finder = PathFinder {
        cols: 5,
        rows: 4,
        start: 6,
        end: 18,
        ..Default::default()
    };
    path_finder.state[7] = 0x1 | 0x2;
    path_finder.state[8] = 0x4 | 0x8;
    path_finder.f_score[7] = 42;

    assert_eq!(path_finder_is_passable(&mut path_finder, 2, 1), 1);
    assert_eq!(path_finder_is_open(&mut path_finder, 2, 1), 1);
    assert_eq!(path_finder_is_closed(&mut path_finder, 2, 1), 0);
    assert_eq!(path_finder_is_path(&mut path_finder, 2, 1), 0);
    assert_eq!(path_finder_is_passable(&mut path_finder, 3, 1), 0);
    assert_eq!(path_finder_is_closed(&mut path_finder, 3, 1), 1);
    assert_eq!(path_finder_is_path(&mut path_finder, 3, 1), 1);
    assert_eq!(path_finder_get_heuristic_score(&mut path_finder, 2, 1), 42);
    assert_eq!(path_finder_is_start(&mut path_finder, 1, 1), 1);
    assert_eq!(path_finder_is_start(&mut path_finder, 2, 1), 0);
    assert_eq!(path_finder_is_end(&mut path_finder, 3, 3), 1);
    assert_eq!(path_finder_is_end(&mut path_finder, 3, 2), 0);
}

#[test]
fn set_start_and_end_do_not_validate() {
    let mut path_finder = PathFinder {
        cols: 5,
        rows: 4,
        ..Default::default()
    };
    path_finder_set_start(&mut path_finder, 7, 9);
    path_finder_set_end(&mut path_finder, -1, 0);
    assert_eq!(path_finder.start, 52);
    assert_eq!(path_finder.end, -1);
}

#[test]
fn cell_indexing_helpers() {
    let mut path_finder = PathFinder {
        cols: 5,
        rows: 4,
        ..Default::default()
    };
    assert_eq!(path_finder.size(), 20);
    assert_eq!(path_finder.cell_index(3, 2), 13);
    assert_eq!(path_finder.col_and_row_from_index(13), [3, 2]);
    assert_eq!(path_finder.col_and_row_from_index(19), [4, 3]);

    {
        let mut cell = path_finder.get_mut(13);
        *cell.state = 0x3;
        *cell.parent = 12;
        *cell.g_score = 2;
        *cell.f_score = 7;
        assert_eq!(
            cell,
            Cell {
                state: 0x3,
                parent: 12,
                g_score: 2,
                f_score: 7,
            }
        );
    }
    assert_eq!(path_finder.state[13], 0x3);
    assert_eq!(path_finder.parents[13], 12);
    assert_eq!(
        path_finder.cell(3, 2).to_cell(),
        Cell {
            state: 0x3,
            parent: 12,
            g_score: 2,
            f_score: 7,
        }
    );
}

#[test]
fn blocks_compare_by_every_field() {
    let a = PathFinder::default();
    let mut b = PathFinder::default();
    assert!(a == b);
    b.f_score[1023] = 1;
    assert!(a != b);
    let mut c = PathFinder::default();
    c.has_path = 1;
    assert!(a != c);
}

#[test]
fn find_reaches_end_at_cell_zero() {
    let mut path_finder = grid(3, 3, |col, row| !(col == 1 && row == 0));
    path_finder.start = 8;
    path_finder.end = 0;
    path_finder_find(&mut path_finder, None::<&ScoreFn>);
    assert_eq!(path_finder.has_path, 1);
    assert_eq!(path_cells(&path_finder).len(), 3);
    assert_eq!(path_finder.state[1] & 0x8, 0);
}

#[test]
fn unreachable_end_at_cell_zero_reports_no_path() {
    let mut path_finder = grid(3, 3, |col, row| !((col == 1 && row == 0) || (col == 0 && row == 1)));
    path_finder.start = 8;
    path_finder.end = 0;
    path_finder_find(&mut path_finder, None::<&ScoreFn>);
    assert_eq!(path_finder.has_path, 0);
    assert_eq!(path_finder_open_set_is_empty(&path_finder), 1);
    assert!(path_cells(&path_finder).is_empty());
}

#[test]
fn stepping_to_exhaustion_with_end_at_cell_zero() {
    let mut path_finder = grid(5, 4, |col, row| {
        let i = row * 5 + col;
        i == 0 || i == 6
    });
    path_finder.start = 6;
    path_finder.end = 0;
    path_finder_begin(&mut path_finder);
    assert_eq!(path_finder_find_step(&mut path_finder, None::<&ScoreFn>), 1);
    assert_eq!(path_finder_find_step(&mut path_finder, None::<&ScoreFn>), 0);
    assert_eq!(path_finder.has_path, 0);
    assert!(path_cells(&path_finder).is_empty());
}

#[test]
fn clear_then_begin_then_find_reproduces_result() {
    let mut path_finder = grid(6, 5, |col, row| !(col == 3 && row < 4));
    path_finder.start = 7;
    path_finder.end = 22;
    path_finder_find(&mut path_finder, None::<&ScoreFn>);
    let first = path_finder.clone();
    assert_eq!(first.has_path, 1);

    path_finder_clear_path(&mut path_finder);
    path_finder_begin(&mut path_finder);
    path_finder_find(&mut path_finder, None::<&ScoreFn>);
    assert_eq!(path_finder.has_path, first.has_path);
    assert_eq!(path_cells(&path_finder), path_cells(&first));
    assert!(path_finder == first);
}

fn bfs_distance(path_finder: &PathFinder) -> Option<i32> {
    let cols = path_finder.cols;
    let count = (cols * path_finder.rows) as usize;
    let mut dist = vec![-1i32; count];
    let mut queue = std::collections::VecDeque::new();
    dist[path_finder.start as usize] = 0;
    queue.push_back(path_finder.start);
    while let Some(c) = queue.pop_front() {
        let (col, row) = (c % cols, c / cols);
        let mut next = Vec::new();
        if col > 0 {
            next.push(c - 1);
        }
        if col + 1 < cols {
            next.push(c + 1);
        }
        if row > 0 {
            next.push(c - cols);
        }
        if row + 1 < path_finder.rows {
            next.push(c + cols);
        }
        for n in next {
            let n_index = n as usize;
            if dist[n_index] < 0 && path_finder.state[n_index] & 0x1 == 0x1 {
                dist[n_index] = dist[c as usize] + 1;
                queue.push_back(n);
            }
        }
    }
    let d = dist[path_finder.end as usize];
    if d < 0 {
        None
    } else {
        Some(d)
    }
}

#[test]
fn route_without_scorer_is_shortest() {
    let mut path_finder = grid(9, 7, |col, row| {
        !((col == 2 && row < 5) || (col == 5 && row > 1) || (col == 7 && row == 1))
    });
    path_finder.start = 9;
    path_finder.end = 62;
    let expected = bfs_distance(&path_finder).unwrap();
    path_finder_find(&mut path_finder, None::<&ScoreFn>);
    assert_eq!(path_finder.has_path, 1);
    assert_eq!(path_finder.g_score[62], expected);
    assert_eq!(path_cells(&path_finder).len() as i32, expected - 1);
}
