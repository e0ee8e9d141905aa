use akari::grid::{Grid, Xy};
use akari::tile::{Tile, TileContent, TogglableTile, Wall};

fn test_grid(tiles: Vec<Vec<Tile>>) -> Grid {
    Grid {
        grid: tiles,
        solution: vec![],
    }
}

fn assert_grid(expected: &Grid, actual: &Grid) {
    let expected = &expected.grid;
    let actual = &actual.grid;

    assert_eq!(expected.len(), actual.len(), "Rows mismatch");
    assert_eq!(expected[0].len(), actual[0].len(), "Columns mismatch");

    let expected = expected.iter().flatten();
    let actual = actual.iter().flatten();
    let pairs = expected.zip(actual).enumerate();

    for (n, (expected_tile, actual_tile)) in pairs {
        assert_eq!(expected_tile, actual_tile, "Tile mismatch at [{n}]");
    }
}

fn level(grid: &Grid, row: usize, col: usize) -> u8 {
    match &grid.grid[row][col] {
        Tile::Togglable(t) => t.light_level,
        Tile::Wall(_) => panic!("no light on a wall"),
    }
}

#[test]
fn inserting_lightbulb_lights_neighbours_in_line() {
    let mut grid = test_grid(vec![vec![Tile::blank(); 3]; 3]);

    let expected = test_grid(vec![
        vec![Tile::blank(), Tile::lit_empty(1), Tile::blank()],
        vec![Tile::lit_empty(1), Tile::bulb(1), Tile::lit_empty(1)],
        vec![Tile::blank(), Tile::lit_empty(1), Tile::blank()],
    ]);

    grid.toggle(1, 1);

    assert_grid(&expected, &grid);
}

#[test]
fn lights_in_two_corners() {
    let mut grid = test_grid(vec![vec![Tile::blank(); 3]; 3]);
    let expected = test_grid(vec![
        vec![Tile::bulb(1), Tile::lit_empty(1), Tile::lit_empty(2)],
        vec![Tile::lit_empty(1), Tile::blank(), Tile::lit_empty(1)],
        vec![Tile::lit_empty(2), Tile::lit_empty(1), Tile::bulb(1)],
    ]);

    grid.toggle(0, 0);
    grid.toggle(2, 2);

    assert_grid(&expected, &grid);
}

#[test]
fn lights_shining_at_each_other_in_all_corners() {
    let mut grid = test_grid(vec![vec![Tile::blank(); 3]; 4]);
    let expected = test_grid(vec![
        vec![Tile::bulb(3), Tile::lit_empty(2), Tile::bulb(3)],
        vec![Tile::lit_empty(2), Tile::lit_empty(0), Tile::lit_empty(2)],
        vec![Tile::lit_empty(2), Tile::lit_empty(0), Tile::lit_empty(2)],
        vec![Tile::bulb(3), Tile::lit_empty(2), Tile::bulb(3)],
    ]);

    grid.toggle(0, 0);
    grid.toggle(0, 2);
    grid.toggle(3, 0);
    grid.toggle(3, 2);

    assert_grid(&expected, &grid);
}

#[test]
fn light_is_blocked_by_walls_minimal() {
    let mut grid = test_grid(vec![vec![
        Tile::blank(),
        Tile::wall(),
        Tile::blank(),
        Tile::blank(),
        Tile::wall(),
        Tile::blank(),
    ]]);
    let expected = test_grid(vec![vec![
        Tile::blank(),
        Tile::wall(),
        Tile::bulb(1),
        Tile::lit_empty(1),
        Tile::wall(),
        Tile::blank(),
    ]]);

    grid.toggle(0, 2);

    assert_grid(&expected, &grid);
}

#[test]
fn toggle_then_toggle_back_restores_every_state() {
    let start = test_grid(vec![
        vec![Tile::blank(), Tile::wall(), Tile::blank()],
        vec![Tile::blank(), Tile::blank(), Tile::blank()],
        vec![Tile::Wall(Wall::Two), Tile::blank(), Tile::blank()],
    ]);
    // Reach each content on (1, 1): nothing, bulb, cross; and try a wall.
    for steps in 0..3 {
        let mut grid = start.clone();
        grid.toggle(2, 2);
        for _ in 0..steps {
            grid.toggle(1, 1);
        }
        let before = grid.clone();
        grid.toggle(1, 1);
        grid.toggle_back(1, 1);
        assert_grid(&before, &grid);
        grid.toggle_back(1, 1);
        grid.toggle(1, 1);
        assert_grid(&before, &grid);
    }
    let mut grid = start.clone();
    grid.toggle(0, 1);
    grid.toggle_back(0, 1);
    assert_grid(&start, &grid);
}

fn has_bulb(grid: &Grid, row: usize, col: usize) -> bool {
    matches!(
        grid.grid[row][col],
        Tile::Togglable(TogglableTile {
            content: TileContent::Bulb,
            ..
        })
    )
}

fn is_wall(grid: &Grid, row: usize, col: usize) -> bool {
    matches!(grid.grid[row][col], Tile::Wall(_))
}

/// Counts by brute force the bulbs that see (row, col).
fn bulbs_in_sight(grid: &Grid, row: usize, col: usize) -> u8 {
    let rows = grid.grid.len();
    let cols = grid.grid[0].len();
    let mut n = 0;
    for r in 0..rows {
        for c in 0..cols {
            if !has_bulb(grid, r, c) || (r != row && c != col) {
                continue;
            }
            let clear = if r == row {
                (c.min(col)..=c.max(col)).all(|j| !is_wall(grid, row, j))
            } else {
                (r.min(row)..=r.max(row)).all(|i| !is_wall(grid, i, col))
            };
            if clear {
                n += 1;
            }
        }
    }
    n
}

#[test]
fn levels_count_bulbs_through_a_long_sequence() {
    let mut grid = test_grid(vec![
        vec![Tile::blank(), Tile::blank(), Tile::blank(), Tile::blank()],
        vec![Tile::blank(), Tile::wall(), Tile::blank(), Tile::blank()],
        vec![Tile::blank(), Tile::blank(), Tile::blank(), Tile::blank()],
    ]);
    let moves: [(usize, usize, bool); 12] = [
        (0, 0, true),
        (2, 3, true),
        (0, 0, true),
        (1, 2, false),
        (1, 2, false),
        (2, 0, true),
        (0, 0, true),
        (1, 1, true),
        (0, 0, true),
        (2, 3, false),
        (0, 2, false),
        (0, 2, false),
    ];
    for (r, c, forward) in moves {
        if forward {
            grid.toggle(r, c);
        } else {
            grid.toggle_back(r, c);
        }
        for row in 0..3 {
            for col in 0..4 {
                if !is_wall(&grid, row, col) {
                    assert_eq!(level(&grid, row, col), bulbs_in_sight(&grid, row, col));
                }
            }
        }
    }
    // Bulbs end on (0, 0), (1, 2), (2, 0) and (0, 2).
    assert!(has_bulb(&grid, 0, 0) && has_bulb(&grid, 1, 2) && has_bulb(&grid, 2, 0));
    assert!(has_bulb(&grid, 0, 2));
    assert_eq!(level(&grid, 0, 0), 3);
    assert_eq!(level(&grid, 0, 2), 3);
    assert_eq!(level(&grid, 2, 2), 3);
    assert_eq!(level(&grid, 1, 3), 1);
}

#[test]
fn open_board_bulb_lights_its_row_and_column() {
    let mut grid = test_grid(vec![vec![Tile::blank(); 4]; 3]);
    grid.toggle(1, 2);
    let mut lit = 0;
    for r in 0..3 {
        for c in 0..4 {
            let expected = if r == 1 || c == 2 { 1 } else { 0 };
            assert_eq!(level(&grid, r, c), expected, "level at [{r}][{c}]");
            if level(&grid, r, c) > 0 {
                lit += 1;
            }
        }
    }
    assert_eq!(lit, 3 + 4 - 1);
    assert_eq!(grid.grid[1][2], Tile::bulb(1));
}

#[test]
fn one_by_one_board_lights_only_itself() {
    let mut grid = test_grid(vec![vec![Tile::blank()]]);
    grid.toggle(0, 0);
    assert_eq!(grid.grid[0][0], Tile::bulb(1));
    grid.toggle(0, 0);
    assert_eq!(
        grid.grid[0][0],
        Tile::Togglable(TogglableTile {
            light_level: 0,
            content: TileContent::Cross,
        })
    );
}

#[test]
fn boxed_in_cell_lights_only_itself() {
    let mut grid = test_grid(vec![
        vec![Tile::blank(), Tile::wall(), Tile::blank()],
        vec![Tile::wall(), Tile::blank(), Tile::Wall(Wall::One)],
        vec![Tile::blank(), Tile::wall(), Tile::blank()],
    ]);
    grid.toggle(1, 1);
    let expected = test_grid(vec![
        vec![Tile::blank(), Tile::wall(), Tile::blank()],
        vec![Tile::wall(), Tile::bulb(1), Tile::Wall(Wall::One)],
        vec![Tile::blank(), Tile::wall(), Tile::blank()],
    ]);
    assert_grid(&expected, &grid);
}

#[test]
fn wall_keeps_two_bulbs_apart() {
    let mut grid = test_grid(vec![
        vec![Tile::blank(), Tile::blank(), Tile::wall(), Tile::blank(), Tile::blank()],
        vec![Tile::blank(), Tile::blank(), Tile::blank(), Tile::blank(), Tile::blank()],
    ]);
    grid.toggle(0, 0);
    grid.toggle(0, 4);
    let expected = test_grid(vec![
        vec![Tile::bulb(1), Tile::lit_empty(1), Tile::wall(), Tile::lit_empty(1), Tile::bulb(1)],
        vec![Tile::lit_empty(1), Tile::blank(), Tile::blank(), Tile::blank(), Tile::lit_empty(1)],
    ]);
    assert_grid(&expected, &grid);
}

#[test]
fn wall_in_a_column_blocks_light() {
    let mut grid = test_grid(vec![
        vec![Tile::blank()],
        vec![Tile::blank()],
        vec![Tile::Wall(Wall::Zero)],
        vec![Tile::blank()],
    ]);
    grid.toggle(0, 0);
    let expected = test_grid(vec![
        vec![Tile::bulb(1)],
        vec![Tile::lit_empty(1)],
        vec![Tile::Wall(Wall::Zero)],
        vec![Tile::blank()],
    ]);
    assert_grid(&expected, &grid);
}

#[test]
fn overlapping_light_adds_up_and_comes_off_one_at_a_time() {
    let mut grid = test_grid(vec![vec![Tile::blank(); 4]; 2]);
    grid.toggle(0, 0);
    grid.toggle(0, 3);
    assert_eq!(level(&grid, 0, 1), 2);
    assert_eq!(level(&grid, 0, 2), 2);
    assert_eq!(level(&grid, 0, 0), 2);
    assert_eq!(level(&grid, 1, 0), 1);
    assert_eq!(level(&grid, 1, 3), 1);
    // Removing the first bulb (bulb -> cross) leaves the second's light.
    grid.toggle(0, 0);
    let expected = test_grid(vec![
        vec![
            Tile::Togglable(TogglableTile {
                light_level: 1,
                content: TileContent::Cross,
            }),
            Tile::lit_empty(1),
            Tile::lit_empty(1),
            Tile::bulb(1),
        ],
        vec![Tile::blank(), Tile::blank(), Tile::blank(), Tile::lit_empty(1)],
    ]);
    assert_grid(&expected, &grid);
}

#[test]
fn toggle_back_inserts_a_bulb_from_a_cross() {
    let mut grid = test_grid(vec![vec![Tile::blank(); 3]]);
    grid.toggle_back(0, 1);
    assert_eq!(
        grid.grid[0][1],
        Tile::Togglable(TogglableTile {
            light_level: 0,
            content: TileContent::Cross,
        })
    );
    grid.toggle_back(0, 1);
    let expected = test_grid(vec![vec![Tile::lit_empty(1), Tile::bulb(1), Tile::lit_empty(1)]]);
    assert_grid(&expected, &grid);
    grid.toggle_back(0, 1);
    assert_grid(&test_grid(vec![vec![Tile::blank(); 3]]), &grid);
}

#[test]
fn toggling_a_wall_changes_nothing() {
    let start = test_grid(vec![vec![Tile::blank(), Tile::Wall(Wall::Three), Tile::blank()]]);
    let mut grid = start.clone();
    grid.toggle(0, 1);
    assert_grid(&start, &grid);
    grid.toggle_back(0, 1);
    assert_grid(&start, &grid);
}

#[test]
fn hardcoded_puzzle_layout() {
    let grid = Grid::new_hardcoded();
    assert_eq!(grid.size(), Xy { x: 5, y: 5 });
    assert_eq!(grid.grid[0][2], Tile::Wall(Wall::Three));
    assert_eq!(grid.grid[1][3], Tile::Wall(Wall::Four));
    assert_eq!(grid.grid[2][0], Tile::Wall(Wall::Clear));
    assert_eq!(grid.grid[2][1], Tile::Wall(Wall::One));
    assert_eq!(grid.grid[4][3], Tile::wall());
    let walls = grid
        .grid
        .iter()
        .flatten()
        .filter(|t| matches!(t, Tile::Wall(_)))
        .count();
    assert_eq!(walls, 5);
    assert!(grid
        .grid
        .iter()
        .flatten()
        .all(|t| matches!(t, Tile::Wall(_)) || *t == Tile::blank()));
    assert_eq!(
        grid.solution,
        vec![(0, 4), (1, 0), (1, 3), (2, 1), (3, 0), (3, 2), (4, 1)]
    );
}

#[test]
fn size_is_columns_across_rows_down() {
    let grid = test_grid(vec![vec![Tile::blank(); 3]; 4]);
    assert_eq!(grid.size(), Xy { x: 3, y: 4 });
}

#[test]
fn largest_board_reaches_the_top_light_level() {
    // 128 + 128 - 1 = 255 cells share row 0 or column 0: the most a u8 holds.
    let mut grid = test_grid(vec![vec![Tile::blank(); 128]; 128]);
    for c in 0..128 {
        grid.toggle(0, c);
    }
    for r in 1..128 {
        grid.toggle(r, 0);
    }
    assert_eq!(grid.grid[0][0], Tile::bulb(255));
    assert_eq!(grid.grid[0][5], Tile::bulb(128));
    assert_eq!(grid.grid[5][5], Tile::lit_empty(2));
    grid.toggle(0, 0);
    assert_eq!(level(&grid, 0, 0), 254);
    assert_eq!(level(&grid, 5, 5), 2);
    assert_eq!(level(&grid, 0, 5), 127);
}
