//! What toggles do to the light, stated over whole boards.

use crate::grid::{
    board_wf, bulb_delta, differ_at_most_at, in_bounds, in_sight, is_rect, lemma_light_count_shift,
    lemma_same_sight, light_count, same_walls, toggled,
};
use crate::tile::{BulbAction, Tile};
use vstd::prelude::*;
use vstd::set_lib::{lemma_int_range, lemma_map_size, lemma_set_disjoint_lens, set_int_range};

verus! {

/// A toggle keeps the board's shape and walls, and moves bulbs on (row, col) alone.
proof fn lemma_toggled_shape(g: Seq<Seq<Tile>>, h: Seq<Seq<Tile>>, row: int, col: int, forward: bool)
    requires
        is_rect(g),
        toggled(g, h, row, col, forward),
    ensures
        is_rect(h),
        differ_at_most_at(g, h, row, col),
        in_bounds(g, row, col) ==> bulb_delta(g, h, row, col) == if in_sight(g, row, col, row, col) {
            g[row][col].action(forward).light_delta()
        } else {
            0
        },
        forall|r: int, c: int| #[trigger] in_sight(h, row, col, r, c) == in_sight(g, row, col, r, c),
{
    assert forall|r: int, c: int| in_bounds(g, r, c) implies (#[trigger] h[r][c]).is_wall()
        == g[r][c].is_wall() by {
        assert(h[r][c].unlit() == (if r == row && c == col {
            g[r][c].stepped(forward)
        } else {
            g[r][c]
        }).unlit());
    }
    assert(h[0].len() == g[0].len());
    assert forall|r: int, c: int| #[trigger] in_sight(h, row, col, r, c) == in_sight(g, row, col, r, c) by {
        lemma_same_sight(g, h, row, col, r, c);
    }
    if in_bounds(g, row, col) {
        assert(h[row][col].unlit() == g[row][col].stepped(forward).unlit());
    }
}

/// Toggling a cell and then toggling it the other way restores the whole
/// board: every content and every light level.
pub proof fn lemma_toggle_round_trip(
    g: Seq<Seq<Tile>>,
    h: Seq<Seq<Tile>>,
    k: Seq<Seq<Tile>>,
    row: int,
    col: int,
    forward: bool,
)
    requires
        board_wf(g),
        in_bounds(g, row, col),
        toggled(g, h, row, col, forward),
        toggled(h, k, row, col, !forward),
    ensures
        k == g,
{
    lemma_toggled_shape(g, h, row, col, forward);
    assert(h[row][col].unlit() == g[row][col].stepped(forward).unlit());
    assert(h[row][col].action(!forward).light_delta() == -g[row][col].action(forward).light_delta());
    assert forall|r: int| 0 <= r < g.len() implies #[trigger] k[r] =~= g[r] by {
        assert forall|c: int| 0 <= c < g[r].len() implies #[trigger] k[r][c] == g[r][c] by {
            assert(in_bounds(g, r, c));
            assert(in_bounds(h, r, c));
            Tile::lemma_unlit_level_eq(k[r][c], g[r][c]);
        }
    }
    assert(k =~= g);
}

/// Each toggle keeps a well-formed board well formed: every light level stays
/// the number of bulbs in sight, so no level ever drops below zero, whatever
/// sequence of toggles is made.
pub proof fn lemma_toggle_keeps_light_counts(
    g: Seq<Seq<Tile>>,
    h: Seq<Seq<Tile>>,
    row: int,
    col: int,
    forward: bool,
)
    requires
        board_wf(g),
        in_bounds(g, row, col),
        toggled(g, h, row, col, forward),
    ensures
        board_wf(h),
{
    lemma_toggled_shape(g, h, row, col, forward);
    assert forall|r: int, c: int| in_bounds(h, r, c) && !h[r][c].is_wall() implies (
    #[trigger] h[r][c]).level() == light_count(h, r, c) by {
        assert(in_bounds(g, r, c));
        lemma_light_count_shift(g, h, row, col, r, c);
    }
}

/// A cell that holds a bulb on a well-formed board is lit, by that bulb at least.
pub proof fn lemma_bulb_is_lit(g: Seq<Seq<Tile>>, r: int, c: int)
    requires
        board_wf(g),
        in_bounds(g, r, c),
        g[r][c].has_bulb(),
    ensures
        g[r][c].level() >= 1,
{
    lemma_row_sources_reach(g, r, c, g[r].len() as int);
}

proof fn lemma_row_sources_reach(g: Seq<Seq<Tile>>, r: int, c: int, n: int)
    requires
        0 <= c < n,
        g[r][c].has_bulb(),
    ensures
        crate::grid::row_sources(g, r, c, n) >= 1,
    decreases n,
{
    if n - 1 > c {
        lemma_row_sources_reach(g, r, c, n - 1);
    } else {
        assert(crate::grid::row_clear(g, r, c, c));
    }
}

/// The cells whose light a change from `g` to `h` raised.
pub open spec fn brightened(g: Seq<Seq<Tile>>, h: Seq<Seq<Tile>>) -> Set<(int, int)> {
    Set::new(|p: (int, int)| in_bounds(g, p.0, p.1) && h[p.0][p.1].level() > g[p.0][p.1].level())
}

/// The cells of row `row` and of column `col`.
pub open spec fn cross(g: Seq<Seq<Tile>>, row: int, col: int) -> Set<(int, int)> {
    Set::new(|p: (int, int)| in_bounds(g, p.0, p.1) && (p.0 == row || p.1 == col))
}

/// A row and a column of a rectangular board meet in one cell: together they
/// hold rows + columns - 1 cells.
pub proof fn lemma_cross_len(g: Seq<Seq<Tile>>, row: int, col: int)
    requires
        is_rect(g),
        in_bounds(g, row, col),
    ensures
        cross(g, row, col).finite(),
        cross(g, row, col).len() == g.len() + g[0].len() - 1,
{
    let cols = g[0].len() as int;
    let rows = g.len() as int;
    let across = |j: int| (row, j);
    let down = |i: int| (i, col);
    let in_row = set_int_range(0, cols).map(across);
    let in_col = set_int_range(0, rows).remove(row).map(down);
    lemma_int_range(0, cols);
    lemma_int_range(0, rows);
    lemma_map_size(set_int_range(0, cols), in_row, across);
    lemma_map_size(set_int_range(0, rows).remove(row), in_col, down);
    assert(in_row.disjoint(in_col));
    lemma_set_disjoint_lens(in_row, in_col);
    assert forall|p: (int, int)| #[trigger] cross(g, row, col).contains(p) <==> (in_row
        + in_col).contains(p) by {
        if cross(g, row, col).contains(p) {
            if p.0 == row {
                assert(set_int_range(0, cols).contains(p.1));
                assert(across(p.1) == p);
            } else {
                assert(set_int_range(0, rows).remove(row).contains(p.0));
                assert(down(p.0) == p);
                assert(g[p.0].len() == cols);
            }
        }
        if in_row.contains(p) {
            let j = choose|j: int| set_int_range(0, cols).contains(j) && across(j) == p;
        }
        if in_col.contains(p) {
            let i = choose|i: int| set_int_range(0, rows).remove(row).contains(i) && down(i) == p;
            assert(g[i].len() == cols);
        }
    }
    assert(cross(g, row, col) =~= in_row + in_col);
}

/// On a board without walls, inserting a bulb lights exactly the cells of its
/// row and its column, rows + columns - 1 of them, each by one more bulb; the
/// bulb's own cell is then lit.
pub proof fn lemma_open_board_lights_cross(
    g: Seq<Seq<Tile>>,
    h: Seq<Seq<Tile>>,
    row: int,
    col: int,
    forward: bool,
)
    requires
        board_wf(g),
        in_bounds(g, row, col),
        forall|r: int, c: int| in_bounds(g, r, c) ==> !(#[trigger] g[r][c]).is_wall(),
        g[row][col].action(forward) == BulbAction::Inserted,
        toggled(g, h, row, col, forward),
    ensures
        forall|r: int, c: int|
            in_bounds(g, r, c) ==> #[trigger] h[r][c].level() == g[r][c].level() + if r == row
                || c == col {
                1int
            } else {
                0
            },
        brightened(g, h) == cross(g, row, col),
        brightened(g, h).len() == g.len() + g[0].len() - 1,
        h[row][col].level() >= 1,
{
    assert forall|r: int, c: int| in_bounds(g, r, c) implies #[trigger] in_sight(g, row, col, r, c)
        == (r == row || c == col) by {
        if r == row {
            assert forall|j: int| (col <= j <= c || c <= j <= col) implies !(
            #[trigger] g[r][j]).is_wall() by {
                assert(in_bounds(g, r, j));
            }
        }
        if c == col {
            assert forall|i: int| (row <= i <= r || r <= i <= row) implies !(
            #[trigger] g[i][c]).is_wall() by {
                assert(in_bounds(g, i, c));
            }
        }
    }
    assert(brightened(g, h) =~= cross(g, row, col));
    lemma_cross_len(g, row, col);
}

/// A wall on row `row` or column `col`, at index `w`, stands strictly between
/// (row, col) and (r, c).
pub open spec fn wall_between(g: Seq<Seq<Tile>>, row: int, col: int, r: int, c: int, w: int) -> bool {
    ||| r == row && g[row][w].is_wall() && (col < w < c || c < w < col)
    ||| c == col && g[w][col].is_wall() && (row < w < r || r < w < row)
}

/// A wall stops light: toggling (row, col) leaves untouched every cell that a
/// wall on the same row or column separates from it.
pub proof fn lemma_wall_blocks_light(
    g: Seq<Seq<Tile>>,
    h: Seq<Seq<Tile>>,
    row: int,
    col: int,
    forward: bool,
    r: int,
    c: int,
    w: int,
)
    requires
        board_wf(g),
        in_bounds(g, row, col),
        in_bounds(g, r, c),
        toggled(g, h, row, col, forward),
        wall_between(g, row, col, r, c, w),
    ensures
        h[r][c] == g[r][c],
{
    assert(!in_sight(g, row, col, r, c));
    assert(!(r == row && c == col));
    Tile::lemma_unlit_level_eq(h[r][c], g[r][c]);
}

/// Light adds up: after bulbs were inserted on two cells, each cell holds the
/// light of both, and taking the first away leaves exactly the second's.
pub proof fn lemma_light_accumulates(
    g: Seq<Seq<Tile>>,
    h1: Seq<Seq<Tile>>,
    h2: Seq<Seq<Tile>>,
    h3: Seq<Seq<Tile>>,
    a: (int, int),
    b: (int, int),
    dirs: (bool, bool, bool),
)
    requires
        board_wf(g),
        in_bounds(g, a.0, a.1),
        in_bounds(g, b.0, b.1),
        a != b,
        g[a.0][a.1].action(dirs.0) == BulbAction::Inserted,
        toggled(g, h1, a.0, a.1, dirs.0),
        h1[b.0][b.1].action(dirs.1) == BulbAction::Inserted,
        toggled(h1, h2, b.0, b.1, dirs.1),
        h2[a.0][a.1].action(dirs.2) == BulbAction::Removed,
        toggled(h2, h3, a.0, a.1, dirs.2),
    ensures
        forall|r: int, c: int|
            in_bounds(g, r, c) ==> #[trigger] h2[r][c].level() == g[r][c].level() + (if in_sight(
                g,
                a.0,
                a.1,
                r,
                c,
            ) {
                1int
            } else {
                0
            }) + (if in_sight(g, b.0, b.1, r, c) {
                1int
            } else {
                0
            }),
        forall|r: int, c: int|
            in_bounds(g, r, c) ==> #[trigger] h3[r][c].level() == g[r][c].level() + if in_sight(
                g,
                b.0,
                b.1,
                r,
                c,
            ) {
                1int
            } else {
                0
            },
{
    lemma_toggled_shape(g, h1, a.0, a.1, dirs.0);
    lemma_toggled_shape(h1, h2, b.0, b.1, dirs.1);
    lemma_toggled_shape(h2, h3, a.0, a.1, dirs.2);
    assert forall|r: int, c: int| in_bounds(g, r, c) implies #[trigger] in_sight(h1, b.0, b.1, r, c)
        == in_sight(g, b.0, b.1, r, c) && in_sight(h2, a.0, a.1, r, c) == in_sight(
        g,
        a.0,
        a.1,
        r,
        c,
    ) by {
        assert(same_walls(g, h2)) by {
            assert forall|i: int, j: int| in_bounds(g, i, j) implies (#[trigger] h2[i][j]).is_wall()
                == g[i][j].is_wall() by {
                assert(in_bounds(h1, i, j));
            }
        }
        lemma_same_sight(g, h1, b.0, b.1, r, c);
        lemma_same_sight(g, h2, a.0, a.1, r, c);
    }
    assert forall|r: int, c: int| in_bounds(g, r, c) implies #[trigger] h3[r][c].level() == g[r][c].level()
        + if in_sight(g, b.0, b.1, r, c) {
        1int
    } else {
        0
    } by {
        assert(in_bounds(h1, r, c));
        assert(in_bounds(h2, r, c));
        assert(in_sight(h1, b.0, b.1, r, c) == in_sight(g, b.0, b.1, r, c));
        assert(in_sight(h2, a.0, a.1, r, c) == in_sight(g, a.0, a.1, r, c));
    }
}

} // verus!
