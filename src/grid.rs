use crate::tile::{BulbAction, TileContent, Tile, TogglableTile, Wall};
use vstd::prelude::*;

verus! {

/// A pair of sizes or positions: `x` across, `y` down.
#[derive(Debug, Clone, Copy, PartialEq, Eq, Structural)]
pub struct Xy {
    pub x: usize,
    pub y: usize,
}

/// The board: rows of tiles, and the puzzle's known solution as (row, column) pairs.
#[derive(Debug, Clone, PartialEq, Eq)]
pub struct Grid {
    pub grid: Vec<Vec<Tile>>,
    pub solution: Vec<(usize, usize)>,
}

impl View for Grid {
    type V = Seq<Seq<Tile>>;

    open spec fn view(&self) -> Seq<Seq<Tile>> {
        self.grid@.map_values(|row: Vec<Tile>| row@)
    }
}

/// At least one row and one column, every row as long as the first.
pub open spec fn is_rect(g: Seq<Seq<Tile>>) -> bool {
    &&& g.len() >= 1
    &&& g[0].len() >= 1
    &&& forall|r: int| 0 <= r < g.len() ==> #[trigger] g[r].len() == g[0].len()
}

pub open spec fn in_bounds(g: Seq<Seq<Tile>>, r: int, c: int) -> bool {
    0 <= r < g.len() && 0 <= c < g[r].len()
}

/// No wall on row `r` between columns `a` and `b`, both included.
pub open spec fn row_clear(g: Seq<Seq<Tile>>, r: int, a: int, b: int) -> bool {
    forall|j: int| (a <= j <= b || b <= j <= a) ==> !(#[trigger] g[r][j]).is_wall()
}

/// No wall on column `c` between rows `a` and `b`, both included.
pub open spec fn col_clear(g: Seq<Seq<Tile>>, c: int, a: int, b: int) -> bool {
    forall|i: int| (a <= i <= b || b <= i <= a) ==> !(#[trigger] g[i][c]).is_wall()
}

/// A bulb on (br, bc) lights (r, c): they share a row or a column, and no wall
/// stands between them, the two cells included. A togglable cell is in its own sight.
pub open spec fn in_sight(g: Seq<Seq<Tile>>, br: int, bc: int, r: int, c: int) -> bool {
    &&& in_bounds(g, br, bc)
    &&& in_bounds(g, r, c)
    &&& {
        ||| br == r && row_clear(g, r, bc, c)
        ||| bc == c && col_clear(g, c, br, r)
    }
}

/// Bulbs among the first `n` cells of row `r` that light (r, c), (r, c) itself included.
pub open spec fn row_sources(g: Seq<Seq<Tile>>, r: int, c: int, n: int) -> nat
    decreases n,
{
    if n <= 0 {
        0
    } else {
        row_sources(g, r, c, n - 1) + if g[r][n - 1].has_bulb() && row_clear(g, r, n - 1, c) {
            1nat
        } else {
            0nat
        }
    }
}

/// Bulbs among the first `n` cells of column `c`, row `r` left out, that light (r, c).
pub open spec fn col_sources(g: Seq<Seq<Tile>>, r: int, c: int, n: int) -> nat
    decreases n,
{
    if n <= 0 {
        0
    } else {
        col_sources(g, r, c, n - 1) + if n - 1 != r && g[n - 1][c].has_bulb() && col_clear(
            g,
            c,
            n - 1,
            r,
        ) {
            1nat
        } else {
            0nat
        }
    }
}

/// The number of bulbs that light (r, c): those in sight along its row, the
/// cell itself included, and those in sight along its column.
pub open spec fn light_count(g: Seq<Seq<Tile>>, r: int, c: int) -> nat {
    row_sources(g, r, c, g[r].len() as int) + col_sources(g, r, c, g.len() as int)
}

/// A well-formed board: rectangular, small enough that no light level can pass
/// what a `u8` holds, and each togglable cell's level is the number of bulbs
/// that light it.
pub open spec fn board_wf(g: Seq<Seq<Tile>>) -> bool {
    &&& is_rect(g)
    &&& g.len() + g[0].len() <= 256
    &&& forall|r: int, c: int|
        in_bounds(g, r, c) && !g[r][c].is_wall() ==> (#[trigger] g[r][c]).level() == light_count(
            g,
            r,
            c,
        )
}

/// `h` is `g` after one toggle (forward or backward) of (row, col): the shape
/// and every tile but (row, col) are kept apart from light, (row, col) took one
/// step of its cycle, and each cell in sight of (row, col) gained or lost the
/// light that the step's action brings.
pub open spec fn toggled(g: Seq<Seq<Tile>>, h: Seq<Seq<Tile>>, row: int, col: int, forward: bool) -> bool {
    &&& h.len() == g.len()
    &&& forall|r: int| 0 <= r < g.len() ==> #[trigger] h[r].len() == g[r].len()
    &&& forall|r: int, c: int|
        in_bounds(g, r, c) ==> {
            let before = if r == row && c == col {
                g[r][c].stepped(forward)
            } else {
                g[r][c]
            };
            &&& (#[trigger] h[r][c]).unlit() == before.unlit()
            &&& h[r][c].level() == before.level() + if in_sight(g, row, col, r, c) {
                g[row][col].action(forward).light_delta()
            } else {
                0
            }
        }
}

/// Same shape, and walls in the same cells.
pub(crate) open spec fn same_walls(g: Seq<Seq<Tile>>, h: Seq<Seq<Tile>>) -> bool {
    &&& g.len() == h.len()
    &&& forall|r: int| 0 <= r < g.len() ==> #[trigger] h[r].len() == g[r].len()
    &&& forall|r: int, c: int|
        in_bounds(g, r, c) ==> (#[trigger] h[r][c]).is_wall() == g[r][c].is_wall()
}

/// Same shape, walls in the same cells, and the same bulbs except perhaps on (row, col).
pub(crate) open spec fn differ_at_most_at(g: Seq<Seq<Tile>>, h: Seq<Seq<Tile>>, row: int, col: int) -> bool {
    &&& same_walls(g, h)
    &&& forall|r: int, c: int|
        in_bounds(g, r, c) && !(r == row && c == col) ==> (#[trigger] h[r][c]).has_bulb()
            == g[r][c].has_bulb()
}

/// +1 where a bulb appeared on (row, col), -1 where one left, 0 otherwise.
pub(crate) open spec fn bulb_delta(g: Seq<Seq<Tile>>, h: Seq<Seq<Tile>>, row: int, col: int) -> int {
    (if h[row][col].has_bulb() {
        1int
    } else {
        0
    }) - (if g[row][col].has_bulb() {
        1int
    } else {
        0
    })
}

proof fn lemma_row_sources_shift(
    g: Seq<Seq<Tile>>,
    h: Seq<Seq<Tile>>,
    row: int,
    col: int,
    r: int,
    c: int,
    n: int,
)
    requires
        is_rect(g),
        differ_at_most_at(g, h, row, col),
        in_bounds(g, r, c),
        0 <= n <= g[r].len(),
    ensures
        row_sources(h, r, c, n) == row_sources(g, r, c, n) + if r == row && 0 <= col < n
            && row_clear(g, r, col, c) {
            bulb_delta(g, h, row, col)
        } else {
            0
        },
    decreases n,
{
    if n > 0 {
        lemma_row_sources_shift(g, h, row, col, r, c, n - 1);
        assert(row_clear(h, r, n - 1, c) == row_clear(g, r, n - 1, c)) by {
            if row_clear(g, r, n - 1, c) {
                assert forall|j: int| (n - 1 <= j <= c || c <= j <= n - 1) implies !(
                #[trigger] h[r][j]).is_wall() by {
                    assert(in_bounds(g, r, j));
                }
            }
            if row_clear(h, r, n - 1, c) {
                assert forall|j: int| (n - 1 <= j <= c || c <= j <= n - 1) implies !(
                #[trigger] g[r][j]).is_wall() by {
                    assert(in_bounds(g, r, j));
                    assert(!h[r][j].is_wall());
                }
            }
        }
        assert(in_bounds(g, r, n - 1));
    }
}

proof fn lemma_col_sources_shift(
    g: Seq<Seq<Tile>>,
    h: Seq<Seq<Tile>>,
    row: int,
    col: int,
    r: int,
    c: int,
    n: int,
)
    requires
        is_rect(g),
        differ_at_most_at(g, h, row, col),
        in_bounds(g, r, c),
        0 <= n <= g.len(),
    ensures
        col_sources(h, r, c, n) == col_sources(g, r, c, n) + if c == col && row != r && 0 <= row
            < n && col_clear(g, c, row, r) {
            bulb_delta(g, h, row, col)
        } else {
            0
        },
    decreases n,
{
    if n > 0 {
        lemma_col_sources_shift(g, h, row, col, r, c, n - 1);
        assert(col_clear(h, c, n - 1, r) == col_clear(g, c, n - 1, r)) by {
            if col_clear(g, c, n - 1, r) {
                assert forall|i: int| (n - 1 <= i <= r || r <= i <= n - 1) implies !(
                #[trigger] h[i][c]).is_wall() by {
                    assert(in_bounds(g, i, c));
                }
            }
            if col_clear(h, c, n - 1, r) {
                assert forall|i: int| (n - 1 <= i <= r || r <= i <= n - 1) implies !(
                #[trigger] g[i][c]).is_wall() by {
                    assert(in_bounds(g, i, c));
                    assert(!h[i][c].is_wall());
                }
            }
        }
        assert(in_bounds(g, n - 1, c));
    }
}

/// Changing the bulb on (row, col) alone changes the count of each cell by
/// exactly the change, where (row, col) is in its sight, and nowhere else.
pub(crate) proof fn lemma_light_count_shift(
    g: Seq<Seq<Tile>>,
    h: Seq<Seq<Tile>>,
    row: int,
    col: int,
    r: int,
    c: int,
)
    requires
        is_rect(g),
        differ_at_most_at(g, h, row, col),
        in_bounds(g, row, col),
        in_bounds(g, r, c),
    ensures
        light_count(h, r, c) == light_count(g, r, c) + if in_sight(g, row, col, r, c) {
            bulb_delta(g, h, row, col)
        } else {
            0
        },
{
    lemma_row_sources_shift(g, h, row, col, r, c, g[r].len() as int);
    lemma_col_sources_shift(g, h, row, col, r, c, g.len() as int);
    assert(h[r].len() == g[r].len());
    if r == row && c == col && !row_clear(g, r, col, c) {
        assert(g[row][col].is_wall());
        assert(!g[row][col].has_bulb() && !h[row][col].has_bulb());
    }
}

proof fn lemma_row_sources_bound(g: Seq<Seq<Tile>>, r: int, c: int, n: int)
    requires
        0 <= n,
    ensures
        row_sources(g, r, c, n) <= n,
    decreases n,
{
    if n > 0 {
        lemma_row_sources_bound(g, r, c, n - 1);
    }
}

proof fn lemma_col_sources_bound(g: Seq<Seq<Tile>>, r: int, c: int, n: int)
    requires
        0 <= n,
    ensures
        col_sources(g, r, c, n) <= n - if 0 <= r < n {
            1int
        } else {
            0
        },
    decreases n,
{
    if n > 0 {
        lemma_col_sources_bound(g, r, c, n - 1);
    }
}

/// No cell is lit by more bulbs than its row and column hold.
proof fn lemma_light_count_bound(g: Seq<Seq<Tile>>, r: int, c: int)
    requires
        0 <= r < g.len(),
    ensures
        light_count(g, r, c) <= g[r].len() + g.len() - 1,
{
    lemma_row_sources_bound(g, r, c, g[r].len() as int);
    lemma_col_sources_bound(g, r, c, g.len() as int);
}

/// Two boards of one shape with walls in the same cells see alike.
pub(crate) proof fn lemma_same_sight(g: Seq<Seq<Tile>>, h: Seq<Seq<Tile>>, br: int, bc: int, r: int, c: int)
    requires
        is_rect(g),
        same_walls(g, h),
    ensures
        in_sight(h, br, bc, r, c) == in_sight(g, br, bc, r, c),
{
    if in_bounds(g, br, bc) && in_bounds(g, r, c) {
        if br == r {
            assert(row_clear(h, r, bc, c) == row_clear(g, r, bc, c)) by {
                if row_clear(g, r, bc, c) {
                    assert forall|j: int| (bc <= j <= c || c <= j <= bc) implies !(
                    #[trigger] h[r][j]).is_wall() by {
                        assert(in_bounds(g, r, j));
                    }
                }
                if row_clear(h, r, bc, c) {
                    assert forall|j: int| (bc <= j <= c || c <= j <= bc) implies !(
                    #[trigger] g[r][j]).is_wall() by {
                        assert(in_bounds(g, r, j));
                        assert(!h[r][j].is_wall());
                    }
                }
            }
        }
        if bc == c {
            assert(col_clear(h, c, br, r) == col_clear(g, c, br, r)) by {
                if col_clear(g, c, br, r) {
                    assert forall|i: int| (br <= i <= r || r <= i <= br) implies !(
                    #[trigger] h[i][c]).is_wall() by {
                        assert(in_bounds(g, i, c));
                    }
                }
                if col_clear(h, c, br, r) {
                    assert forall|i: int| (br <= i <= r || r <= i <= br) implies !(
                    #[trigger] g[i][c]).is_wall() by {
                        assert(in_bounds(g, i, c));
                        assert(!h[i][c].is_wall());
                    }
                }
            }
        }
    }
}

/// Stepping the content of (row, col) on a well-formed board leaves every level
/// short of its new count by exactly what the step's action brings where
/// (row, col) is in sight.
proof fn lemma_step_pending(g: Seq<Seq<Tile>>, h: Seq<Seq<Tile>>, row: int, col: int, forward: bool)
    requires
        board_wf(g),
        in_bounds(g, row, col),
        h == g.update(row, g[row].update(col, g[row][col].stepped(forward))),
    ensures
        is_rect(h),
        differ_at_most_at(g, h, row, col),
        forall|r: int, c: int|
            in_bounds(h, r, c) && !h[r][c].is_wall() ==> (#[trigger] h[r][c]).level() + if in_sight(
                h,
                row,
                col,
                r,
                c,
            ) {
                g[row][col].action(forward).light_delta()
            } else {
                0
            } == light_count(h, r, c),
{
    assert(differ_at_most_at(g, h, row, col));
    assert forall|r: int, c: int|
        in_bounds(h, r, c) && !h[r][c].is_wall() implies (#[trigger] h[r][c]).level() + if in_sight(
            h,
            row,
            col,
            r,
            c,
        ) {
            g[row][col].action(forward).light_delta()
        } else {
            0
        } == light_count(h, r, c) by {
        lemma_light_count_shift(g, h, row, col, r, c);
        lemma_same_sight(g, h, row, col, r, c);
        assert(h[r][c].level() == g[r][c].level());
    }
}

/// Stepping (row, col) and then shifting the light in its sight by the step's
/// action is one toggle.
proof fn lemma_toggled(
    g: Seq<Seq<Tile>>,
    h: Seq<Seq<Tile>>,
    k: Seq<Seq<Tile>>,
    row: int,
    col: int,
    forward: bool,
)
    requires
        board_wf(g),
        in_bounds(g, row, col),
        h == g.update(row, g[row].update(col, g[row][col].stepped(forward))),
        k.len() == h.len(),
        forall|r: int| 0 <= r < h.len() ==> #[trigger] k[r].len() == h[r].len(),
        forall|r: int, c: int|
            in_bounds(h, r, c) ==> (#[trigger] k[r][c]).unlit() == h[r][c].unlit() && k[r][c].level()
                == h[r][c].level() + if in_sight(h, row, col, r, c) {
                g[row][col].action(forward).light_delta()
            } else {
                0
            },
    ensures
        toggled(g, k, row, col, forward),
{
    assert(differ_at_most_at(g, h, row, col));
    assert forall|r: int, c: int| in_bounds(g, r, c) implies {
        let before = if r == row && c == col {
            g[r][c].stepped(forward)
        } else {
            g[r][c]
        };
        &&& (#[trigger] k[r][c]).unlit() == before.unlit()
        &&& k[r][c].level() == before.level() + if in_sight(g, row, col, r, c) {
            g[row][col].action(forward).light_delta()
        } else {
            0
        }
    } by {
        lemma_same_sight(g, h, row, col, r, c);
        assert(in_bounds(h, r, c));
    }
}

/// An empty cell that no bulb lights.
pub open spec fn open_cell() -> Tile {
    Tile::Togglable(TogglableTile { light_level: 0, content: TileContent::Nothing })
}

/// The built-in 5x5 puzzle.
pub open spec fn puzzle_layout() -> Seq<Seq<Tile>> {
    let o = open_cell();
    seq![
        seq![o, o, Tile::Wall(Wall::Three), o, o],
        seq![o, o, o, Tile::Wall(Wall::Four), o],
        seq![Tile::Wall(Wall::Clear), Tile::Wall(Wall::One), o, o, o],
        seq![o, o, o, o, o],
        seq![o, o, o, Tile::Wall(Wall::Clear), o],
    ]
}

/// The built-in puzzle's bulbs, as (row, column) pairs.
pub open spec fn puzzle_solution() -> Seq<(usize, usize)> {
    seq![(0, 4), (1, 0), (1, 3), (2, 1), (3, 0), (3, 2), (4, 1)]
}

proof fn lemma_no_bulb_row(g: Seq<Seq<Tile>>, r: int, c: int, n: int)
    requires
        0 <= r < g.len(),
        n <= g[r].len(),
        forall|j: int| 0 <= j < g[r].len() ==> !(#[trigger] g[r][j]).has_bulb(),
    ensures
        row_sources(g, r, c, n) == 0,
    decreases n,
{
    if n > 0 {
        lemma_no_bulb_row(g, r, c, n - 1);
    }
}

proof fn lemma_no_bulb_col(g: Seq<Seq<Tile>>, r: int, c: int, n: int)
    requires
        n <= g.len(),
        forall|i: int| 0 <= i < g.len() ==> !(#[trigger] g[i][c]).has_bulb(),
    ensures
        col_sources(g, r, c, n) == 0,
    decreases n,
{
    if n > 0 {
        lemma_no_bulb_col(g, r, c, n - 1);
    }
}

/// A rectangular board without bulbs or light is well formed.
proof fn lemma_dark_board_wf(g: Seq<Seq<Tile>>)
    requires
        is_rect(g),
        g.len() + g[0].len() <= 256,
        forall|r: int, c: int| in_bounds(g, r, c) ==> (#[trigger] g[r][c]).unlit() == g[r][c],
        forall|r: int, c: int| in_bounds(g, r, c) ==> !(#[trigger] g[r][c]).has_bulb(),
    ensures
        board_wf(g),
{
    assert forall|r: int, c: int| in_bounds(g, r, c) && !g[r][c].is_wall() implies (
    #[trigger] g[r][c]).level() == light_count(g, r, c) by {
        assert forall|j: int| 0 <= j < g[r].len() implies !(#[trigger] g[r][j]).has_bulb() by {
            assert(in_bounds(g, r, j));
        }
        assert forall|i: int| 0 <= i < g.len() implies !(#[trigger] g[i][c]).has_bulb() by {
            assert(in_bounds(g, i, c));
        }
        lemma_no_bulb_row(g, r, c, g[r].len() as int);
        lemma_no_bulb_col(g, r, c, g.len() as int);
    }
}

fn togglable_pos2(row: usize, col: usize, tile: &Tile) -> (pos: Option<(usize, usize)>)
    ensures
        pos == if tile.is_wall() {
            None
        } else {
            Some((row, col))
        },
{
    if let Tile::Togglable(_) = tile {
        Some((row, col))
    } else {
        None
    }
}

fn togglable_pos(row: usize, col: usize, row_tiles: &[Tile]) -> (pos: Option<(usize, usize)>)
    ensures
        pos == if col < row_tiles@.len() && !row_tiles@[col as int].is_wall() {
            Some((row, col))
        } else {
            None
        },
{
    if let Some(Tile::Togglable(_)) = row_tiles.get(col) {
        Some((row, col))
    } else {
        None
    }
}

impl Grid {
    /// The board is well formed: see `board_wf`.
    pub open spec fn wf(&self) -> bool {
        board_wf(self@)
    }

    /// The built-in 5x5 puzzle, with no bulb placed yet.
    pub fn new_hardcoded() -> (grid: Grid)
        ensures
            grid.wf(),
            grid@ == puzzle_layout(),
            grid.solution@ == puzzle_solution(),
    {
        let grid = Grid {
            grid: vec![
                vec![Tile::blank(), Tile::blank(), Tile::Wall(Wall::Three), Tile::blank(), Tile::blank()],
                vec![Tile::blank(), Tile::blank(), Tile::blank(), Tile::Wall(Wall::Four), Tile::blank()],
                vec![Tile::Wall(Wall::Clear), Tile::Wall(Wall::One), Tile::blank(), Tile::blank(), Tile::blank()],
                vec![Tile::blank(), Tile::blank(), Tile::blank(), Tile::blank(), Tile::blank()],
                vec![Tile::blank(), Tile::blank(), Tile::blank(), Tile::wall(), Tile::blank()],
            ],
            solution: vec![(0, 4), (1, 0), (1, 3), (2, 1), (3, 0), (3, 2), (4, 1)],
        };
        proof {
            assert(grid@ =~= puzzle_layout());
            assert(grid.solution@ =~= puzzle_solution());
            lemma_dark_board_wf(grid@);
        }
        grid
    }

    /// The board's extent: `x` columns across, `y` rows down.
    pub fn size(&self) -> (size: Xy)
        requires
            self@.len() >= 1,
        ensures
            size == (Xy { x: self@[0].len() as usize, y: self@.len() as usize }),
    {
        Xy { x: self.grid[0].len(), y: self.grid.len() }
    }

    /// Moves the content of (row, col) one step forward (nothing, bulb, cross)
    /// and updates the light of every cell in its sight.
    pub fn toggle(&mut self, row: usize, col: usize)
        requires
            old(self).wf(),
            row < old(self)@.len(),
            col < old(self)@[0].len(),
        ensures
            final(self).wf(),
            final(self).solution == old(self).solution,
            toggled(old(self)@, final(self)@, row as int, col as int, true),
    {
        let ghost g = self@;
        proof {
            assert(self@[row as int] == self.grid@[row as int]@);
        }
        let action = self.grid[row][col].toggle();
        let ghost h = g.update(
            row as int,
            g[row as int].update(col as int, g[row as int][col as int].stepped(true)),
        );
        proof {
            assert(self@[row as int] =~= h[row as int]);
            assert(self@ =~= h);
            lemma_step_pending(g, h, row as int, col as int, true);
        }
        self.handle_toggle(row, col, action);
        proof {
            lemma_toggled(g, h, self@, row as int, col as int, true);
        }
    }

    /// Moves the content of (row, col) one step backward (nothing, cross, bulb)
    /// and updates the light of every cell in its sight.
    pub fn toggle_back(&mut self, row: usize, col: usize)
        requires
            old(self).wf(),
            row < old(self)@.len(),
            col < old(self)@[0].len(),
        ensures
            final(self).wf(),
            final(self).solution == old(self).solution,
            toggled(old(self)@, final(self)@, row as int, col as int, false),
    {
        let ghost g = self@;
        proof {
            assert(self@[row as int] == self.grid@[row as int]@);
        }
        let action = self.grid[row][col].toggle_back();
        let ghost h = g.update(
            row as int,
            g[row as int].update(col as int, g[row as int][col as int].stepped(false)),
        );
        proof {
            assert(self@[row as int] =~= h[row as int]);
            assert(self@ =~= h);
            lemma_step_pending(g, h, row as int, col as int, false);
        }
        self.handle_toggle(row, col, action);
        proof {
            lemma_toggled(g, h, self@, row as int, col as int, false);
        }
    }

    /// The togglable cells of row `row` that (row, col) sees, itself left out.
    fn horizontal_neighbours(&self, row: usize, col: usize) -> (cells: Vec<(usize, usize)>)
        requires
            is_rect(self@),
            in_bounds(self@, row as int, col as int),
            !self@[row as int][col as int].is_wall(),
        ensures
            cells@.no_duplicates(),
            forall|k: int|
                0 <= k < cells@.len() ==> (#[trigger] cells@[k]).0 == row && cells@[k].1 != col
                    && in_bounds(self@, cells@[k].0 as int, cells@[k].1 as int),
            forall|j: usize|
                j < self@[row as int].len() ==> (cells@.contains((row, j)) <==> (j != col
                    && row_clear(self@, row as int, col as int, j as int))),
    {
        let ghost g = self@;
        let columns = self.grid[row].len();
        let mut cells: Vec<(usize, usize)> = Vec::new();
        let mut c: usize = col;
        while c > 0
            invariant
                g == self@,
                columns == g[row as int].len(),
                row < g.len(),
                col < columns,
                c <= col,
                cells@.len() == col - c,
                forall|k: int| 0 <= k < cells@.len() ==> #[trigger] cells@[k] == (row, (col - 1 - k) as usize),
                forall|j: int| c <= j <= col ==> !(#[trigger] g[row as int][j]).is_wall(),
            ensures
                c == 0 || g[row as int][c - 1].is_wall(),
            decreases c,
        {
            match togglable_pos2(row, c - 1, &self.grid[row][c - 1]) {
                Some(pos) => {
                    cells.push(pos);
                    c -= 1;
                },
                None => break,
            }
        }
        let ghost left_end = c as int;
        let left = cells.len();
        let mut c: usize = col + 1;
        while c < columns
            invariant
                g == self@,
                columns == g[row as int].len(),
                row < g.len(),
                col < c <= columns,
                left == col - left_end,
                0 <= left_end <= col,
                left_end == 0 || g[row as int][left_end - 1].is_wall(),
                forall|j: int| left_end <= j <= col ==> !(#[trigger] g[row as int][j]).is_wall(),
                cells@.len() == left + (c - col - 1),
                forall|k: int| 0 <= k < left ==> #[trigger] cells@[k] == (row, (col - 1 - k) as usize),
                forall|k: int| left <= k < cells@.len() ==> #[trigger] cells@[k] == (row, (col + 1 + (k - left)) as usize),
                forall|j: int| col <= j < c ==> !(#[trigger] g[row as int][j]).is_wall(),
            ensures
                c == columns || g[row as int][c as int].is_wall(),
            decreases columns - c,
        {
            match togglable_pos2(row, c, &self.grid[row][c]) {
                Some(pos) => {
                    cells.push(pos);
                    c += 1;
                },
                None => break,
            }
        }
        let ghost right_end = c as int;
        assert forall|j: usize|
            j < g[row as int].len() implies (cells@.contains((row, j)) <==> (j != col
                && row_clear(g, row as int, col as int, j as int))) by {
            if j < col {
                if j >= left_end {
                    assert(cells@[col - 1 - j] == (row, j));
                } else {
                    assert(g[row as int][left_end - 1].is_wall());
                }
            } else if j > col {
                if j < right_end {
                    assert(cells@[left + j - col - 1] == (row, j));
                } else {
                    assert(g[row as int][right_end].is_wall());
                }
            }
        }
        cells
    }

    /// The togglable cells of column `col` that (row, col) sees, itself left out.
    fn vertical_neighbours(&self, row: usize, col: usize) -> (cells: Vec<(usize, usize)>)
        requires
            is_rect(self@),
            in_bounds(self@, row as int, col as int),
            !self@[row as int][col as int].is_wall(),
        ensures
            cells@.no_duplicates(),
            forall|k: int|
                0 <= k < cells@.len() ==> (#[trigger] cells@[k]).1 == col && cells@[k].0 != row
                    && in_bounds(self@, cells@[k].0 as int, cells@[k].1 as int),
            forall|i: usize|
                i < self@.len() ==> (cells@.contains((i, col)) <==> (i != row && col_clear(
                    self@,
                    col as int,
                    row as int,
                    i as int,
                ))),
    {
        let ghost g = self@;
        let rows = self.grid.len();
        let mut cells: Vec<(usize, usize)> = Vec::new();
        let mut r: usize = row;
        while r > 0
            invariant
                g == self@,
                is_rect(g),
                rows == g.len(),
                row < rows,
                col < g[0].len(),
                r <= row,
                cells@.len() == row - r,
                forall|k: int| 0 <= k < cells@.len() ==> #[trigger] cells@[k] == ((row - 1 - k) as usize, col),
                forall|i: int| r <= i <= row ==> !(#[trigger] g[i][col as int]).is_wall(),
            ensures
                r == 0 || g[r - 1][col as int].is_wall(),
            decreases r,
        {
            match togglable_pos(r - 1, col, self.grid[r - 1].as_slice()) {
                Some(pos) => {
                    cells.push(pos);
                    r -= 1;
                },
                None => break,
            }
        }
        let ghost above_end = r as int;
        let above = cells.len();
        let mut r: usize = row + 1;
        while r < rows
            invariant
                g == self@,
                is_rect(g),
                rows == g.len(),
                col < g[0].len(),
                row < r <= rows,
                above == row - above_end,
                0 <= above_end <= row,
                above_end == 0 || g[above_end - 1][col as int].is_wall(),
                forall|i: int| above_end <= i <= row ==> !(#[trigger] g[i][col as int]).is_wall(),
                cells@.len() == above + (r - row - 1),
                forall|k: int| 0 <= k < above ==> #[trigger] cells@[k] == ((row - 1 - k) as usize, col),
                forall|k: int| above <= k < cells@.len() ==> #[trigger] cells@[k] == ((row + 1 + (k - above)) as usize, col),
                forall|i: int| row <= i < r ==> !(#[trigger] g[i][col as int]).is_wall(),
            ensures
                r == rows || g[r as int][col as int].is_wall(),
            decreases rows - r,
        {
            match togglable_pos(r, col, self.grid[r].as_slice()) {
                Some(pos) => {
                    cells.push(pos);
                    r += 1;
                },
                None => break,
            }
        }
        let ghost below_end = r as int;
        assert forall|i: usize|
            i < g.len() implies (cells@.contains((i, col)) <==> (i != row && col_clear(
                g,
                col as int,
                row as int,
                i as int,
            ))) by {
            if i < row {
                if i >= above_end {
                    assert(cells@[row - 1 - i] == (i, col));
                } else {
                    assert(g[above_end - 1][col as int].is_wall());
                }
            } else if i > row {
                if i < below_end {
                    assert(cells@[above + i - row - 1] == (i, col));
                } else {
                    assert(g[below_end][col as int].is_wall());
                }
            }
        }
        cells
    }

    /// Every cell that a bulb on (row, col) lights, (row, col) itself left out.
    fn affected_neighbours(&self, row: usize, col: usize) -> (cells: Vec<(usize, usize)>)
        requires
            is_rect(self@),
            in_bounds(self@, row as int, col as int),
            !self@[row as int][col as int].is_wall(),
        ensures
            cells@.no_duplicates(),
            forall|k: int|
                0 <= k < cells@.len() ==> in_bounds(
                    self@,
                    (#[trigger] cells@[k]).0 as int,
                    cells@[k].1 as int,
                ),
            forall|p: (usize, usize)|
                in_bounds(self@, p.0 as int, p.1 as int) ==> (cells@.contains(p) <==> (p != (
                    row,
                    col,
                ) && in_sight(self@, row as int, col as int, p.0 as int, p.1 as int))),
    {
        let mut cells = self.horizontal_neighbours(row, col);
        let mut vertical = self.vertical_neighbours(row, col);
        let ghost h = cells@;
        let ghost v = vertical@;
        cells.append(&mut vertical);
        proof {
            let g = self@;
            assert(cells@ == h + v);
            assert forall|a: int, b: int| 0 <= a < b < cells@.len() implies cells@[a] != cells@[b] by {
                if b < h.len() {
                    assert(h[a] != h[b]);
                } else if a >= h.len() {
                    assert(v[a - h.len()] != v[b - h.len()]);
                } else {
                    assert(h[a].0 == row);
                    assert(v[b - h.len()].0 != row);
                }
            }
            assert forall|p: (usize, usize)| in_bounds(g, p.0 as int, p.1 as int) implies (
            cells@.contains(p) <==> (p != (row, col) && in_sight(
                g,
                row as int,
                col as int,
                p.0 as int,
                p.1 as int,
            ))) by {
                let (r, c) = p;
                if cells@.contains(p) {
                    let k = choose|k: int| 0 <= k < cells@.len() && cells@[k] == p;
                    if k < h.len() {
                        assert(h[k] == p);
                        assert(h.contains((row, c)));
                        assert(r == row && c != col);
                    } else {
                        assert(v[k - h.len()] == p);
                        assert(v.contains((r, col)));
                        assert(c == col && r != row);
                    }
                }
                if r == row && c != col && row_clear(g, r as int, col as int, c as int) {
                    assert(h.contains(p));
                    let k = choose|k: int| 0 <= k < h.len() && h[k] == p;
                    assert(cells@[k] == p);
                }
                if c == col && r != row && col_clear(g, c as int, row as int, r as int) {
                    assert(v.contains(p));
                    let k = choose|k: int| 0 <= k < v.len() && v[k] == p;
                    assert(cells@[h.len() + k] == p);
                }
            }
        }
        cells
    }

    /// One bulb more (`up`) or one fewer lights (r, c); nothing else changes.
    fn shift_light(&mut self, r: usize, c: usize, up: bool)
        requires
            in_bounds(old(self)@, r as int, c as int),
            up ==> old(self)@[r as int][c as int].level() < 255,
            !up ==> old(self)@[r as int][c as int].is_wall() || old(self)@[r as int][c as int].level() >= 1,
        ensures
            final(self).solution == old(self).solution,
            final(self)@ == old(self)@.update(
                r as int,
                old(self)@[r as int].update(c as int, final(self)@[r as int][c as int]),
            ),
            final(self)@[r as int][c as int].unlit() == old(self)@[r as int][c as int].unlit(),
            final(self)@[r as int][c as int].level() as int == if old(self)@[r as int][c as int].is_wall() {
                0
            } else if up {
                old(self)@[r as int][c as int].level() + 1int
            } else {
                old(self)@[r as int][c as int].level() - 1int
            },
    {
        let ghost g = self@;
        assert(self@[r as int] == self.grid@[r as int]@);
        if up {
            self.grid[r][c].increase_light_level();
        } else {
            self.grid[r][c].decrease_light_level();
        }
        proof {
            let h = g.update(r as int, g[r as int].update(c as int, self@[r as int][c as int]));
            assert(self@[r as int] =~= h[r as int]);
            assert(self@ =~= h);
        }
    }

    /// Brings the light levels up to date after (row, col) reported `action`:
    /// (row, col) and each cell in its sight gain or lose one.
    fn handle_toggle(&mut self, row: usize, col: usize, action: BulbAction)
        requires
            is_rect(old(self)@),
            old(self)@.len() + old(self)@[0].len() <= 256,
            in_bounds(old(self)@, row as int, col as int),
            action != BulbAction::Nothing ==> !old(self)@[row as int][col as int].is_wall(),
            forall|r: int, c: int|
                in_bounds(old(self)@, r, c) && !old(self)@[r][c].is_wall() ==> (
                #[trigger] old(self)@[r][c]).level() + if in_sight(
                    old(self)@,
                    row as int,
                    col as int,
                    r,
                    c,
                ) {
                    action.light_delta()
                } else {
                    0
                } == light_count(old(self)@, r, c),
        ensures
            final(self).wf(),
            final(self).solution == old(self).solution,
            final(self)@.len() == old(self)@.len(),
            forall|r: int|
                0 <= r < old(self)@.len() ==> #[trigger] final(self)@[r].len() == old(self)@[r].len(),
            forall|r: int, c: int|
                in_bounds(old(self)@, r, c) ==> (#[trigger] final(self)@[r][c]).unlit() == old(
                    self,
                )@[r][c].unlit() && final(self)@[r][c].level() == old(self)@[r][c].level()
                    + if in_sight(old(self)@, row as int, col as int, r, c) {
                    action.light_delta()
                } else {
                    0
                },
    {
        let ghost g = self@;
        if let BulbAction::Nothing = action {
            return;
        }
        let affected = self.affected_neighbours(row, col);
        let inserted = if let BulbAction::Inserted = action {
            true
        } else {
            false
        };
        let ghost delta = action.light_delta();
        // The acted cell is togglable here: a wall only ever reports `Nothing`.
        proof {
            lemma_light_count_bound(g, row as int, col as int);
            assert(in_sight(g, row as int, col as int, row as int, col as int));
        }
        self.shift_light(row, col, inserted);
        let mut i: usize = 0;
        while i < affected.len()
            invariant
                is_rect(g),
                g.len() + g[0].len() <= 256,
                in_bounds(g, row as int, col as int),
                inserted == (action == BulbAction::Inserted),
                action != BulbAction::Nothing,
                delta == action.light_delta(),
                self.solution == old(self).solution,
                g == old(self)@,
                i <= affected@.len(),
                affected@.no_duplicates(),
                forall|k: int|
                    0 <= k < affected@.len() ==> in_bounds(
                        g,
                        (#[trigger] affected@[k]).0 as int,
                        affected@[k].1 as int,
                    ),
                forall|p: (usize, usize)|
                    in_bounds(g, p.0 as int, p.1 as int) ==> (affected@.contains(p) <==> (p != (
                        row,
                        col,
                    ) && in_sight(g, row as int, col as int, p.0 as int, p.1 as int))),
                forall|r: int, c: int|
                    in_bounds(g, r, c) && !g[r][c].is_wall() ==> (#[trigger] g[r][c]).level()
                        + if in_sight(g, row as int, col as int, r, c) {
                        delta
                    } else {
                        0
                    } == light_count(g, r, c),
                self@.len() == g.len(),
                forall|r: int| 0 <= r < g.len() ==> #[trigger] self@[r].len() == g[r].len(),
                forall|p: (usize, usize)|
                    in_bounds(g, p.0 as int, p.1 as int) ==> (#[trigger] self@[p.0 as int][p.1 as int]).unlit()
                        == g[p.0 as int][p.1 as int].unlit() && self@[p.0 as int][p.1 as int].level()
                        == g[p.0 as int][p.1 as int].level() + if p == (row, col)
                        || affected@.subrange(0, i as int).contains(p) {
                        delta
                    } else {
                        0
                    },
            decreases affected@.len() - i,
        {
            let (r, c) = affected[i];
            proof {
                let p = (r, c);
                assert(affected@.contains(p));
                let pre = affected@.subrange(0, i as int);
                if pre.contains(p) {
                    let k = choose|k: int| 0 <= k < pre.len() && #[trigger] pre[k] == p;
                    assert(affected@[k] == affected@[i as int]);
                }
                lemma_light_count_bound(g, r as int, c as int);
                assert(self@[r as int] == self.grid@[r as int]@);
                assert(self@[r as int].len() == g[r as int].len());
                assert(self@[r as int][c as int].level() == g[r as int][c as int].level());
            }
            self.shift_light(r, c, inserted);
            proof {
                let pre = affected@.subrange(0, i as int);
                let post = affected@.subrange(0, i + 1);
                assert forall|q: (usize, usize)|
                    post.contains(q) <==> (pre.contains(q) || q == (r, c)) by {
                    if post.contains(q) {
                        let k = choose|k: int| 0 <= k < post.len() && #[trigger] post[k] == q;
                        if k < i {
                            assert(pre[k] == q);
                        }
                    }
                    if pre.contains(q) {
                        let k = choose|k: int| 0 <= k < pre.len() && #[trigger] pre[k] == q;
                        assert(post[k] == q);
                    }
                    if q == (r, c) {
                        assert(post[i as int] == q);
                    }
                }
            }
            i += 1;
        }
        proof {
            assert(affected@.subrange(0, affected@.len() as int) == affected@);
            let h = self@;
            assert(differ_at_most_at(g, h, row as int, col as int)) by {
                assert forall|r: int, c: int| in_bounds(g, r, c) implies (#[trigger] h[r][c]).is_wall()
                    == g[r][c].is_wall() && h[r][c].has_bulb() == g[r][c].has_bulb() by {
                    assert(self.grid.len() == self.grid@.len());
                    assert(self.grid@[r].len() == h[r].len());
                    let p = (r as usize, c as usize);
                    assert(h[p.0 as int][p.1 as int].unlit() == g[p.0 as int][p.1 as int].unlit());
                }
            }
            assert forall|r: int, c: int| in_bounds(h, r, c) && !h[r][c].is_wall() implies (
            #[trigger] h[r][c]).level() == light_count(h, r, c) by {
                assert(self.grid.len() == self.grid@.len());
                assert(self.grid@[r].len() == h[r].len());
                let p = (r as usize, c as usize);
                assert(p.0 as int == r && p.1 as int == c);
                assert(h[p.0 as int][p.1 as int].unlit() == g[p.0 as int][p.1 as int].unlit());
                assert(!g[r][c].is_wall());
                assert(in_sight(g, row as int, col as int, row as int, col as int));
                assert((p == (row, col) || affected@.contains(p)) == in_sight(
                    g,
                    row as int,
                    col as int,
                    r,
                    c,
                ));
                let q = (row, col);
                assert(h[q.0 as int][q.1 as int].unlit() == g[q.0 as int][q.1 as int].unlit());
                lemma_light_count_shift(g, h, row as int, col as int, r, c);
            }
            assert forall|r: int, c: int| in_bounds(g, r, c) implies (#[trigger] h[r][c]).unlit()
                == g[r][c].unlit() && h[r][c].level() == g[r][c].level() + if in_sight(
                g,
                row as int,
                col as int,
                r,
                c,
            ) {
                delta
            } else {
                0
            } by {
                assert(self.grid.len() == self.grid@.len());
                assert(self.grid@[r].len() == h[r].len());
                let p = (r as usize, c as usize);
                assert(h[p.0 as int][p.1 as int].unlit() == g[p.0 as int][p.1 as int].unlit());
            }
        }
    }
}

} // verus!
