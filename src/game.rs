//! A session on the built-in puzzle: which cell the mouse is over, and what
//! a press and a release of a button do.

use crate::grid::{puzzle_layout, puzzle_solution, toggled, Grid, Xy};
use vstd::prelude::*;

verus! {

/// A mouse button, as far as the board cares.
#[derive(Debug, Clone, Copy, PartialEq, Eq, Structural)]
pub enum MouseButton {
    Left,
    Right,
    Other,
}

/// The board and the cell on which the last press landed.
pub struct Game {
    pub grid: Grid,
    pub focused: Option<Xy>,
}

/// The cell under the mouse: each cell is two characters wide and one high,
/// counted from `offset`; none where the mouse is above or left of `offset`,
/// or beyond `size`.
pub open spec fn tile_under(mouse_pos: Xy, offset: Xy, size: Xy) -> Option<Xy> {
    if mouse_pos.x >= offset.x && mouse_pos.y >= offset.y {
        let pos = Xy { x: ((mouse_pos.x - offset.x) / 2) as usize, y: (mouse_pos.y - offset.y) as usize };
        if pos.x <= size.x - 1 && pos.y <= size.y - 1 {
            Some(pos)
        } else {
            None
        }
    } else {
        None
    }
}

impl Game {
    pub open spec fn wf(&self) -> bool {
        self.grid.wf()
    }

    /// The board's extent, as `Grid::size` gives it.
    pub open spec fn size_of(&self) -> Xy {
        Xy { x: self.grid@[0].len() as usize, y: self.grid@.len() as usize }
    }

    /// A new session on the built-in puzzle, nothing focused.
    pub fn new() -> (game: Game)
        ensures
            game.wf(),
            game.grid@ == puzzle_layout(),
            game.grid.solution@ == puzzle_solution(),
            game.focused.is_none(),
    {
        Game { grid: Grid::new_hardcoded(), focused: None }
    }

    /// The cell under `mouse_pos`, for a board drawn from `offset`.
    pub fn get_tile(&self, mouse_pos: Xy, offset: Xy) -> (pos: Option<Xy>)
        requires
            self.wf(),
        ensures
            pos == tile_under(mouse_pos, offset, self.size_of()),
    {
        if mouse_pos.x >= offset.x && mouse_pos.y >= offset.y {
            let pos = Xy { x: (mouse_pos.x - offset.x) / 2, y: mouse_pos.y - offset.y };
            let size = self.grid.size();
            if pos.x <= size.x - 1 && pos.y <= size.y - 1 {
                Some(pos)
            } else {
                None
            }
        } else {
            None
        }
    }

    /// A press on a cell focuses it; the press is then consumed.
    pub fn on_press(&mut self, position: Xy, offset: Xy) -> (consumed: bool)
        requires
            old(self).wf(),
        ensures
            final(self).grid == old(self).grid,
            consumed == tile_under(position, offset, old(self).size_of()).is_some(),
            final(self).focused == if consumed {
                tile_under(position, offset, old(self).size_of())
            } else {
                old(self).focused
            },
    {
        if let Some(pos) = self.get_tile(position, offset) {
            self.focused = Some(pos);
            return true;
        }
        false
    }

    /// A release of the left (right) button over the focused cell toggles it
    /// forward (backward); the release is then consumed. The board is drawn
    /// with its rows across, so a cell's `x` is its row and its `y` its column.
    pub fn on_release(&mut self, position: Xy, offset: Xy, button: MouseButton) -> (consumed: bool)
        requires
            old(self).wf(),
        ensures
            final(self).wf(),
            final(self).focused == old(self).focused,
            final(self).grid.solution == old(self).grid.solution,
            ({
                let under = tile_under(position, offset, old(self).size_of());
                consumed == (under is Some && old(self).focused == under && button != MouseButton::Other
                    && under->0.x < old(self).grid@.len() && under->0.y < old(self).grid@[0].len())
            }),
            consumed ==> toggled(
                old(self).grid@,
                final(self).grid@,
                old(self).focused->0.x as int,
                old(self).focused->0.y as int,
                button == MouseButton::Left,
            ),
            !consumed ==> final(self).grid == old(self).grid,
    {
        if let Some(pos) = self.get_tile(position, offset) {
            let on_focus = match self.focused {
                Some(f) => f.x == pos.x && f.y == pos.y,
                None => false,
            };
            if on_focus && pos.x < self.grid.grid.len() && pos.y < self.grid.grid[0].len() {
                match button {
                    MouseButton::Left => {
                        self.grid.toggle(pos.x, pos.y);
                        return true;
                    },
                    MouseButton::Right => {
                        self.grid.toggle_back(pos.x, pos.y);
                        return true;
                    },
                    MouseButton::Other => {},
                }
            }
        }
        false
    }
}

} // verus!
