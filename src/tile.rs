use vstd::prelude::*;

verus! {

/// A wall's clue: how many bulbs must stand next to it, if any.
#[derive(Debug, Clone, Copy, PartialEq, Eq, Structural)]
pub enum Wall {
    Clear,
    Zero,
    One,
    Two,
    Three,
    Four,
}

/// What the player has put on a togglable cell.
#[derive(Debug, Clone, Copy, PartialEq, Eq, Structural)]
pub enum TileContent {
    Nothing,
    Bulb,
    Cross,
}

/// What a transition did to the bulb on a cell.
#[derive(Debug, Clone, Copy, PartialEq, Eq, Structural)]
pub enum BulbAction {
    Inserted,
    Removed,
    Nothing,
}

/// A cell that can hold a bulb, with the number of bulbs that light it.
#[derive(Debug, Clone, Copy, PartialEq, Eq, Structural)]
pub struct TogglableTile {
    pub light_level: u8,
    pub content: TileContent,
}

/// One cell of the board: a wall, or a cell the player can toggle.
#[derive(Debug, Clone, Copy, PartialEq, Eq, Structural)]
pub enum Tile {
    Togglable(TogglableTile),
    Wall(Wall),
}

impl TileContent {
    /// The forward cycle: nothing, bulb, cross, nothing.
    pub open spec fn next(self) -> TileContent {
        match self {
            TileContent::Nothing => TileContent::Bulb,
            TileContent::Bulb => TileContent::Cross,
            TileContent::Cross => TileContent::Nothing,
        }
    }

    /// The backward cycle: nothing, cross, bulb, nothing.
    pub open spec fn prev(self) -> TileContent {
        match self {
            TileContent::Nothing => TileContent::Cross,
            TileContent::Bulb => TileContent::Nothing,
            TileContent::Cross => TileContent::Bulb,
        }
    }

    /// The action reported when the content moves from `self` to `to`.
    pub open spec fn action_to(self, to: TileContent) -> BulbAction {
        if self != TileContent::Bulb && to == TileContent::Bulb {
            BulbAction::Inserted
        } else if self == TileContent::Bulb && to != TileContent::Bulb {
            BulbAction::Removed
        } else {
            BulbAction::Nothing
        }
    }
}

impl BulbAction {
    /// How much light each cell in sight of the acted cell gains.
    pub open spec fn light_delta(self) -> int {
        match self {
            BulbAction::Inserted => 1,
            BulbAction::Removed => -1,
            BulbAction::Nothing => 0,
        }
    }
}

impl Tile {
    pub open spec fn is_wall(self) -> bool {
        self is Wall
    }

    pub open spec fn has_bulb(self) -> bool {
        self matches Tile::Togglable(t) && t.content == TileContent::Bulb
    }

    /// The light level; a wall has none.
    pub open spec fn level(self) -> nat {
        match self {
            Tile::Togglable(t) => t.light_level as nat,
            Tile::Wall(_) => 0,
        }
    }

    /// The tile with its light level cleared: what the player sees apart from light.
    pub open spec fn unlit(self) -> Tile {
        match self {
            Tile::Togglable(t) => Tile::Togglable(TogglableTile { light_level: 0, ..t }),
            Tile::Wall(w) => Tile::Wall(w),
        }
    }

    /// The tile after one step of the cycle, forward or backward; light is kept.
    pub open spec fn stepped(self, forward: bool) -> Tile {
        match self {
            Tile::Togglable(t) => Tile::Togglable(
                TogglableTile {
                    content: if forward {
                        t.content.next()
                    } else {
                        t.content.prev()
                    },
                    ..t
                },
            ),
            Tile::Wall(w) => Tile::Wall(w),
        }
    }

    /// What one step of the cycle, forward or backward, reports.
    pub open spec fn action(self, forward: bool) -> BulbAction {
        match self {
            Tile::Togglable(t) => if forward {
                t.content.action_to(t.content.next())
            } else {
                t.content.action_to(t.content.prev())
            },
            Tile::Wall(_) => BulbAction::Nothing,
        }
    }

    /// A tile is fixed by what it holds and how much light it has.
    pub proof fn lemma_unlit_level_eq(a: Tile, b: Tile)
        requires
            a.unlit() == b.unlit(),
            a.level() == b.level(),
        ensures
            a == b,
    {
        if let Tile::Togglable(x) = a {
            if let Tile::Togglable(y) = b {
                assert(x.content == y.content);
                assert(x.light_level == y.light_level);
            }
        }
    }

    /// An empty, unlit cell.
    pub fn blank() -> (t: Tile)
        ensures
            t == Tile::Togglable(TogglableTile { light_level: 0, content: TileContent::Nothing }),
    {
        Tile::lit_empty(0)
    }

    /// A wall without a clue.
    pub fn wall() -> (t: Tile)
        ensures
            t == Tile::Wall(Wall::Clear),
    {
        Tile::Wall(Wall::Clear)
    }

    /// An empty cell lit by `level` bulbs.
    pub fn lit_empty(level: u8) -> (t: Tile)
        ensures
            t == Tile::Togglable(TogglableTile { light_level: level, content: TileContent::Nothing }),
    {
        Tile::Togglable(TogglableTile { light_level: level, content: TileContent::Nothing })
    }

    /// A cell holding a bulb, lit by `level` bulbs (itself included).
    pub fn bulb(level: u8) -> (t: Tile)
        ensures
            t == Tile::Togglable(TogglableTile { light_level: level, content: TileContent::Bulb }),
    {
        Tile::Togglable(TogglableTile { light_level: level, content: TileContent::Bulb })
    }

    /// Advances the content one step forward; a wall does not change.
    pub fn toggle(&mut self) -> (action: BulbAction)
        ensures
            *final(self) == old(self).stepped(true),
            action == old(self).action(true),
    {
        if let Tile::Togglable(togglable) = self {
            togglable.toggle()
        } else {
            BulbAction::Nothing
        }
    }

    /// Moves the content one step backward; a wall does not change.
    pub fn toggle_back(&mut self) -> (action: BulbAction)
        ensures
            *final(self) == old(self).stepped(false),
            action == old(self).action(false),
    {
        if let Tile::Togglable(togglable) = self {
            togglable.toggle_back()
        } else {
            BulbAction::Nothing
        }
    }

    /// One more bulb lights this cell; a wall does not change.
    pub fn increase_light_level(&mut self)
        requires
            old(self).level() < 255,
        ensures
            final(self).unlit() == old(self).unlit(),
            final(self).level() == if old(self).is_wall() {
                0
            } else {
                old(self).level() + 1
            },
    {
        if let Tile::Togglable(togglable) = self {
            togglable.light_level += 1;
        }
    }

    /// One bulb fewer lights this cell; a wall does not change.
    pub fn decrease_light_level(&mut self)
        requires
            old(self).is_wall() || old(self).level() >= 1,
        ensures
            final(self).unlit() == old(self).unlit(),
            final(self).level() == if old(self).is_wall() {
                0
            } else {
                old(self).level() - 1
            },
    {
        if let Tile::Togglable(togglable) = self {
            togglable.light_level -= 1;
        }
    }
}

impl TogglableTile {
    fn toggle(&mut self) -> (action: BulbAction)
        ensures
            final(self).light_level == old(self).light_level,
            final(self).content == old(self).content.next(),
            action == old(self).content.action_to(old(self).content.next()),
    {
        let (new, action) = match self.content {
            TileContent::Nothing => (TileContent::Bulb, BulbAction::Inserted),
            TileContent::Bulb => (TileContent::Cross, BulbAction::Removed),
            TileContent::Cross => (TileContent::Nothing, BulbAction::Nothing),
        };
        self.content = new;
        action
    }

    fn toggle_back(&mut self) -> (action: BulbAction)
        ensures
            final(self).light_level == old(self).light_level,
            final(self).content == old(self).content.prev(),
            action == old(self).content.action_to(old(self).content.prev()),
    {
        let (new, action) = match self.content {
            TileContent::Nothing => (TileContent::Cross, BulbAction::Nothing),
            TileContent::Bulb => (TileContent::Nothing, BulbAction::Removed),
            TileContent::Cross => (TileContent::Bulb, BulbAction::Inserted),
        };
        self.content = new;
        action
    }
}

} // verus!
