use akari::game::{Game, MouseButton};
use akari::grid::Xy;
use akari::render::{color_style, tile_symbol, Shade, TileStyle};
use akari::tile::{Tile, TileContent, TogglableTile, Wall};

fn xy(x: usize, y: usize) -> Xy {
    Xy { x, y }
}

#[test]
fn symbols_of_each_tile() {
    assert_eq!(tile_symbol(&Tile::blank()), "  ");
    assert_eq!(tile_symbol(&Tile::bulb(1)), "\u{1f4a1}");
    let cross = Tile::Togglable(TogglableTile {
        light_level: 0,
        content: TileContent::Cross,
    });
    assert_eq!(tile_symbol(&cross), "\u{274c}");
    assert_eq!(tile_symbol(&Tile::wall()), "  ");
    assert_eq!(tile_symbol(&Tile::Wall(Wall::Zero)), " 0");
    assert_eq!(tile_symbol(&Tile::Wall(Wall::One)), " 1");
    assert_eq!(tile_symbol(&Tile::Wall(Wall::Two)), " 2");
    assert_eq!(tile_symbol(&Tile::Wall(Wall::Three)), " 3");
    assert_eq!(tile_symbol(&Tile::Wall(Wall::Four)), " 4");
}

#[test]
fn colours_follow_content_and_light() {
    let style = |front, back| TileStyle { front, back };
    assert_eq!(color_style(&Tile::blank()), style(Shade::White, Shade::White));
    assert_eq!(color_style(&Tile::lit_empty(2)), style(Shade::White, Shade::Yellow));
    assert_eq!(color_style(&Tile::bulb(1)), style(Shade::Black, Shade::Yellow));
    let cross = Tile::Togglable(TogglableTile {
        light_level: 0,
        content: TileContent::Cross,
    });
    assert_eq!(color_style(&cross), style(Shade::Red, Shade::White));
    assert_eq!(color_style(&Tile::Wall(Wall::Four)), style(Shade::White, Shade::Black));
}

#[test]
fn mouse_maps_to_cells_two_columns_wide() {
    let game = Game::new();
    assert_eq!(game.focused, None);
    assert_eq!(game.get_tile(xy(5, 3), xy(1, 1)), Some(xy(2, 2)));
    assert_eq!(game.get_tile(xy(1, 1), xy(1, 1)), Some(xy(0, 0)));
    assert_eq!(game.get_tile(xy(10, 5), xy(1, 1)), Some(xy(4, 4)));
    assert_eq!(game.get_tile(xy(11, 5), xy(1, 1)), None);
    assert_eq!(game.get_tile(xy(10, 6), xy(1, 1)), None);
    assert_eq!(game.get_tile(xy(0, 3), xy(1, 1)), None);
    assert_eq!(game.get_tile(xy(3, 0), xy(1, 1)), None);
}

#[test]
fn press_then_release_on_one_cell_toggles_it() {
    let mut game = Game::new();
    assert!(!game.on_press(xy(0, 0), xy(2, 2)));
    assert_eq!(game.focused, None);
    assert!(game.on_press(xy(8, 5), xy(2, 2)));
    assert_eq!(game.focused, Some(xy(3, 3)));
    // Released elsewhere: nothing happens.
    assert!(!game.on_release(xy(2, 2), xy(2, 2), MouseButton::Left));
    assert_eq!(game.grid.grid[3][3], Tile::blank());
    // A middle button does nothing either.
    assert!(!game.on_release(xy(8, 5), xy(2, 2), MouseButton::Other));
    assert!(game.on_release(xy(9, 5), xy(2, 2), MouseButton::Left));
    assert_eq!(game.grid.grid[3][3], Tile::bulb(1));
    assert_eq!(game.grid.grid[3][0], Tile::lit_empty(1));
    assert_eq!(game.grid.grid[0][3], Tile::blank());
    assert!(game.on_release(xy(8, 5), xy(2, 2), MouseButton::Right));
    assert_eq!(game.grid.grid[3][3], Tile::blank());
    assert_eq!(game.grid.grid[3][0], Tile::blank());
}
