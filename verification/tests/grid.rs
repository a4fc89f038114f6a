use path_visualizer::pathfinders::{Grid, Pos, Tile, Vec2d};

fn pos(x: i32, y: i32) -> Pos {
    Pos { x, y }
}

#[test]
fn pos_addition_is_component_wise() {
    assert_eq!(pos(3, 4) + pos(-1, 2), pos(2, 6));
    assert_eq!(pos(0, 0) + Pos::up(), pos(0, -1));
    assert_eq!(pos(0, 0) + Pos::down(), pos(0, 1));
    assert_eq!(pos(0, 0) + Pos::left(), pos(-1, 0));
    assert_eq!(pos(0, 0) + Pos::right(), pos(1, 0));
    assert_eq!(Pos::default(), pos(0, 0));
}

#[test]
fn vec2d_new_takes_height_then_width() {
    let map = Vec2d::new(2, 5, 0u8);
    assert_eq!(map.height(), 2);
    assert_eq!(map.width(), 5);
    assert_eq!(map.get(pos(4, 1)), Some(&0));
    assert_eq!(map.get(pos(1, 4)), None);
}

#[test]
fn vec2d_new_fills_every_cell_with_the_value() {
    let map = Vec2d::new(3, 4, 'x');
    for y in 0..3 {
        for x in 0..4 {
            assert_eq!(map.get(pos(x, y)), Some(&'x'));
        }
    }
}

#[test]
fn vec2d_get_outside_is_none() {
    let map = Vec2d::new(3, 4, 1u32);
    assert_eq!(map.get(pos(-1, 0)), None);
    assert_eq!(map.get(pos(0, -1)), None);
    assert_eq!(map.get(pos(4, 0)), None);
    assert_eq!(map.get(pos(0, 3)), None);
    assert_eq!(map.get(pos(i32::MAX, i32::MAX)), None);
    assert_eq!(map.get(pos(i32::MIN, i32::MIN)), None);
}

#[test]
fn vec2d_set_writes_one_cell() {
    let mut map = Vec2d::new(3, 4, 0u32);
    map.set(pos(3, 2), 7);
    map.set(pos(0, 1), 9);
    for y in 0..3 {
        for x in 0..4 {
            let expected = if (x, y) == (3, 2) {
                7
            } else if (x, y) == (0, 1) {
                9
            } else {
                0
            };
            assert_eq!(map.get(pos(x, y)), Some(&expected));
        }
    }
}

#[test]
fn vec2d_set_outside_changes_nothing() {
    let mut map = Vec2d::new(2, 2, 0u32);
    let before = map.clone();
    map.set(pos(2, 0), 1);
    map.set(pos(0, 2), 1);
    map.set(pos(-1, 1), 1);
    map.set(pos(1, -1), 1);
    assert_eq!(map, before);
}

#[test]
fn vec2d_get_mut_hands_out_the_cell() {
    let mut map = Vec2d::new(2, 3, 0u32);
    *map.get_mut(pos(2, 1)).unwrap() = 5;
    assert_eq!(map.get(pos(2, 1)), Some(&5));
    assert_eq!(map.get(pos(1, 1)), Some(&0));
    assert_eq!(map.get(pos(2, 0)), Some(&0));
}

#[test]
fn vec2d_contains_finds_a_stored_value() {
    let mut map = Vec2d::new(2, 2, 0u32);
    assert!(map.contains(0));
    assert!(!map.contains(3));
    map.set(pos(1, 1), 3);
    assert!(map.contains(3));
}

#[test]
fn vec2d_without_cells() {
    let map = Vec2d::new(0, 5, 0u8);
    assert_eq!(map.get(pos(0, 0)), None);
    assert!(!map.contains(0));
    let map = Vec2d::new(5, 0, 0u8);
    assert_eq!(map.get(pos(0, 0)), None);
}

#[test]
fn grid_new_is_all_open() {
    let grid = Grid::new(4, 2, pos(0, 0), pos(3, 1));
    assert_eq!(grid.width(), 4);
    assert_eq!(grid.height(), 2);
    assert_eq!(grid.start(), pos(0, 0));
    assert_eq!(grid.end(), pos(3, 1));
    for y in 0..2 {
        for x in 0..4 {
            assert_eq!(grid.tile(pos(x, y)), Tile::Open);
        }
    }
}

#[test]
fn grid_tile_opt_is_none_outside() {
    let grid = Grid::new(4, 2, pos(0, 0), pos(3, 1));
    assert_eq!(grid.tile_opt(pos(3, 1)), Some(Tile::Open));
    assert_eq!(grid.tile_opt(pos(4, 1)), None);
    assert_eq!(grid.tile_opt(pos(3, 2)), None);
    assert_eq!(grid.tile_opt(pos(-1, 0)), None);
    assert_eq!(grid.tile_opt(pos(0, -1)), None);
}

#[test]
fn grid_set_tile_overwrites() {
    let mut grid = Grid::new(3, 3, pos(0, 0), pos(2, 2));
    grid.set_tile(pos(1, 2), Tile::Wall);
    assert_eq!(grid.tile(pos(1, 2)), Tile::Wall);
    assert_eq!(grid.tile(pos(2, 1)), Tile::Open);
    grid.set_tile(pos(1, 2), Tile::Open);
    assert_eq!(grid.tile(pos(1, 2)), Tile::Open);
}

#[test]
fn grid_set_tile_leaves_start_and_end_open() {
    let mut grid = Grid::new(3, 3, pos(0, 0), pos(2, 2));
    grid.set_tile(pos(0, 0), Tile::Wall);
    grid.set_tile(pos(2, 2), Tile::Wall);
    assert_eq!(grid.tile(pos(0, 0)), Tile::Open);
    assert_eq!(grid.tile(pos(2, 2)), Tile::Open);
}

#[test]
fn grid_set_tile_outside_changes_nothing() {
    let mut grid = Grid::new(3, 3, pos(0, 0), pos(2, 2));
    let before = grid.clone();
    grid.set_tile(pos(3, 0), Tile::Wall);
    grid.set_tile(pos(-1, 2), Tile::Wall);
    assert_eq!(grid, before);
}

#[test]
fn grid_set_start_moves_marker_and_clears_wall() {
    let mut grid = Grid::new(3, 3, pos(0, 0), pos(2, 2));
    grid.set_tile(pos(1, 1), Tile::Wall);
    grid.set_tile(pos(0, 1), Tile::Wall);
    grid.set_start(pos(1, 1));
    assert_eq!(grid.start(), pos(1, 1));
    assert_eq!(grid.end(), pos(2, 2));
    assert_eq!(grid.tile(pos(1, 1)), Tile::Open);
    assert_eq!(grid.tile(pos(0, 1)), Tile::Wall);
    // the cell that the marker left is an ordinary open cell now
    grid.set_tile(pos(0, 0), Tile::Wall);
    assert_eq!(grid.tile(pos(0, 0)), Tile::Wall);
    // and the new start cannot be walled
    grid.set_tile(pos(1, 1), Tile::Wall);
    assert_eq!(grid.tile(pos(1, 1)), Tile::Open);
}

#[test]
fn grid_set_end_moves_marker_and_clears_wall() {
    let mut grid = Grid::new(3, 3, pos(0, 0), pos(2, 2));
    grid.set_tile(pos(2, 0), Tile::Wall);
    grid.set_end(pos(2, 0));
    assert_eq!(grid.end(), pos(2, 0));
    assert_eq!(grid.start(), pos(0, 0));
    assert_eq!(grid.tile(pos(2, 0)), Tile::Open);
    grid.set_tile(pos(2, 0), Tile::Wall);
    assert_eq!(grid.tile(pos(2, 0)), Tile::Open);
}

#[test]
fn grid_start_may_move_onto_end() {
    let mut grid = Grid::new(2, 1, pos(0, 0), pos(1, 0));
    grid.set_start(pos(1, 0));
    assert_eq!(grid.start(), pos(1, 0));
    assert_eq!(grid.end(), pos(1, 0));
    assert_eq!(grid.tile(pos(1, 0)), Tile::Open);
}
