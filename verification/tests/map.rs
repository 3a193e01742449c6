use terminalia::component::Entity;
use terminalia::geometry::{adjacent, distance_squared, within_range, Position, Rect};
use terminalia::map::{idx_xy, xy_idx, GameMap, TileType, MAX_HEIGHT, MAX_WIDTH};

#[test]
fn fixed_grid_indices() {
    assert_eq!(MAX_WIDTH, 80);
    assert_eq!(MAX_HEIGHT, 50);
    assert_eq!(xy_idx(0, 0), 0);
    assert_eq!(xy_idx(79, 0), 79);
    assert_eq!(xy_idx(0, 1), 80);
    assert_eq!(xy_idx(5, 3), 245);
    assert_eq!(xy_idx(79, 49), 3999);
    assert_eq!(idx_xy(0), (0, 0));
    assert_eq!(idx_xy(79), (79, 0));
    assert_eq!(idx_xy(80), (0, 1));
    assert_eq!(idx_xy(245), (5, 3));
    assert_eq!(idx_xy(3999), (79, 49));
    for idx in [0usize, 1, 79, 80, 81, 1234, 3999, 4000] {
        let (x, y) = idx_xy(idx);
        assert_eq!(xy_idx(x, y), idx);
    }
}

#[test]
fn map_indices_follow_the_width() {
    let map = GameMap::filled(0, 7, 5, TileType::Wall);
    assert_eq!(map.tiles.len(), 35);
    assert_eq!(map.xy_idx(0, 0), 0);
    assert_eq!(map.xy_idx(6, 0), 6);
    assert_eq!(map.xy_idx(0, 1), 7);
    assert_eq!(map.xy_idx(3, 2), 17);
    assert_eq!(map.xy_idx(6, 4), 34);
    assert_eq!(map.idx_xy(17), (3, 2));
    assert_eq!(map.idx_xy(34), (6, 4));
    for idx in 0..35usize {
        let (x, y) = map.idx_xy(idx);
        assert!(map.in_bounds(x, y));
        assert_eq!(map.xy_idx(x, y), idx);
    }
    assert!(!map.in_bounds(7, 0));
    assert!(!map.in_bounds(0, 5));
    assert!(!map.in_bounds(-1, 0));
    assert!(!map.in_bounds(0, -1));
}

#[test]
fn filled_map_is_pristine() {
    let map = GameMap::filled(3, 4, 3, TileType::Floor);
    assert_eq!(map.index, 3);
    assert_eq!(map.width, 4);
    assert_eq!(map.height, 3);
    assert!(map.tiles.iter().all(|t| *t == TileType::Floor));
    assert!(map.revealed_tiles.iter().all(|r| !*r));
    assert!(map.blocked_tiles.iter().all(|r| !*r));
    assert!(map.bloodstains.is_empty());
    assert!(map.tile_content.iter().all(|c| c.is_empty()));
    assert_eq!(map.tile_content.len(), 12);
    assert!(map.rooms.is_empty());
    assert_eq!(map.player_spawn_index, None);
}

#[test]
fn room_is_carved_right_of_and_below_its_corner() {
    let mut map = GameMap::filled(0, 10, 8, TileType::Wall);
    map.apply_room_to_map(&Rect::new(2, 1, 4, 3));
    for y in 0..8 {
        for x in 0..10 {
            let inside = (3..=6).contains(&x) && (2..=4).contains(&y);
            let tile = map.tiles[map.xy_idx(x, y)];
            assert_eq!(tile == TileType::Floor, inside, "at ({}, {})", x, y);
        }
    }
}

#[test]
fn tunnels_run_between_their_ends_in_either_order() {
    let mut map = GameMap::filled(0, 10, 8, TileType::Wall);
    map.apply_horizontal_tunnel(7, 2, 3);
    map.apply_vertical_tunnel(1, 6, 8);
    for y in 0..8 {
        for x in 0..10 {
            let carved = (y == 3 && (2..=7).contains(&x)) || (x == 8 && (1..=6).contains(&y));
            assert_eq!(map.tiles[map.xy_idx(x, y)] == TileType::Floor, carved, "at ({}, {})", x, y);
        }
    }
}

#[test]
fn tile_zero_is_never_tunnelled() {
    let mut map = GameMap::filled(0, 6, 6, TileType::Wall);
    map.apply_horizontal_tunnel(0, 3, 0);
    map.apply_vertical_tunnel(0, 2, 0);
    assert_eq!(map.tiles[0], TileType::Wall);
    assert_eq!(map.tiles[1], TileType::Floor);
    assert_eq!(map.tiles[3], TileType::Floor);
    assert_eq!(map.tiles[6], TileType::Floor);
    assert_eq!(map.tiles[12], TileType::Floor);
}

#[test]
fn terrain_decides_what_blocks() {
    let mut map = GameMap::filled(0, 3, 2, TileType::Floor);
    map.tiles[0] = TileType::Wall;
    map.tiles[1] = TileType::Debris;
    map.tiles[2] = TileType::DownStairs;
    map.tiles[3] = TileType::UpStairs;
    map.blocked_tiles[4] = true;
    map.populate_blocked();
    assert_eq!(map.blocked_tiles, vec![true, true, false, false, false, false]);
    assert!(TileType::Floor.passable() && TileType::DownStairs.passable() && TileType::UpStairs.passable());
    assert!(!TileType::Wall.passable() && !TileType::Debris.passable());
    assert!(TileType::Wall.blocks() && TileType::Debris.blocks());
    assert!(!TileType::Floor.blocks() && !TileType::UpStairs.blocks());
}

#[test]
fn clearing_empties_every_occupant_list() {
    let mut map = GameMap::filled(0, 2, 2, TileType::Floor);
    map.tile_content[1].push(Entity { id: 4 });
    map.tile_content[3].push(Entity { id: 5 });
    map.tile_content[3].push(Entity { id: 6 });
    map.clear_tile_content();
    assert!(map.tile_content.iter().all(|c| c.is_empty()));
    assert_eq!(map.tile_content.len(), 4);
}

#[test]
fn reveal_all_reveals_everything() {
    let mut map = GameMap::filled(0, 3, 3, TileType::Wall);
    map.revealed_tiles[4] = true;
    map.reveal_all();
    assert!(map.revealed_tiles.iter().all(|r| *r));
}

#[test]
fn exits_are_the_open_neighbours_inside_the_rim() {
    let mut map = GameMap::filled(0, 5, 5, TileType::Floor);
    // west, east, north, south, in that order
    assert_eq!(map.get_available_exits(map.xy_idx(2, 2)), vec![11, 13, 7, 17]);
    map.blocked_tiles[13] = true;
    assert_eq!(map.get_available_exits(12), vec![11, 7, 17]);
    // the first row and the first column are never stepped onto
    assert_eq!(map.get_available_exits(map.xy_idx(1, 1)), vec![7, 11]);
    // the last row and column are
    assert_eq!(map.get_available_exits(map.xy_idx(3, 3)), vec![17, 19, 23]);
    assert_eq!(map.get_available_exits(map.xy_idx(4, 4)), vec![23, 19]);
    assert_eq!(map.get_available_exits(0), Vec::<usize>::new());
    assert!(map.is_exit_valid(1, 1));
    assert!(map.is_exit_valid(4, 4));
    assert!(!map.is_exit_valid(0, 2));
    assert!(!map.is_exit_valid(2, 0));
    assert!(!map.is_exit_valid(5, 2));
    assert!(!map.is_exit_valid(3, 2));
    assert!(!map.is_exit_valid(-1, -1));
}

#[test]
fn cloned_map_is_the_same_map() {
    let mut map = GameMap::filled(2, 4, 4, TileType::Wall);
    map.apply_room_to_map(&Rect::new(0, 0, 2, 2));
    map.rooms.push(Rect::new(0, 0, 2, 2));
    map.tile_content[5].push(Entity { id: 1 });
    map.tile_content[5].push(Entity { id: 0 });
    map.revealed_tiles[3] = true;
    map.blocked_tiles[2] = true;
    map.bloodstains.insert(1);
    map.player_spawn_index = Some(5);
    let copy = map.clone();
    assert_eq!(copy.tiles, map.tiles);
    assert_eq!(copy.tile_content, map.tile_content);
    assert_eq!(copy.revealed_tiles, map.revealed_tiles);
    assert_eq!(copy.blocked_tiles, map.blocked_tiles);
    assert_eq!(copy.bloodstains, map.bloodstains);
    assert_eq!(copy.rooms, map.rooms);
    assert_eq!((copy.width, copy.height, copy.index), (4, 4, 2));
    assert_eq!(copy.player_spawn_index, Some(5));
}

#[test]
fn rectangles() {
    let a = Rect::new(2, 3, 4, 5);
    assert_eq!((a.x1, a.y1, a.x2, a.y2), (2, 3, 6, 8));
    assert_eq!(a.center(), (4, 5));
    assert_eq!(Rect::new(0, 0, 7, 9).center(), (3, 4));
    assert_eq!(Rect::new(5, 5, 0, 0).center(), (5, 5));
    assert!(a.intersect(&a));
    assert!(a.intersect(&Rect::new(6, 8, 2, 2)));
    assert!(Rect::new(6, 8, 2, 2).intersect(&a));
    assert!(!a.intersect(&Rect::new(7, 3, 2, 2)));
    assert!(!a.intersect(&Rect::new(2, 9, 4, 1)));
    assert!(!a.intersect(&Rect::new(-3, 3, 4, 5)));
    assert!(a.intersect(&Rect::new(3, 4, 1, 1)));
}

#[test]
fn distances() {
    let o = Position { x: 3, y: 4 };
    assert_eq!(distance_squared(o, o), 0);
    assert_eq!(distance_squared(o, Position { x: 0, y: 0 }), 25);
    assert_eq!(distance_squared(Position { x: i32::MIN, y: 0 }, Position { x: i32::MAX, y: 0 }), 18446744065119617025);
    assert!(within_range(o, Position { x: 0, y: 0 }, 5));
    assert!(!within_range(o, Position { x: 0, y: 0 }, 4));
    assert!(within_range(o, o, 0));
    assert!(!within_range(o, o, -1));
    assert!(within_range(o, Position { x: 3, y: 12 }, 8));
    assert!(!within_range(o, Position { x: 3, y: 14 }, 8));
    assert!(!within_range(o, Position { x: 9, y: 12 }, 8));
    assert!(adjacent(o, o));
    assert!(adjacent(o, Position { x: 4, y: 4 }));
    assert!(adjacent(o, Position { x: 4, y: 5 }));
    assert!(adjacent(o, Position { x: 2, y: 3 }));
    assert!(!adjacent(o, Position { x: 5, y: 4 }));
    assert!(!adjacent(o, Position { x: 4, y: 6 }));
}

#[test]
fn a_map_is_well_formed_if_its_grids_fit_its_size() {
    let map = GameMap::filled(0, 7, 5, TileType::Floor);
    assert!(map.is_wf());
    let spoil = |change: &dyn Fn(&mut GameMap)| {
        let mut m = GameMap::filled(0, 7, 5, TileType::Floor);
        change(&mut m);
        m.is_wf()
    };
    assert!(!spoil(&|m| m.width = 0));
    assert!(!spoil(&|m| m.height = -5));
    assert!(!spoil(&|m| m.width = 8));
    assert!(!spoil(&|m| {
        m.tiles.pop();
    }));
    assert!(!spoil(&|m| m.revealed_tiles.push(false)));
    assert!(!spoil(&|m| m.blocked_tiles.clear()));
    assert!(!spoil(&|m| {
        m.tile_content.pop();
    }));
    assert!(!spoil(&|m| m.player_spawn_index = Some(35)));
    assert!(spoil(&|m| m.player_spawn_index = Some(34)));
    assert!(spoil(&|m| {
        m.bloodstains.insert(3);
    }));
    assert!(!spoil(&|m| {
        m.width = 65536;
        m.height = 65536;
    }));
}
