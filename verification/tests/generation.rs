use terminalia::generate::VILLAGE_MIN_SIZE;
use terminalia::geometry::Rect;
use terminalia::map::{GameMap, MapOptions, TileType, MAX_ROOMS, MAX_SIZE, MIN_SIZE};

fn options(index: u32, width: i32, height: i32, up: bool, down: bool, debris: bool) -> MapOptions {
    MapOptions { index, width, height, has_upstairs: up, has_downstairs: down, has_debris: debris }
}

fn generate(seed: u64, opts: MapOptions) -> GameMap {
    let mut rng = rltk::RandomNumberGenerator::seeded(seed);
    GameMap::new_map_dynamic_rooms_and_corridors(&mut rng, opts)
}

fn count(map: &GameMap, tile: TileType) -> usize {
    map.tiles.iter().filter(|t| **t == tile).count()
}

fn center_index(map: &GameMap, room: &Rect) -> usize {
    let (x, y) = room.center();
    map.xy_idx(x, y)
}

#[test]
fn generation_is_deterministic_for_a_seed() {
    for seed in [0u64, 1, 42, 0xdead_beef, u64::MAX] {
        let opts = options(1, 80, 50, true, true, true);
        let a = generate(seed, opts);
        let b = generate(seed, opts);
        assert_eq!(a.tiles, b.tiles, "seed {}", seed);
        assert_eq!(a.rooms, b.rooms, "seed {}", seed);
        assert_eq!(a.player_spawn_index, b.player_spawn_index);
    }
}

#[test]
fn different_seeds_give_different_floors() {
    let opts = options(1, 80, 50, true, true, false);
    let a = generate(1, opts);
    let b = generate(2, opts);
    assert!(a.tiles != b.tiles || a.rooms != b.rooms);
}

#[test]
fn accepted_rooms_never_overlap() {
    for seed in 0..60u64 {
        let map = generate(seed, options(2, 80, 50, true, true, true));
        for i in 0..map.rooms.len() {
            for j in (i + 1)..map.rooms.len() {
                assert!(!map.rooms[i].intersect(&map.rooms[j]), "seed {} rooms {} and {}", seed, i, j);
            }
        }
    }
}

#[test]
fn rooms_keep_their_size_and_stay_inside_the_map() {
    for seed in 0..40u64 {
        let map = generate(seed, options(2, 64, 40, false, false, false));
        assert!(!map.rooms.is_empty());
        assert!(map.rooms.len() <= MAX_ROOMS as usize);
        for room in map.rooms.iter() {
            assert!(room.x1 >= 0 && room.y1 >= 0);
            assert!(room.x2 - room.x1 >= MIN_SIZE && room.x2 - room.x1 < MAX_SIZE);
            assert!(room.y2 - room.y1 >= MIN_SIZE && room.y2 - room.y1 < MAX_SIZE);
            assert!(room.x2 <= 62 && room.y2 <= 38);
        }
    }
}

#[test]
fn first_room_holds_spawn_and_up_stairs_and_last_room_the_down_stairs() {
    let seed = 20240229u64;
    let map = generate(seed, options(1, 80, 50, true, true, false));
    assert!(map.rooms.len() > 1);
    assert!(map.rooms.len() <= 30);
    let first = center_index(&map, &map.rooms[0]);
    let last = center_index(&map, &map.rooms[map.rooms.len() - 1]);
    assert_eq!(map.player_spawn_index, Some(first));
    assert_eq!(map.tiles[first], TileType::UpStairs);
    assert_eq!(map.tiles[last], TileType::DownStairs);
    assert_eq!(count(&map, TileType::UpStairs), 1);
    assert_eq!(count(&map, TileType::DownStairs), 1);
    assert_eq!((map.width, map.height, map.index), (80, 50, 1));
}

#[test]
fn stairs_are_stamped_only_where_asked_for() {
    for seed in 0..20u64 {
        let plain = generate(seed, options(1, 80, 50, false, false, false));
        assert_eq!(count(&plain, TileType::UpStairs), 0);
        assert_eq!(count(&plain, TileType::DownStairs), 0);
        assert_eq!(count(&plain, TileType::Debris), 0);
        let first = center_index(&plain, &plain.rooms[0]);
        assert_eq!(plain.player_spawn_index, Some(first));
        assert_eq!(plain.tiles[first], TileType::Floor);

        let down = generate(seed, options(1, 80, 50, false, true, false));
        assert_eq!(count(&down, TileType::UpStairs), 0);
        assert_eq!(count(&down, TileType::DownStairs), 1);

        let up = generate(seed, options(1, 80, 50, true, false, false));
        assert_eq!(count(&up, TileType::UpStairs), 1);
        assert_eq!(count(&up, TileType::DownStairs), 0);
    }
}

#[test]
fn debris_lies_on_room_floors_and_never_on_stairs() {
    let mut seen_debris = false;
    for seed in 0..30u64 {
        let bare = generate(seed, options(3, 80, 50, true, true, false));
        let map = generate(seed, options(3, 80, 50, true, true, true));
        assert_eq!(count(&map, TileType::UpStairs), 1);
        assert_eq!(count(&map, TileType::DownStairs), 1);
        assert_eq!(bare.rooms, map.rooms);
        for (index, tile) in map.tiles.iter().enumerate() {
            if *tile == TileType::Debris {
                seen_debris = true;
                assert_eq!(bare.tiles[index], TileType::Floor);
                let (x, y) = map.idx_xy(index);
                assert!(map.rooms.iter().any(|r| r.x1 < x && x <= r.x2 && r.y1 < y && y <= r.y2));
            } else {
                assert_eq!(*tile, bare.tiles[index]);
            }
        }
        assert!(count(&map, TileType::Debris) <= 6 * map.rooms.len());
    }
    assert!(seen_debris);
}

#[test]
fn every_open_tile_belongs_to_a_room_or_a_corridor() {
    for seed in 0..25u64 {
        let map = generate(seed, options(1, 80, 50, true, true, true));
        for room in map.rooms.iter() {
            for y in (room.y1 + 1)..=room.y2 {
                for x in (room.x1 + 1)..=room.x2 {
                    assert_ne!(map.tiles[map.xy_idx(x, y)], TileType::Wall);
                }
            }
        }
        let on_line = |a: i32, b: i32, v: i32| (a <= v && v <= b) || (b <= v && v <= a);
        for (index, tile) in map.tiles.iter().enumerate() {
            if *tile == TileType::Wall {
                continue;
            }
            let (x, y) = map.idx_xy(index);
            let in_room = map.rooms.iter().any(|r| r.x1 < x && x <= r.x2 && r.y1 < y && y <= r.y2);
            let on_corridor = (1..map.rooms.len()).any(|k| {
                let (ax, ay) = map.rooms[k - 1].center();
                let (bx, by) = map.rooms[k].center();
                (y == ay && on_line(ax, bx, x))
                    || (x == bx && on_line(ay, by, y))
                    || (x == ax && on_line(ay, by, y))
                    || (y == by && on_line(ax, bx, x))
            });
            assert!(in_room || on_corridor, "seed {} tile ({}, {})", seed, x, y);
        }
        assert_eq!(map.tiles[0], TileType::Wall);
    }
}

#[test]
fn consecutive_rooms_are_joined() {
    for seed in 0..25u64 {
        let map = generate(seed, options(1, 80, 50, false, false, false));
        let open = |x: i32, y: i32| map.tiles[map.xy_idx(x, y)] != TileType::Wall;
        let run_h = |a: i32, b: i32, y: i32| (a.min(b)..=a.max(b)).all(|x| open(x, y));
        let run_v = |a: i32, b: i32, x: i32| (a.min(b)..=a.max(b)).all(|y| open(x, y));
        for k in 1..map.rooms.len() {
            let (ax, ay) = map.rooms[k - 1].center();
            let (bx, by) = map.rooms[k].center();
            let horizontal_first = run_h(ax, bx, ay) && run_v(ay, by, bx);
            let vertical_first = run_v(ay, by, ax) && run_h(ax, bx, by);
            assert!(horizontal_first || vertical_first, "seed {} rooms {} and {}", seed, k - 1, k);
        }
    }
}

#[test]
fn generated_floor_is_pristine() {
    let map = generate(5, options(9, 100, 100, true, true, true));
    assert_eq!(map.tiles.len(), 10000);
    assert_eq!(map.revealed_tiles.len(), 10000);
    assert_eq!(map.blocked_tiles.len(), 10000);
    assert_eq!(map.tile_content.len(), 10000);
    assert!(map.revealed_tiles.iter().all(|r| !*r));
    assert!(map.blocked_tiles.iter().all(|r| !*r));
    assert!(map.bloodstains.is_empty());
    assert!(map.tile_content.iter().all(|c| c.is_empty()));
    assert_eq!(map.index, 9);
}

#[test]
fn smallest_floor_that_can_be_generated() {
    for seed in 0..30u64 {
        let map = generate(seed, options(1, 11, 11, true, true, true));
        assert!(!map.rooms.is_empty());
        for i in 0..map.rooms.len() {
            for j in (i + 1)..map.rooms.len() {
                assert!(!map.rooms[i].intersect(&map.rooms[j]));
            }
        }
        // on a floor this small no two rooms fit
        assert_eq!(map.rooms.len(), 1);
        let centre = center_index(&map, &map.rooms[0]);
        assert_eq!(map.player_spawn_index, Some(centre));
        assert_eq!(map.tiles[centre], TileType::DownStairs);
        // the way up stands beside the way down, on the floor of the same room
        assert_eq!(map.tiles[centre - 1], TileType::UpStairs);
        assert_eq!(count(&map, TileType::UpStairs), 1);
        assert_eq!(count(&map, TileType::DownStairs), 1);
        let room = map.rooms[0];
        let (x, y) = map.idx_xy(centre - 1);
        assert!(room.x1 < x && x <= room.x2 && room.y1 < y && y <= room.y2);
    }
}

#[test]
fn every_floor_has_one_staircase_of_each_kind_that_is_asked_for() {
    for seed in 0..40u64 {
        for (width, height) in [(11, 11), (12, 17), (20, 11), (30, 30), (80, 50)] {
            for (up, down) in [(true, true), (true, false), (false, true), (false, false)] {
                let map = generate(seed, options(1, width, height, up, down, seed % 2 == 0));
                assert_eq!(count(&map, TileType::UpStairs), up as usize);
                assert_eq!(count(&map, TileType::DownStairs), down as usize);
                let first = center_index(&map, &map.rooms[0]);
                let last = center_index(&map, &map.rooms[map.rooms.len() - 1]);
                assert_eq!(map.player_spawn_index, Some(first));
                if down {
                    assert_eq!(map.tiles[last], TileType::DownStairs);
                }
                if up && (map.rooms.len() > 1 || !down) {
                    assert_eq!(map.tiles[first], TileType::UpStairs);
                }
            }
        }
    }
}

#[test]
fn stairs_on_rooms_whose_centres_fall_together() {
    let mut map = GameMap::filled(0, 30, 30, TileType::Wall);
    map.add_room(Rect::new(4, 4, 8, 8), false);
    map.place_stairs(options(0, 30, 30, true, true, false));
    let centre = map.xy_idx(8, 8);
    assert_eq!(map.tiles[centre], TileType::DownStairs);
    assert_eq!(map.tiles[centre - 1], TileType::UpStairs);
    assert_eq!(map.player_spawn_index, Some(centre));

    let mut alone = GameMap::filled(0, 30, 30, TileType::Wall);
    alone.add_room(Rect::new(4, 4, 8, 8), false);
    alone.place_stairs(options(0, 30, 30, true, false, false));
    assert_eq!(alone.tiles[centre], TileType::UpStairs);
    assert_eq!(alone.tiles[centre - 1], TileType::Floor);
}

#[test]
fn add_room_joins_to_the_room_before() {
    let mut map = GameMap::filled(0, 40, 30, TileType::Wall);
    let a = Rect::new(2, 2, 6, 6);
    let b = Rect::new(20, 15, 8, 6);
    assert!(map.room_is_free(&a));
    map.add_room(a, true);
    assert!(!map.room_is_free(&Rect::new(8, 8, 6, 6)));
    assert!(map.room_is_free(&b));
    map.add_room(b, true);
    assert_eq!(map.rooms, vec![a, b]);
    let (ax, ay) = a.center();
    let (bx, by) = b.center();
    for x in ax..=bx {
        assert_eq!(map.tiles[map.xy_idx(x, ay)], TileType::Floor);
    }
    for y in ay..=by {
        assert_eq!(map.tiles[map.xy_idx(bx, y)], TileType::Floor);
    }
    // the other leg of the L stays wall outside the rooms
    assert_eq!(map.tiles[map.xy_idx(ax, 12)], TileType::Wall);

    let mut other = GameMap::filled(0, 40, 30, TileType::Wall);
    other.add_room(a, false);
    other.add_room(b, false);
    for y in ay..=by {
        assert_eq!(other.tiles[other.xy_idx(ax, y)], TileType::Floor);
    }
    for x in ax..=bx {
        assert_eq!(other.tiles[other.xy_idx(x, by)], TileType::Floor);
    }
    assert_eq!(other.tiles[other.xy_idx(bx, 10)], TileType::Wall);
}

#[test]
fn village_layout() {
    assert_eq!(VILLAGE_MIN_SIZE, 16);
    let map = GameMap::new_map_oakwood(options(0, 80, 40, false, true, false));
    assert_eq!((map.width, map.height, map.index), (80, 40, 0));
    let hall = Rect { x1: 30, x2: 50, y1: 5, y2: 15 };
    assert_eq!(map.rooms, vec![hall]);
    assert_eq!(map.player_spawn_index, Some(map.xy_idx(40, 20)));
    assert_eq!(map.tiles[map.xy_idx(40, 20)], TileType::Floor);
    assert_eq!(map.tiles[map.xy_idx(70, 30)], TileType::DownStairs);
    assert_eq!(count(&map, TileType::DownStairs), 1);
    assert_eq!(count(&map, TileType::UpStairs), 0);
    assert_eq!(count(&map, TileType::Debris), 0);
    // the door, in the middle of the southern side
    assert_eq!(map.tiles[map.xy_idx(40, 15)], TileType::Floor);
    assert_eq!(map.tiles[map.xy_idx(39, 15)], TileType::Wall);
    assert_eq!(map.tiles[map.xy_idx(41, 15)], TileType::Wall);
    assert_eq!(map.tiles[map.xy_idx(30, 5)], TileType::Wall);
    assert_eq!(map.tiles[map.xy_idx(50, 15)], TileType::Wall);
    assert_eq!(map.tiles[map.xy_idx(40, 5)], TileType::Wall);
    assert_eq!(map.tiles[map.xy_idx(40, 10)], TileType::Floor);
    for y in 0..40 {
        for x in 0..80 {
            let rim = x == 0 || y == 0 || x == 79 || y == 39;
            let outline = (30..=50).contains(&x)
                && (5..=15).contains(&y)
                && (x == 30 || x == 50 || y == 5 || y == 15)
                && !(x == 40 && y == 15);
            let expected = if rim || outline {
                TileType::Wall
            } else if (x, y) == (70, 30) {
                TileType::DownStairs
            } else {
                TileType::Floor
            };
            assert_eq!(map.tiles[map.xy_idx(x, y)], expected, "at ({}, {})", x, y);
        }
    }
    let both = GameMap::new_map_oakwood(options(0, 16, 16, true, true, false));
    assert_eq!(both.tiles[both.xy_idx(14, 12)], TileType::DownStairs);
    assert_eq!(both.tiles[both.xy_idx(2, 12)], TileType::UpStairs);
    assert_eq!(both.player_spawn_index, Some(both.xy_idx(8, 8)));
}

#[test]
fn fixed_floor_of_two_rooms() {
    let map = GameMap::new_map_static_rooms_and_corridors();
    assert_eq!((map.width, map.height), (80, 50));
    assert!(map.rooms.is_empty());
    assert_eq!(map.player_spawn_index, None);
    for y in 0..50 {
        for x in 0..80 {
            let in_first = (21..=30).contains(&x) && (16..=30).contains(&y);
            let in_second = (36..=45).contains(&x) && (16..=30).contains(&y);
            let on_run = y == 23 && (25..=40).contains(&x);
            let expected = if in_first || in_second || on_run { TileType::Floor } else { TileType::Wall };
            assert_eq!(map.tiles[map.xy_idx(x, y)], expected, "at ({}, {})", x, y);
        }
    }
}

#[test]
fn random_walls_keep_the_rim_and_the_middle() {
    for seed in 0..40u64 {
        let mut rng = rltk::RandomNumberGenerator::seeded(seed);
        let map = GameMap::new_map_random_walls(&mut rng);
        assert_eq!((map.width, map.height), (80, 50));
        let mut inner_walls = 0;
        for y in 0..50 {
            for x in 0..80 {
                let tile = map.tiles[map.xy_idx(x, y)];
                assert!(tile == TileType::Wall || tile == TileType::Floor);
                if x == 0 || y == 0 || x == 79 || y == 49 {
                    assert_eq!(tile, TileType::Wall);
                } else if tile == TileType::Wall {
                    inner_walls += 1;
                }
            }
        }
        assert!(inner_walls <= 25);
        assert!(inner_walls >= 15, "seed {} gave {}", seed, inner_walls);
        assert_eq!(map.tiles[map.xy_idx(40, 25)], TileType::Floor);
    }
    let mut a = rltk::RandomNumberGenerator::seeded(7);
    let mut b = rltk::RandomNumberGenerator::seeded(7);
    assert_eq!(GameMap::new_map_random_walls(&mut a).tiles, GameMap::new_map_random_walls(&mut b).tiles);
}
