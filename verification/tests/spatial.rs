use terminalia::component::Entity;
use terminalia::geometry::Position;
use terminalia::map::{GameMap, TileType};
use terminalia::system::map_indexing_system::MapIndexingSystem;

fn at(x: i32, y: i32) -> Option<Position> {
    Some(Position { x, y })
}

#[test]
fn index_reflects_positions_exactly() {
    let mut map = GameMap::filled(0, 5, 4, TileType::Floor);
    map.tiles[0] = TileType::Wall;
    map.tiles[7] = TileType::Debris;
    let positions = vec![at(1, 1), None, at(3, 2), at(1, 1), at(4, 3), at(2, 1)];
    let blockers = vec![true, true, false, false, true, false];
    MapIndexingSystem {}.run(&positions, &blockers, &mut map);
    for t in 0..20usize {
        let expected_block = t == 0 || t == 7 || t == 6 || t == 19;
        assert_eq!(map.blocked_tiles[t], expected_block, "tile {}", t);
    }
    assert_eq!(map.tile_content[6], vec![Entity { id: 0 }, Entity { id: 3 }]);
    assert_eq!(map.tile_content[13], vec![Entity { id: 2 }]);
    assert_eq!(map.tile_content[19], vec![Entity { id: 4 }]);
    assert_eq!(map.tile_content[7], vec![Entity { id: 5 }]);
    for t in 0..20usize {
        if ![6, 7, 13, 19].contains(&t) {
            assert!(map.tile_content[t].is_empty(), "tile {}", t);
        }
    }
}

#[test]
fn stale_index_does_not_leak_into_the_next_tick() {
    let mut map = GameMap::filled(0, 4, 4, TileType::Floor);
    let blockers = vec![true, true];
    MapIndexingSystem {}.run(&vec![at(1, 1), at(2, 2)], &blockers, &mut map);
    assert!(map.blocked_tiles[5] && map.blocked_tiles[10]);
    MapIndexingSystem {}.run(&vec![at(1, 2), None], &blockers, &mut map);
    assert!(!map.blocked_tiles[5]);
    assert!(!map.blocked_tiles[10]);
    assert!(map.blocked_tiles[9]);
    assert!(map.tile_content[5].is_empty());
    assert!(map.tile_content[10].is_empty());
    assert_eq!(map.tile_content[9], vec![Entity { id: 0 }]);
    assert_eq!(map.blocked_tiles.iter().filter(|b| **b).count(), 1);
}

#[test]
fn index_leaves_terrain_and_memory_alone() {
    let mut map = GameMap::filled(1, 3, 3, TileType::Floor);
    map.revealed_tiles[2] = true;
    map.bloodstains.insert(3);
    map.tiles[8] = TileType::DownStairs;
    let tiles = map.tiles.clone();
    MapIndexingSystem {}.run(&vec![at(0, 0)], &vec![false], &mut map);
    assert_eq!(map.tiles, tiles);
    assert!(map.revealed_tiles[2]);
    assert!(map.bloodstains.contains(&3));
    assert!(!map.blocked_tiles[0]);
    assert_eq!(map.tile_content[0], vec![Entity { id: 0 }]);
}

#[test]
fn two_entities_may_swap_tiles_between_ticks() {
    let mut map = GameMap::filled(0, 4, 3, TileType::Floor);
    let blockers = vec![true, true];
    MapIndexingSystem {}.run(&vec![at(1, 1), at(2, 1)], &blockers, &mut map);
    assert_eq!(map.tile_content[5], vec![Entity { id: 0 }]);
    assert_eq!(map.tile_content[6], vec![Entity { id: 1 }]);
    MapIndexingSystem {}.run(&vec![at(2, 1), at(1, 1)], &blockers, &mut map);
    assert_eq!(map.tile_content[5], vec![Entity { id: 1 }]);
    assert_eq!(map.tile_content[6], vec![Entity { id: 0 }]);
    assert!(map.blocked_tiles[5] && map.blocked_tiles[6]);
}
