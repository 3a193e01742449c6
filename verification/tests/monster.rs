use terminalia::component::{Attack, AttackType, Entity, Viewshed};
use terminalia::geometry::Position;
use terminalia::map::{GameMap, TileType};
use terminalia::system::monster_system::{advance, holds, search_ground, sees, wander, MonsterSystem, Route};
use terminalia::turn::RunState;

fn p(x: i32, y: i32) -> Position {
    Position { x, y }
}

fn route(map: &GameMap, steps: &[(i32, i32)]) -> Option<Route> {
    Some(Route { success: true, steps: steps.iter().map(|(x, y)| map.xy_idx(*x, *y)).collect() })
}

#[test]
fn monster_advances_one_step_along_its_route() {
    let map = GameMap::filled(0, 10, 10, TileType::Floor);
    let r = route(&map, &[(2, 2), (3, 2), (4, 2), (5, 2)]);
    assert_eq!(advance(&map, p(2, 2), p(5, 2), &r), p(3, 2));
}

#[test]
fn monster_stays_without_a_usable_route() {
    let mut map = GameMap::filled(0, 10, 10, TileType::Floor);
    let here = p(2, 2);
    let player = p(5, 2);
    assert_eq!(advance(&map, here, player, &None), here);
    assert_eq!(advance(&map, here, player, &Some(Route { success: false, steps: vec![22, 23] })), here);
    assert_eq!(advance(&map, here, player, &Some(Route { success: true, steps: vec![] })), here);
    assert_eq!(advance(&map, here, player, &Some(Route { success: true, steps: vec![22] })), here);
    // a route that starts elsewhere, jumps, or leaves the map is ignored
    assert_eq!(advance(&map, here, player, &route(&map, &[(3, 2), (4, 2)])), here);
    assert_eq!(advance(&map, here, player, &route(&map, &[(2, 2), (4, 2)])), here);
    assert_eq!(advance(&map, here, player, &route(&map, &[(2, 2), (3, 3)])), here);
    assert_eq!(advance(&map, here, player, &Some(Route { success: true, steps: vec![22, 5000] })), here);
    // a blocked tile is not stepped onto
    let next = map.xy_idx(3, 2);
    map.blocked_tiles[next] = true;
    assert_eq!(advance(&map, here, player, &route(&map, &[(2, 2), (3, 2)])), here);
}

#[test]
fn monster_never_steps_onto_the_player() {
    let map = GameMap::filled(0, 10, 10, TileType::Floor);
    assert_eq!(advance(&map, p(4, 2), p(5, 2), &route(&map, &[(4, 2), (5, 2)])), p(4, 2));
}

#[test]
fn lists_are_searched() {
    assert!(sees(&vec![p(1, 1), p(2, 3)], p(2, 3)));
    assert!(!sees(&vec![p(1, 1), p(2, 3)], p(3, 2)));
    assert!(!sees(&vec![], p(0, 0)));
    assert!(holds(&vec![4, 5], 5));
    assert!(!holds(&vec![4, 5], 6));
}

struct Pack {
    viewsheds: Vec<Option<Viewshed>>,
    positions: Vec<Option<Position>>,
    monsters: Vec<bool>,
    attacks: Vec<Option<Attack>>,
    map: GameMap,
    routes: Vec<Option<Route>>,
}

fn pack() -> Pack {
    let map = GameMap::filled(0, 12, 8, TileType::Floor);
    let player = p(6, 4);
    let watching = |tiles: Vec<Position>| Some(Viewshed { visible_tiles: tiles, range: 8 });
    Pack {
        // 0 player; 1 far monster; 2 adjacent monster; 3 blind monster; 4 monster two steps away; 5 item
        viewsheds: vec![
            watching(vec![player]),
            watching(vec![player, p(1, 1)]),
            watching(vec![player]),
            watching(vec![p(2, 2)]),
            watching(vec![player]),
            None,
        ],
        positions: vec![Some(player), Some(p(2, 4)), Some(p(7, 5)), Some(p(6, 5)), Some(p(6, 2)), Some(p(5, 4))],
        monsters: vec![false, true, true, true, true, false],
        attacks: vec![None, None, None, None, None, None],
        routes: vec![
            None,
            route(&map, &[(2, 4), (3, 4), (4, 4), (5, 4), (6, 4)]),
            route(&map, &[(7, 5), (7, 4), (6, 4)]),
            route(&map, &[(6, 5), (6, 4)]),
            route(&map, &[(6, 2), (6, 3), (6, 4)]),
            None,
        ],
        map,
    }
}

fn hunt(pack: &mut Pack, state: RunState) {
    MonsterSystem {}.run(
        state,
        &pack.viewsheds,
        &mut pack.positions,
        &pack.monsters,
        &mut pack.attacks,
        p(6, 4),
        Entity { id: 0 },
        &pack.map,
        &pack.routes,
    );
}

#[test]
fn monsters_that_see_the_player_close_in_and_strike() {
    let mut pack = pack();
    pack.map.blocked_tiles[5] = true;
    hunt(&mut pack, RunState::MonsterTurn);
    let strike = Some(Attack { attack_type: AttackType::Melee, target: Entity { id: 0 }, spell: None });
    assert_eq!(pack.positions[0], Some(p(6, 4)));
    assert_eq!(pack.positions[1], Some(p(3, 4)));
    assert_eq!(pack.attacks[1], None);
    // moves next to the player and strikes in the same tick
    assert_eq!(pack.positions[2], Some(p(7, 4)));
    assert_eq!(pack.attacks[2], strike);
    // does not see the player: neither moves nor strikes, adjacent as it is
    assert_eq!(pack.positions[3], Some(p(6, 5)));
    assert_eq!(pack.attacks[3], None);
    assert_eq!(pack.positions[4], Some(p(6, 3)));
    assert_eq!(pack.attacks[4], strike);
    assert_eq!(pack.positions[5], Some(p(5, 4)));
    assert_eq!(pack.attacks[0], None);
    // the flags of the spatial index are read, never written
    assert!(pack.map.blocked_tiles[5]);
    assert_eq!(pack.map.blocked_tiles.iter().filter(|b| **b).count(), 1);
}

#[test]
fn a_monster_does_not_step_onto_a_tile_that_another_entity_blocks() {
    // a floor of four by two: the monster at (1, 1), something in its way at (2, 1), the player at (3, 1)
    let mut map = GameMap::filled(0, 4, 2, TileType::Floor);
    map.blocked_tiles[6] = true;
    let player = p(3, 1);
    let viewsheds = vec![None, Some(Viewshed { visible_tiles: vec![player], range: 8 }), None];
    let mut positions = vec![Some(player), Some(p(1, 1)), Some(p(2, 1))];
    let monsters = vec![false, true, false];
    let mut attacks = vec![None, None, None];
    let routes = vec![None, Some(Route { success: true, steps: vec![5, 6, 7] }), None];
    MonsterSystem {}.run(
        RunState::MonsterTurn,
        &viewsheds,
        &mut positions,
        &monsters,
        &mut attacks,
        player,
        Entity { id: 0 },
        &map,
        &routes,
    );
    assert_eq!(positions[1], Some(p(1, 1)));
    assert_eq!(positions[2], Some(p(2, 1)));
    assert_eq!(attacks[1], None);
    assert!(map.blocked_tiles[6]);
    // with the way free the same route is taken
    map.blocked_tiles[6] = false;
    positions[2] = None;
    MonsterSystem {}.run(
        RunState::MonsterTurn,
        &viewsheds,
        &mut positions,
        &monsters,
        &mut attacks,
        player,
        Entity { id: 0 },
        &map,
        &routes,
    );
    assert_eq!(positions[1], Some(p(2, 1)));
    assert_eq!(attacks[1], Some(Attack { attack_type: AttackType::Melee, target: Entity { id: 0 }, spell: None }));
}

#[test]
fn nothing_moves_outside_the_monsters_turn() {
    for state in [RunState::AwaitingInput, RunState::PlayerTurn, RunState::Descending, RunState::LevelUp { index: 1 }] {
        let mut pack = pack();
        pack.map.blocked_tiles[5] = true;
        let before = pack.positions.clone();
        hunt(&mut pack, state);
        assert_eq!(pack.positions, before);
        assert!(pack.attacks.iter().all(|a| a.is_none()));
        assert!(pack.map.blocked_tiles[5]);
    }
}

#[test]
fn pursuers_are_the_monsters_that_see_the_player() {
    let pack = pack();
    let list = MonsterSystem {}.pursuers(&pack.viewsheds, &pack.positions, &pack.monsters, p(6, 4));
    assert_eq!(list, vec![Entity { id: 1 }, Entity { id: 2 }, Entity { id: 4 }]);
    let none = MonsterSystem {}.pursuers(&pack.viewsheds, &pack.positions, &pack.monsters, p(0, 0));
    assert!(none.is_empty());
}

#[test]
fn walls_stop_a_monster() {
    let mut pack = pack();
    let wall = pack.map.xy_idx(3, 4);
    pack.map.tiles[wall] = TileType::Wall;
    // the flags are those of the index, so the terrain has to be in them
    pack.map.populate_blocked();
    hunt(&mut pack, RunState::MonsterTurn);
    assert_eq!(pack.positions[1], Some(p(2, 4)));
    assert!(pack.map.blocked_tiles[wall]);
}

#[test]
fn wanderers_step_by_direction_and_stay_on_the_grid() {
    assert_eq!(wander(p(5, 5), 1), p(5, 4));
    assert_eq!(wander(p(5, 5), 2), p(6, 5));
    assert_eq!(wander(p(5, 5), 3), p(5, 6));
    assert_eq!(wander(p(5, 5), 4), p(4, 5));
    assert_eq!(wander(p(5, 5), 0), p(5, 5));
    assert_eq!(wander(p(5, 5), 9), p(5, 5));
    assert_eq!(wander(p(0, 0), 1), p(0, 0));
    assert_eq!(wander(p(0, 0), 4), p(0, 0));
    assert_eq!(wander(p(79, 49), 2), p(79, 49));
    assert_eq!(wander(p(79, 49), 3), p(79, 49));
    assert_eq!(wander(p(200, -7), 0), p(79, 0));
    assert_eq!(wander(p(i32::MAX, i32::MIN), 2), p(79, 0));
}

#[test]
fn the_search_crosses_the_ground_of_the_index_with_the_goal_opened() {
    let mut map = GameMap::filled(3, 6, 4, TileType::Floor);
    map.tiles[2] = TileType::Wall;
    map.populate_blocked();
    let goal = p(4, 2);
    let goal_tile = map.xy_idx(4, 2);
    map.blocked_tiles[goal_tile] = true;
    map.blocked_tiles[9] = true;
    map.revealed_tiles[5] = true;
    map.bloodstains.insert(7);
    map.tile_content[9].push(Entity { id: 3 });
    let open = search_ground(&map, goal);
    for t in 0..map.tiles.len() {
        assert_eq!(open.blocked_tiles[t], map.blocked_tiles[t] && t != goal_tile, "tile {}", t);
    }
    assert!(open.blocked_tiles[2] && open.blocked_tiles[9] && !open.blocked_tiles[goal_tile]);
    assert_eq!(open.tiles, map.tiles);
    assert_eq!(open.revealed_tiles, map.revealed_tiles);
    assert_eq!(open.bloodstains, map.bloodstains);
    assert_eq!(open.tile_content, map.tile_content);
    assert_eq!((open.width, open.height, open.index), (6, 4, 3));
    // the map itself is left as it was
    assert!(map.blocked_tiles[goal_tile]);
    // the goal can be stepped onto on the ground of the search, and not on the map
    assert!(open.get_available_exits(map.xy_idx(3, 2)).contains(&goal_tile));
    assert!(!map.get_available_exits(map.xy_idx(3, 2)).contains(&goal_tile));
}
