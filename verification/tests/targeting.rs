use terminalia::component::{DamageType, DiceExpr, Entity, EquipmentSlot, Equipped, MagicWeapon, RangedWeapon};
use terminalia::geometry::Position;
use terminalia::map::{GameMap, TileType};
use terminalia::system::ranged_combat_system::{
    can_aim_at, cycle_target, eligible_targets, get_player_magic_weapon_entity, get_player_ranged_weapon_entity,
    is_stale, last_in_range, next_target, take_aim, try_cycle_magic_targeting, try_cycle_targeting,
    RangedCombatSystem,
};

fn e(id: usize) -> Entity {
    Entity { id }
}

fn at(x: i32, y: i32) -> Option<Position> {
    Some(Position { x, y })
}

fn bow(range: i32, target: Option<usize>) -> Option<RangedWeapon> {
    Some(RangedWeapon {
        damage: DiceExpr { dice_count: 1, dice_sides: 6, modifier: 0 },
        damage_type: DamageType::Physical,
        range,
        target: target.map(e),
    })
}

fn held(owner: usize) -> Option<Equipped> {
    Some(Equipped { slot: EquipmentSlot::Weapon, owner: e(owner) })
}

#[test]
fn cycling_walks_the_candidates_and_wraps_around() {
    let candidates = vec![(4, e(7)), (9, e(2)), (9, e(5)), (30, e(1))];
    assert_eq!(cycle_target(&candidates, None), Some(e(7)));
    assert_eq!(cycle_target(&candidates, Some(e(7))), Some(e(2)));
    assert_eq!(cycle_target(&candidates, Some(e(2))), Some(e(5)));
    assert_eq!(cycle_target(&candidates, Some(e(5))), Some(e(1)));
    assert_eq!(cycle_target(&candidates, Some(e(1))), Some(e(7)));
    // a target that is no candidate gives way to the first candidate
    assert_eq!(cycle_target(&candidates, Some(e(99))), Some(e(7)));
    // without candidates the target is left alone
    assert_eq!(cycle_target(&vec![], Some(e(3))), Some(e(3)));
    assert_eq!(cycle_target(&vec![], None), None);
    assert_eq!(cycle_target(&vec![(1, e(4))], Some(e(4))), Some(e(4)));
}

#[test]
fn candidates_are_the_monsters_in_range_and_sight_by_tile() {
    let mut map = GameMap::filled(0, 30, 9, TileType::Floor);
    let wall = map.xy_idx(5, 2);
    map.tiles[wall] = TileType::Wall;
    let monsters = vec![false, true, true, true, true, true, false, true, true];
    let positions = vec![
        at(5, 4),  // the player
        at(9, 4),  // in range
        at(5, 0),  // behind the wall
        at(15, 4), // at distance 10
        at(2, 6),  // in range, further down the map
        None,      // nowhere
        at(6, 4),  // no monster
        at(9, 4),  // on one tile with another
        at(13, 4), // exactly at the end of the range
    ];
    let list = eligible_targets(&map, &monsters, &positions, Position { x: 5, y: 4 }, 8);
    let t = |x: i32, y: i32| map.xy_idx(x, y);
    assert_eq!(list, vec![(t(9, 4), e(1)), (t(9, 4), e(7)), (t(13, 4), e(8)), (t(2, 6), e(4))]);
    assert!(can_aim_at(&map, &monsters, &positions, Position { x: 5, y: 4 }, 8, 1));
    assert!(!can_aim_at(&map, &monsters, &positions, Position { x: 5, y: 4 }, 8, 2));
    assert!(!can_aim_at(&map, &monsters, &positions, Position { x: 5, y: 4 }, 8, 3));
    assert!(!can_aim_at(&map, &monsters, &positions, Position { x: 5, y: 4 }, 8, 5));
    assert!(!can_aim_at(&map, &monsters, &positions, Position { x: 5, y: 4 }, 8, 6));
    assert!(can_aim_at(&map, &monsters, &positions, Position { x: 5, y: 4 }, 10, 3));
}

#[test]
fn target_at_distance_ten_is_out_of_reach_of_a_range_of_eight() {
    let map = GameMap::filled(0, 30, 5, TileType::Floor);
    let monsters = vec![false, true];
    let positions = vec![at(2, 2), at(12, 2)];
    assert!(eligible_targets(&map, &monsters, &positions, Position { x: 2, y: 2 }, 8).is_empty());
    let equipped = vec![None, None, held(0)];
    let mut ranged = vec![None, None, bow(8, None)];
    let monsters3 = vec![false, true, false];
    let positions3 = vec![at(2, 2), at(12, 2), None];
    for _ in 0..3 {
        try_cycle_targeting(&map, e(0), &equipped, &mut ranged, &monsters3, &positions3);
        assert_eq!(ranged[2].unwrap().target, None);
    }
    let near = vec![at(2, 2), at(10, 2), None];
    try_cycle_targeting(&map, e(0), &equipped, &mut ranged, &monsters3, &near);
    assert_eq!(ranged[2].unwrap().target, Some(e(1)));
}

#[test]
fn cycling_aims_the_wielded_weapon() {
    let map = GameMap::filled(0, 20, 5, TileType::Floor);
    // 0 player, 1..3 monsters, 4 bow wielded, 5 bow in the pack, 6 bow of a monster
    let monsters = vec![false, true, true, true, false, false, false];
    let positions = vec![at(3, 2), at(6, 2), at(4, 1), at(3, 4), None, None, None];
    let equipped = vec![None, None, None, None, held(0), None, held(1)];
    let mut ranged = vec![None, None, None, None, bow(5, None), bow(5, None), bow(5, None)];
    assert_eq!(get_player_ranged_weapon_entity(&equipped, &ranged, e(0)), Some(e(4)));
    assert_eq!(get_player_ranged_weapon_entity(&equipped, &ranged, e(1)), Some(e(6)));
    assert_eq!(get_player_ranged_weapon_entity(&equipped, &ranged, e(2)), None);
    let order = [2usize, 1, 3, 2, 1];
    for expected in order {
        try_cycle_targeting(&map, e(0), &equipped, &mut ranged, &monsters, &positions);
        assert_eq!(ranged[4].unwrap().target, Some(e(expected)));
        assert_eq!(ranged[4].unwrap().range, 5);
        assert_eq!(ranged[5].unwrap().target, None);
        assert_eq!(ranged[6].unwrap().target, None);
    }
}

#[test]
fn a_shield_slot_bow_is_not_wielded() {
    let equipped = vec![None, Some(Equipped { slot: EquipmentSlot::Shield, owner: e(0) })];
    let ranged = vec![None, bow(5, None)];
    assert_eq!(get_player_ranged_weapon_entity(&equipped, &ranged, e(0)), None);
}

#[test]
fn stale_targets_are_dropped() {
    let mut map = GameMap::filled(0, 30, 7, TileType::Floor);
    let wall = map.xy_idx(8, 5);
    map.tiles[wall] = TileType::Wall;
    // 0 player; 1 alive near; 2 dead; 3 far; 4 behind wall; 5 without position
    let alive = vec![true, true, false, true, true, true, true, true, true, true, true, true, true];
    let positions = vec![
        at(5, 5),
        at(7, 3),
        at(6, 5),
        at(16, 1),
        at(11, 5),
        None,
        None,
        None,
        None,
        None,
        None,
        None,
        None,
    ];
    let equipped = vec![
        None, None, None, None, None, None,
        held(0), held(0), held(0), held(0), held(0), None, held(0),
    ];
    let mut ranged = vec![
        None, None, None, None, None, None,
        bow(6, Some(1)),
        bow(6, Some(2)),
        bow(6, Some(3)),
        bow(6, Some(4)),
        bow(6, Some(5)),
        bow(6, Some(3)),
        bow(6, Some(99)),
    ];
    let mut magic: Vec<Option<MagicWeapon>> = (0..13).map(|_| None).collect();
    magic[6] = Some(MagicWeapon { range: 1, target: Some(e(1)) });
    magic[7] = Some(MagicWeapon { range: 3, target: Some(e(1)) });
    RangedCombatSystem {}.run(&map, &alive, &positions, &equipped, &mut ranged, &mut magic);
    assert_eq!(ranged[6].unwrap().target, Some(e(1)));
    assert_eq!(ranged[7].unwrap().target, None);
    assert_eq!(ranged[8].unwrap().target, None);
    assert_eq!(ranged[9].unwrap().target, None);
    assert_eq!(ranged[10].unwrap().target, None);
    // a weapon that no one wears keeps a living target wherever it is
    assert_eq!(ranged[11].unwrap().target, Some(e(3)));
    assert_eq!(ranged[12].unwrap().target, None);
    assert_eq!(magic[6].unwrap().target, None);
    assert_eq!(magic[7].unwrap().target, Some(e(1)));
    assert_eq!(ranged[6].unwrap().range, 6);
    assert!(is_stale(&map, &alive, &positions, held(0), 6, e(3)));
    assert!(!is_stale(&map, &alive, &positions, held(0), 15, e(3)));
    assert!(!is_stale(&map, &alive, &positions, None, 6, e(3)));
    assert!(is_stale(&map, &alive, &positions, None, 6, e(2)));
}

#[test]
fn magic_weapons_are_aimed_like_ranged_ones() {
    let map = GameMap::filled(0, 20, 5, TileType::Floor);
    let monsters = vec![false, true, true, false, false];
    let positions = vec![at(3, 2), at(6, 2), at(4, 1), None, None];
    let equipped = vec![None, None, None, held(0), None];
    let mut magic = vec![
        None,
        None,
        None,
        Some(MagicWeapon { range: 5, target: None }),
        Some(MagicWeapon { range: 5, target: None }),
    ];
    assert_eq!(get_player_magic_weapon_entity(&equipped, &magic, e(0)), Some(e(3)));
    assert_eq!(get_player_magic_weapon_entity(&equipped, &magic, e(1)), None);
    for expected in [2usize, 1, 2] {
        try_cycle_magic_targeting(&map, e(0), &equipped, &mut magic, &monsters, &positions);
        assert_eq!(magic[3], Some(MagicWeapon { range: 5, target: Some(e(expected)) }));
        assert_eq!(magic[4], Some(MagicWeapon { range: 5, target: None }));
    }
    assert_eq!(next_target(&map, &monsters, &positions, e(0), 1, Some(e(1))), Some(e(1)));
    assert_eq!(next_target(&map, &monsters, &positions, e(0), 2, Some(e(1))), Some(e(2)));
    assert_eq!(next_target(&map, &monsters, &positions, e(3), 9, Some(e(1))), Some(e(1)));
    assert_eq!(next_target(&map, &monsters, &positions, e(77), 9, None), None);
}

#[test]
fn the_player_aims_at_the_last_monster_in_range() {
    // 0 player; 1, 2, 4 monsters; 3 the bow; 5 a bow that somebody else holds; 6 a bow with a target
    let monsters = vec![false, true, true, false, true, false, false];
    let positions = vec![at(5, 5), at(7, 5), at(5, 8), None, at(5, 14), None, None];
    let equipped = vec![None, None, None, held(0), None, held(1), held(0)];
    let mut weapons = vec![None, None, None, bow(3, None), None, bow(9, None), bow(3, Some(1))];
    take_aim(e(0), &equipped, &mut weapons, &monsters, &positions);
    assert_eq!(weapons[3], bow(3, Some(2)));
    assert_eq!(weapons[5], bow(9, None));
    assert_eq!(weapons[6], bow(3, Some(1)));
    assert_eq!(last_in_range(&monsters, &positions, Position { x: 5, y: 5 }, 3), Some(e(2)));
    assert_eq!(last_in_range(&monsters, &positions, Position { x: 5, y: 5 }, 2), Some(e(1)));
    assert_eq!(last_in_range(&monsters, &positions, Position { x: 5, y: 5 }, 9), Some(e(4)));
    assert_eq!(last_in_range(&monsters, &positions, Position { x: 5, y: 5 }, 1), None);
    assert_eq!(last_in_range(&monsters, &positions, Position { x: 5, y: 5 }, -1), None);
}

#[test]
fn nothing_is_aimed_at_without_a_monster_in_range_or_a_place_to_stand() {
    let monsters = vec![false, true, false];
    let equipped = vec![None, None, held(0)];
    let mut weapons = vec![None, None, bow(3, None)];
    take_aim(e(0), &equipped, &mut weapons, &monsters, &vec![at(5, 5), at(9, 9), None]);
    assert_eq!(weapons[2], bow(3, None));
    take_aim(e(0), &equipped, &mut weapons, &monsters, &vec![None, at(5, 6), None]);
    assert_eq!(weapons[2], bow(3, None));
    let shield = vec![None, None, Some(Equipped { slot: EquipmentSlot::Shield, owner: e(0) })];
    take_aim(e(0), &shield, &mut weapons, &monsters, &vec![at(5, 5), at(5, 6), None]);
    assert_eq!(weapons[2], bow(3, None));
    take_aim(e(0), &equipped, &mut weapons, &monsters, &vec![at(5, 5), at(5, 6), None]);
    assert_eq!(weapons[2], bow(3, Some(1)));
}
