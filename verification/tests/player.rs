use terminalia::component::{
    Attack, AttackType, DamageType, DiceExpr, Entity, EquipmentSlot, Equipped, Item, MagicWeapon, Pool,
    RangedWeapon, Stats, WantsToConsumeItem, WantsToPickupItem,
};
use terminalia::geometry::Position;
use terminalia::inventory::Inventory;
use terminalia::logbook::Logbook;
use terminalia::map::{GameMap, TileType};
use terminalia::player::{
    allocate_attribute, level_up_input, try_consume_item, try_get_item, try_move_examine, try_move_player,
    try_magic_target, try_next_level, try_prev_level, try_ranged_target, LevelUpInput, ATTRIBUTES,
};
use terminalia::turn::RunState;

fn e(id: usize) -> Entity {
    Entity { id }
}

fn at(x: i32, y: i32) -> Option<Position> {
    Some(Position { x, y })
}

fn stats() -> Stats {
    Stats {
        hp: Pool { current: 10, max: 10 },
        mp: Pool { current: 0, max: 0 },
        exp: Pool { current: 0, max: 1000 },
        level: 1,
        strength: 1,
        dexterity: 2,
        constitution: 3,
        intelligence: 4,
        wisdom: 5,
        charisma: 6,
    }
}

#[test]
fn player_moves_onto_free_tiles() {
    let map = GameMap::filled(0, 6, 6, TileType::Floor);
    let all_stats = vec![Some(stats()), None];
    let mut positions = vec![at(2, 2), at(4, 4)];
    let mut attacks = vec![None, None];
    for (dx, dy, x, y) in [(1, 0, 3, 2), (0, 1, 3, 3), (-1, 0, 2, 3), (0, -1, 2, 2)] {
        let next = try_move_player(dx, dy, e(0), &map, &all_stats, &mut positions, &mut attacks);
        assert_eq!(next, Some(RunState::PlayerTurn));
        assert_eq!(positions[0], at(x, y));
    }
    assert_eq!(positions[1], at(4, 4));
    assert!(attacks.iter().all(|a| a.is_none()));
}

#[test]
fn player_does_not_leave_the_map_or_enter_blocked_tiles() {
    let mut map = GameMap::filled(0, 4, 4, TileType::Floor);
    let all_stats = vec![Some(stats())];
    let mut positions = vec![at(0, 0)];
    let mut attacks = vec![None];
    assert_eq!(try_move_player(-1, 0, e(0), &map, &all_stats, &mut positions, &mut attacks), Some(RunState::PlayerTurn));
    assert_eq!(positions[0], at(0, 0));
    try_move_player(0, -1, e(0), &map, &all_stats, &mut positions, &mut attacks);
    assert_eq!(positions[0], at(0, 0));
    positions[0] = at(3, 3);
    try_move_player(1, 0, e(0), &map, &all_stats, &mut positions, &mut attacks);
    try_move_player(0, 1, e(0), &map, &all_stats, &mut positions, &mut attacks);
    try_move_player(i32::MAX, i32::MAX, e(0), &map, &all_stats, &mut positions, &mut attacks);
    assert_eq!(positions[0], at(3, 3));
    let blocked = map.xy_idx(2, 3);
    map.blocked_tiles[blocked] = true;
    try_move_player(-1, 0, e(0), &map, &all_stats, &mut positions, &mut attacks);
    assert_eq!(positions[0], at(3, 3));
    assert!(attacks[0].is_none());
}

#[test]
fn player_strikes_the_first_creature_on_the_tile() {
    let mut map = GameMap::filled(0, 6, 6, TileType::Floor);
    let there = map.xy_idx(3, 2);
    map.tile_content[there] = vec![e(1), e(2), e(3)];
    map.blocked_tiles[there] = true;
    let all_stats = vec![Some(stats()), None, Some(stats()), Some(stats())];
    let mut positions = vec![at(2, 2), at(3, 2), at(3, 2), at(3, 2)];
    let mut attacks = vec![None, None, None, None];
    let next = try_move_player(1, 0, e(0), &map, &all_stats, &mut positions, &mut attacks);
    assert_eq!(next, Some(RunState::PlayerTurn));
    assert_eq!(positions[0], at(2, 2));
    assert_eq!(attacks[0], Some(Attack { attack_type: AttackType::Melee, target: e(2), spell: None }));
    assert!(attacks[1].is_none() && attacks[2].is_none());
}

#[test]
fn player_walks_over_things_without_stats() {
    let mut map = GameMap::filled(0, 6, 6, TileType::Floor);
    let there = map.xy_idx(3, 2);
    map.tile_content[there] = vec![e(1)];
    let all_stats = vec![Some(stats()), None];
    let mut positions = vec![at(2, 2), at(3, 2)];
    let mut attacks = vec![None, None];
    try_move_player(1, 0, e(0), &map, &all_stats, &mut positions, &mut attacks);
    assert_eq!(positions[0], at(3, 2));
    assert!(attacks[0].is_none());
}

#[test]
fn getting_picks_the_item_underfoot() {
    let items = vec![
        None,
        Some(Item { description: "a".to_string(), base_value: 1 }),
        Some(Item { description: "b".to_string(), base_value: 1 }),
        None,
        Some(Item { description: "c".to_string(), base_value: 1 }),
    ];
    let positions = vec![at(2, 2), at(2, 2), at(5, 5), at(2, 2), at(2, 2)];
    let mut wants = vec![None, None, None, None, None];
    let mut log = Logbook::new();
    let next = try_get_item(e(0), Position { x: 2, y: 2 }, &items, &positions, &mut wants, &mut log);
    assert_eq!(next, Some(RunState::PlayerTurn));
    assert_eq!(wants[0], Some(WantsToPickupItem { collected_by: e(0), item: e(4) }));
    assert_eq!(log.entries.len(), 0);
    let mut none = vec![None, None, None, None, None];
    let next = try_get_item(e(0), Position { x: 3, y: 3 }, &items, &positions, &mut none, &mut log);
    assert_eq!(next, Some(RunState::PlayerTurn));
    assert!(none.iter().all(|w| w.is_none()));
    assert_eq!(log.entries.len(), 1);
    assert_eq!(log.entries[0][0].text, "There is nothing here to pick up.");
}

#[test]
fn stairs_lead_on_only_from_the_right_staircase() {
    let mut map = GameMap::filled(0, 5, 5, TileType::Floor);
    let down = map.xy_idx(1, 1);
    let up = map.xy_idx(3, 3);
    map.tiles[down] = TileType::DownStairs;
    map.tiles[up] = TileType::UpStairs;
    assert_eq!(try_next_level(&map, Position { x: 1, y: 1 }), Some(RunState::Descending));
    assert_eq!(try_next_level(&map, Position { x: 3, y: 3 }), None);
    assert_eq!(try_next_level(&map, Position { x: 2, y: 2 }), None);
    assert_eq!(try_next_level(&map, Position { x: -1, y: 9 }), None);
    assert_eq!(try_prev_level(&map, Position { x: 3, y: 3 }), Some(RunState::Ascending));
    assert_eq!(try_prev_level(&map, Position { x: 1, y: 1 }), None);
    assert_eq!(try_prev_level(&map, Position { x: 7, y: 1 }), None);
}

#[test]
fn examining_cursor_stays_on_the_map() {
    let map = GameMap::filled(0, 5, 4, TileType::Wall);
    assert_eq!(try_move_examine(&map, 7, 1, 0), Some(RunState::Examining { index: 8 }));
    assert_eq!(try_move_examine(&map, 7, 0, 1), Some(RunState::Examining { index: 12 }));
    assert_eq!(try_move_examine(&map, 7, -1, -1), Some(RunState::Examining { index: 1 }));
    assert_eq!(try_move_examine(&map, 0, -1, 0), Some(RunState::Examining { index: 0 }));
    assert_eq!(try_move_examine(&map, 4, 1, 0), Some(RunState::Examining { index: 4 }));
    assert_eq!(try_move_examine(&map, 19, 0, 1), Some(RunState::Examining { index: 19 }));
    assert_eq!(try_move_examine(&map, 19, i32::MIN, i32::MAX), Some(RunState::Examining { index: 19 }));
}

fn bow(range: i32, target: Option<usize>) -> Option<RangedWeapon> {
    Some(RangedWeapon {
        damage: DiceExpr { dice_count: 1, dice_sides: 6, modifier: 0 },
        damage_type: DamageType::Physical,
        range,
        target: target.map(e),
    })
}

#[test]
fn firing_queues_a_ranged_attack_at_the_target() {
    let map = GameMap::filled(0, 30, 5, TileType::Floor);
    let alive = vec![true, true, true];
    let positions = vec![at(2, 2), at(8, 2), None];
    let equipped = vec![None, None, Some(Equipped { slot: EquipmentSlot::Weapon, owner: e(0) })];
    let ranged = vec![None, None, bow(8, Some(1))];
    let mut attacks = vec![None, None, None];
    let mut log = Logbook::new();
    let next = try_ranged_target(e(0), &map, &alive, &positions, &equipped, &ranged, &mut attacks, &mut log);
    assert_eq!(next, Some(RunState::PlayerTurn));
    assert_eq!(attacks[0], Some(Attack { attack_type: AttackType::Ranged, target: e(1), spell: None }));
    assert_eq!(log.entries.len(), 0);
}

#[test]
fn firing_at_a_target_out_of_range_does_nothing_but_say_so() {
    let map = GameMap::filled(0, 30, 5, TileType::Floor);
    let alive = vec![true, true, true];
    let positions = vec![at(2, 2), at(12, 2), None];
    let equipped = vec![None, None, Some(Equipped { slot: EquipmentSlot::Weapon, owner: e(0) })];
    let ranged = vec![None, None, bow(8, Some(1))];
    let mut attacks = vec![None, None, None];
    let mut log = Logbook::new();
    let next = try_ranged_target(e(0), &map, &alive, &positions, &equipped, &ranged, &mut attacks, &mut log);
    assert_eq!(next, None);
    assert!(attacks.iter().all(|a| a.is_none()));
    assert_eq!(log.entries.len(), 1);
    assert_eq!(log.entries[0][0].text, "Your target is out of range.");
}

#[test]
fn firing_without_weapon_or_target_does_nothing() {
    let map = GameMap::filled(0, 30, 5, TileType::Floor);
    let alive = vec![true, true, true];
    let positions = vec![at(2, 2), at(4, 2), None];
    let mut attacks = vec![None, None, None];
    let mut log = Logbook::new();
    let unarmed = vec![None, None, None];
    let none = vec![None, None, bow(8, Some(1))];
    assert_eq!(try_ranged_target(e(0), &map, &alive, &positions, &unarmed, &none, &mut attacks, &mut log), None);
    let equipped = vec![None, None, Some(Equipped { slot: EquipmentSlot::Weapon, owner: e(0) })];
    let aimless = vec![None, None, bow(8, None)];
    assert_eq!(try_ranged_target(e(0), &map, &alive, &positions, &equipped, &aimless, &mut attacks, &mut log), None);
    assert!(attacks.iter().all(|a| a.is_none()));
    assert_eq!(log.entries.len(), 0);
}

#[test]
fn a_level_is_spent_on_one_attribute() {
    assert_eq!(ATTRIBUTES, 6);
    let s = stats();
    assert_eq!(allocate_attribute(s, 0), Stats { strength: 2, ..s });
    assert_eq!(allocate_attribute(s, 1), Stats { dexterity: 3, ..s });
    assert_eq!(allocate_attribute(s, 2), Stats { constitution: 4, ..s });
    assert_eq!(allocate_attribute(s, 3), Stats { intelligence: 5, ..s });
    assert_eq!(allocate_attribute(s, 4), Stats { wisdom: 6, ..s });
    assert_eq!(allocate_attribute(s, 5), Stats { charisma: 7, ..s });
    let top = Stats { wisdom: i32::MAX, ..s };
    assert_eq!(allocate_attribute(top, 4), top);
}

#[test]
fn level_up_listing() {
    let mut all_stats = vec![None, Some(stats())];
    assert_eq!(level_up_input(&mut all_stats, e(1), 0, LevelUpInput::Up), None);
    assert_eq!(level_up_input(&mut all_stats, e(1), 3, LevelUpInput::Up), Some(RunState::LevelUp { index: 2 }));
    assert_eq!(level_up_input(&mut all_stats, e(1), 3, LevelUpInput::Down), Some(RunState::LevelUp { index: 4 }));
    assert_eq!(level_up_input(&mut all_stats, e(1), 5, LevelUpInput::Down), None);
    assert_eq!(all_stats[1], Some(stats()));
    assert_eq!(level_up_input(&mut all_stats, e(1), 2, LevelUpInput::Confirm), Some(RunState::AwaitingInput));
    assert_eq!(all_stats[1], Some(Stats { constitution: 4, ..stats() }));
    assert_eq!(level_up_input(&mut all_stats, e(0), 2, LevelUpInput::Confirm), Some(RunState::AwaitingInput));
    assert_eq!(level_up_input(&mut all_stats, e(9), 2, LevelUpInput::Confirm), Some(RunState::AwaitingInput));
    assert_eq!(all_stats[0], None);
}

#[test]
fn using_takes_the_first_item_of_the_selected_stack() {
    let mut inventory = Inventory::new();
    inventory.add("potion", e(4));
    inventory.add("scroll", e(2));
    inventory.add("scroll", e(3));
    inventory.index = 1;
    let inventories = vec![Some(inventory), None];
    let mut wants = vec![None, None];
    assert!(try_consume_item(e(0), &inventories, &mut wants));
    assert_eq!(wants[0], Some(WantsToConsumeItem { item: e(2) }));
    let mut other = vec![None, None];
    assert!(try_consume_item(e(1), &inventories, &mut other));
    assert!(try_consume_item(e(7), &inventories, &mut other));
    assert!(other.iter().all(|w| w.is_none()));
    let mut beyond = Inventory::new();
    beyond.add("potion", e(4));
    beyond.index = 1;
    let mut none = vec![None];
    assert!(try_consume_item(e(0), &vec![Some(beyond)], &mut none));
    assert!(none[0].is_none());
}

#[test]
fn casting_queues_a_magic_attack_with_the_spell() {
    let map = GameMap::filled(0, 30, 5, TileType::Floor);
    let alive = vec![true, true, true];
    let equipped = vec![None, None, Some(Equipped { slot: EquipmentSlot::Weapon, owner: e(0) })];
    let wand = vec![None, None, Some(MagicWeapon { range: 6, target: Some(e(1)) })];
    let mut attacks = vec![None, None, None];
    let mut log = Logbook::new();
    let near = vec![at(2, 2), at(7, 2), None];
    let next = try_magic_target(e(0), 3, &map, &alive, &near, &equipped, &wand, &mut attacks, &mut log);
    assert_eq!(next, Some(RunState::PlayerTurn));
    assert_eq!(attacks[0], Some(Attack { attack_type: AttackType::Magic, target: e(1), spell: Some(3) }));
    let mut none = vec![None, None, None];
    let far = vec![at(2, 2), at(9, 2), None];
    let next = try_magic_target(e(0), 3, &map, &alive, &far, &equipped, &wand, &mut none, &mut log);
    assert_eq!(next, None);
    assert!(none.iter().all(|a| a.is_none()));
    assert_eq!(log.entries.len(), 1);
    let unarmed = vec![None, None, None];
    assert_eq!(try_magic_target(e(0), 0, &map, &alive, &near, &unarmed, &wand, &mut none, &mut log), None);
    assert_eq!(log.entries.len(), 1);
}
