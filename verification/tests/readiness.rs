use terminalia::component::{
    Attack, AttackType, Damage, DamageType, DiceExpr, Entity, MeleeWeapon, Name, RangedWeapon, Spell, Spellbook,
    Triggerable, Viewshed, WantsToConsumeItem, WantsToPickupItem,
};
use terminalia::geometry::Position;
use terminalia::inventory::Inventory;
use terminalia::map::{GameMap, TileType};
use terminalia::readiness::{content_listed, named, ready, row_ready, spells_valid, tables_fit};
use terminalia::sight::MAX_VIEW_RANGE;
use terminalia::spawn::spawn_player;
use terminalia::world::World;

fn sound() -> (World, GameMap) {
    let map = GameMap::filled(0, 10, 6, TileType::Floor);
    let mut world = World::new();
    spawn_player(&mut world, 2, 2);
    for _ in 0..3 {
        world.create_entity();
    }
    world.names[1] = Some(Name { name: "rat".to_string() });
    (world, map)
}

fn broken(spoil: impl Fn(&mut World, &mut GameMap)) -> bool {
    let (mut world, mut map) = sound();
    spoil(&mut world, &mut map);
    !ready(&world, &map)
}

fn dice(dice_count: i32, dice_sides: i32) -> DiceExpr {
    DiceExpr { dice_count, dice_sides, modifier: 0 }
}

#[test]
fn a_fresh_world_is_ready() {
    let (world, map) = sound();
    assert!(ready(&world, &map));
    assert!(tables_fit(&world));
    assert!(map.is_wf());
    assert!(content_listed(&map, world.len()));
    for e in 0..world.len() {
        assert!(row_ready(&world, &map, e));
    }
    assert!(named(&world, 0) && named(&world, 1));
    assert!(!named(&world, 2) && !named(&world, 99));
}

#[test]
fn what_a_tick_takes_for_granted_is_tested() {
    assert!(broken(|w, _| w.player = None));
    assert!(broken(|w, _| w.player = Some(Entity { id: 17 })));
    assert!(broken(|w, _| w.names[0] = None));
    assert!(broken(|w, _| w.stats[0] = None));
    assert!(broken(|w, _| w.positions[2] = Some(Position { x: 10, y: 0 })));
    assert!(broken(|w, _| w.positions[2] = Some(Position { x: 0, y: -1 })));
    assert!(broken(|w, _| w.viewsheds[2] = Some(Viewshed { visible_tiles: Vec::new(), range: MAX_VIEW_RANGE + 1 })));
    assert!(broken(|w, _| w.hidden[2] = true));
    assert!(broken(|w, _| w.triggerables[3] = Some(Triggerable { damage: 3 })));
    assert!(broken(|w, _| w.wants_pickup[0] = Some(WantsToPickupItem { collected_by: Entity { id: 0 }, item: Entity { id: 2 } })));
    assert!(broken(|w, _| w.wants_consume[0] = Some(WantsToConsumeItem { item: Entity { id: 40 } })));
    assert!(broken(|w, _| w.attacks[1] = Some(Attack { attack_type: AttackType::Melee, target: Entity { id: 1 }, spell: None })));
    assert!(broken(|w, _| w.attacks[1] = Some(Attack { attack_type: AttackType::Melee, target: Entity { id: 9 }, spell: None })));
    assert!(broken(|w, _| w.melee_weapons[2] = Some(MeleeWeapon { damage: dice(1, 0), damage_type: DamageType::Physical })));
    assert!(broken(|w, _| {
        w.ranged_weapons[2] =
            Some(RangedWeapon { damage: dice(2, i32::MAX), damage_type: DamageType::Physical, range: 3, target: None })
    }));
    assert!(broken(|w, _| {
        w.spellbooks[0] = Some(Spellbook {
            spells: vec![Spell {
                mana_cost: 1,
                damage: dice(70000, 70000),
                damage_type: DamageType::Physical,
                range: 4,
            }],
        })
    }));
    assert!(broken(|w, _| w.damages[1] = Some(Damage { amount: vec![1], attacker: Some(Entity { id: 4 }) })));
    assert!(broken(|w, _| {
        w.stats.pop();
    }));
    assert!(broken(|_, m| {
        m.revealed_tiles.pop();
    }));
    assert!(broken(|_, m| m.width = 0));
    assert!(broken(|_, m| m.player_spawn_index = Some(60)));
    assert!(broken(|_, m| m.tile_content[7].push(Entity { id: 4 })));
}

#[test]
fn what_a_tick_allows_is_let_through() {
    let (mut world, mut map) = sound();
    world.positions[2] = Some(Position { x: 9, y: 5 });
    world.viewsheds[2] = Some(Viewshed { visible_tiles: Vec::new(), range: -MAX_VIEW_RANGE });
    world.hidden[1] = true;
    world.triggerables[1] = Some(Triggerable { damage: 3 });
    world.wants_pickup[0] = Some(WantsToPickupItem { collected_by: Entity { id: 0 }, item: Entity { id: 1 } });
    world.wants_consume[0] = Some(WantsToConsumeItem { item: Entity { id: 1 } });
    world.attacks[1] = Some(Attack { attack_type: AttackType::Melee, target: Entity { id: 0 }, spell: None });
    world.melee_weapons[2] = Some(MeleeWeapon { damage: dice(0, 0), damage_type: DamageType::Physical });
    world.damages[1] = Some(Damage { amount: vec![1], attacker: Some(Entity { id: 3 }) });
    world.damages[2] = Some(Damage { amount: vec![1], attacker: None });
    let mut pack = Inventory::new();
    pack.add("apple", Entity { id: 2 });
    pack.add("apple", Entity { id: 3 });
    world.inventories[0] = Some(pack);
    map.tile_content[7].push(Entity { id: 3 });
    map.player_spawn_index = Some(59);
    assert!(ready(&world, &map));
}

#[test]
fn spells_are_valid_if_each_can_be_rolled() {
    let spell = |d: DiceExpr| Spell {
        mana_cost: 1,
        damage: d,
        damage_type: DamageType::Physical,
        range: 4,
    };
    assert!(spells_valid(&vec![]));
    assert!(spells_valid(&vec![spell(dice(1, 6)), spell(dice(2, 8))]));
    assert!(!spells_valid(&vec![spell(dice(1, 6)), spell(dice(2, 0))]));
}
