use terminalia::component::{Damage, Entity, Lifetime, Name, Pool, Stats, Triggerable};
use terminalia::geometry::Position;
use terminalia::logbook::Logbook;
use terminalia::map::{GameMap, TileType};
use terminalia::system::particle_system::ParticleSystem;
use terminalia::system::trigger_system::TriggerSystem;

fn life(created_at: u128, lifetime_ms: u128) -> Option<Lifetime> {
    Some(Lifetime { created_at, lifetime_ms })
}

#[test]
fn particles_expire_once_their_time_is_over() {
    let lifetimes = vec![life(1000, 200), None, life(1100, 200), life(1000, 0), life(5000, 10), life(0, 1200)];
    let system = ParticleSystem {};
    assert_eq!(system.run(&lifetimes, 1000), Vec::<Entity>::new());
    assert_eq!(system.run(&lifetimes, 1001), vec![Entity { id: 3 }]);
    assert_eq!(system.run(&lifetimes, 1200), vec![Entity { id: 3 }]);
    assert_eq!(system.run(&lifetimes, 1201), vec![Entity { id: 0 }, Entity { id: 3 }, Entity { id: 5 }]);
    assert_eq!(
        system.run(&lifetimes, 1301),
        vec![Entity { id: 0 }, Entity { id: 2 }, Entity { id: 3 }, Entity { id: 5 }]
    );
    assert_eq!(system.run(&lifetimes, 0), Vec::<Entity>::new());
    assert_eq!(system.run(&lifetimes, u128::MAX).len(), 5);
    assert_eq!(system.run(&vec![life(u128::MAX, u128::MAX)], 5), Vec::<Entity>::new());
}

fn stats() -> Option<Stats> {
    Some(Stats {
        hp: Pool { current: 10, max: 10 },
        mp: Pool { current: 0, max: 0 },
        exp: Pool { current: 0, max: 1000 },
        level: 1,
        strength: 10,
        dexterity: 10,
        constitution: 10,
        intelligence: 10,
        wisdom: 10,
        charisma: 10,
    })
}

fn named(text: &str) -> Option<Name> {
    Some(Name { name: text.to_string() })
}

#[test]
fn a_trap_goes_off_under_whoever_stands_on_it() {
    let mut map = GameMap::filled(0, 6, 6, TileType::Floor);
    let here = map.xy_idx(2, 2);
    let there = map.xy_idx(4, 4);
    map.tile_content[here] = vec![Entity { id: 0 }, Entity { id: 2 }, Entity { id: 3 }];
    map.tile_content[there] = vec![Entity { id: 1 }, Entity { id: 4 }];
    let positions = vec![
        Some(Position { x: 2, y: 2 }),
        Some(Position { x: 4, y: 4 }),
        Some(Position { x: 2, y: 2 }),
        Some(Position { x: 2, y: 2 }),
        Some(Position { x: 4, y: 4 }),
    ];
    let names = vec![named("hero"), named("rat"), named("bear trap"), named("spikes"), named("rock")];
    let all_stats = vec![stats(), stats(), None, None, None];
    let triggerables =
        vec![None, None, Some(Triggerable { damage: 6 }), Some(Triggerable { damage: 2 }), None];
    let mut hidden = vec![false, false, true, false, true];
    let mut damages: Vec<Option<Damage>> =
        vec![Some(Damage { amount: vec![1], attacker: Some(Entity { id: 1 }) }), None, None, None, None];
    let mut log = Logbook::new();
    let outcome = TriggerSystem {}.run(
        &map,
        &positions,
        &names,
        &all_stats,
        &triggerables,
        &mut hidden,
        &mut damages,
        &mut log,
    );
    assert_eq!(damages[0].as_ref().unwrap().amount, vec![1, 6, 2]);
    assert_eq!(damages[0].as_ref().unwrap().attacker, Some(Entity { id: 1 }));
    assert!(damages[1].is_none());
    assert_eq!(hidden, vec![false, false, false, false, true]);
    assert_eq!(outcome.removed, vec![Entity { id: 2 }, Entity { id: 3 }]);
    assert_eq!(outcome.particles, vec![Position { x: 2, y: 2 }, Position { x: 2, y: 2 }]);
    let lines: Vec<String> =
        log.entries.iter().map(|l| l.iter().map(|f| f.text.clone()).collect::<String>()).collect();
    assert_eq!(
        lines,
        vec!["hero triggered bear trap, dealing 6 damage!", "hero triggered spikes, dealing 2 damage!"]
    );
}

#[test]
fn a_trap_names_no_attacker() {
    let mut map = GameMap::filled(0, 3, 3, TileType::Floor);
    map.tile_content[4] = vec![Entity { id: 1 }, Entity { id: 0 }];
    let positions = vec![Some(Position { x: 1, y: 1 }), Some(Position { x: 1, y: 1 })];
    let names = vec![named("hero"), named("dart")];
    let all_stats = vec![stats(), None];
    let triggerables = vec![None, Some(Triggerable { damage: 3 })];
    let mut hidden = vec![false, true];
    let mut damages: Vec<Option<Damage>> = vec![None, None];
    let mut log = Logbook::new();
    let outcome = TriggerSystem {}.run(
        &map,
        &positions,
        &names,
        &all_stats,
        &triggerables,
        &mut hidden,
        &mut damages,
        &mut log,
    );
    assert_eq!(damages[0].as_ref().unwrap().amount, vec![3]);
    assert_eq!(damages[0].as_ref().unwrap().attacker, None);
    assert_eq!(outcome.removed, vec![Entity { id: 1 }]);
    assert!(!hidden[1]);
}

#[test]
fn nothing_goes_off_where_no_creature_stands() {
    let mut map = GameMap::filled(0, 3, 3, TileType::Floor);
    map.tile_content[4] = vec![Entity { id: 0 }];
    map.tile_content[5] = vec![Entity { id: 1 }];
    let positions = vec![Some(Position { x: 1, y: 1 }), Some(Position { x: 2, y: 1 })];
    let names = vec![named("dart"), named("hero")];
    let all_stats = vec![None, stats()];
    let triggerables = vec![Some(Triggerable { damage: 3 }), None];
    let mut hidden = vec![true, false];
    let mut damages: Vec<Option<Damage>> = vec![None, None];
    let mut log = Logbook::new();
    let outcome = TriggerSystem {}.run(
        &map,
        &positions,
        &names,
        &all_stats,
        &triggerables,
        &mut hidden,
        &mut damages,
        &mut log,
    );
    assert!(outcome.removed.is_empty() && outcome.particles.is_empty());
    assert!(damages.iter().all(|d| d.is_none()));
    assert!(hidden[0]);
    assert_eq!(log.entries.len(), 0);
}
