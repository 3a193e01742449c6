use terminalia::component::{sum, clamp, Damage, Entity, Experience, Name, Pool, Stats};
use terminalia::geometry::Position;
use terminalia::logbook::Logbook;
use terminalia::map::{GameMap, TileType};
use terminalia::system::damage_system::{cleanup_dead_entities, is_game_over, DamageSystem, EXPERIENCE_PER_LEVEL};
use terminalia::world::World;

fn stats(hp: i32, level: i32) -> Stats {
    Stats {
        hp: Pool { current: hp, max: 30 },
        mp: Pool { current: 0, max: 0 },
        exp: Pool { current: 0, max: 1000 },
        level,
        strength: 10,
        dexterity: 10,
        constitution: 10,
        intelligence: 10,
        wisdom: 10,
        charisma: 10,
    }
}

fn hurt(amounts: Vec<i32>, attacker: Option<usize>) -> Option<Damage> {
    Some(Damage { amount: amounts, attacker: attacker.map(|id| Entity { id }) })
}

#[test]
fn sums_and_clamps() {
    assert_eq!(sum(&vec![]), 0);
    assert_eq!(sum(&vec![1, 2, 3]), 6);
    assert_eq!(sum(&vec![i32::MAX, i32::MAX, 2]), 4294967296);
    assert_eq!(sum(&vec![i32::MIN, -1]), -2147483649);
    assert_eq!(clamp(5), 5);
    assert_eq!(clamp(2147483648), i32::MAX);
    assert_eq!(clamp(-2147483649), i32::MIN);
}

#[test]
fn damage_is_taken_from_health_and_cleared() {
    let mut map = GameMap::filled(0, 5, 5, TileType::Floor);
    let mut all_stats = vec![Some(stats(20, 1)), Some(stats(10, 2)), None, Some(stats(8, 1))];
    let mut damages = vec![hurt(vec![3, 4], Some(1)), None, hurt(vec![9], None), hurt(vec![], Some(0))];
    let positions = vec![Some(Position { x: 1, y: 1 }), Some(Position { x: 2, y: 2 }), Some(Position { x: 3, y: 3 }), None];
    let mut experiences: Vec<Option<Experience>> = vec![None, None, None, None];
    DamageSystem {}.run(&mut all_stats, &mut damages, &positions, &mut experiences, &mut map);
    assert_eq!(all_stats[0].unwrap().hp.current, 13);
    assert_eq!(all_stats[0].unwrap().hp.max, 30);
    assert_eq!(all_stats[1].unwrap().hp.current, 10);
    assert!(all_stats[2].is_none());
    assert_eq!(all_stats[3].unwrap().hp.current, 8);
    assert!(damages.iter().all(|d| d.is_none()));
    assert!(experiences.iter().all(|x| x.is_none()));
    // the ground is stained where someone with stats and a position was hurt
    let stained: Vec<usize> = (0..25).filter(|t| map.bloodstains.contains(t)).collect();
    assert_eq!(stained, vec![6]);
}

#[test]
fn melee_kill_awards_experience_by_level() {
    assert_eq!(EXPERIENCE_PER_LEVEL, 100);
    let mut map = GameMap::filled(0, 5, 5, TileType::Floor);
    let mut all_stats = vec![Some(stats(20, 1)), Some(Stats { hp: Pool { current: 5, max: 5 }, ..stats(5, 3) })];
    let mut damages = vec![None, hurt(vec![7], Some(0))];
    let positions = vec![Some(Position { x: 1, y: 1 }), Some(Position { x: 2, y: 1 })];
    let mut experiences: Vec<Option<Experience>> = vec![None, None];
    DamageSystem {}.run(&mut all_stats, &mut damages, &positions, &mut experiences, &mut map);
    assert_eq!(all_stats[1].unwrap().hp.current, -2);
    assert_eq!(experiences[0].as_ref().unwrap().amount, vec![300]);
    assert!(experiences[1].is_none());
    assert!(map.bloodstains.contains(&map.xy_idx(2, 1)));
}

#[test]
fn kill_at_exactly_zero_health_counts_and_no_attacker_means_no_award() {
    let mut map = GameMap::filled(0, 3, 3, TileType::Floor);
    let mut all_stats = vec![Some(stats(20, 1)), Some(stats(6, 2)), Some(stats(4, 5)), Some(stats(9, 7))];
    let mut damages = vec![None, hurt(vec![2, 4], Some(0)), hurt(vec![50], None), hurt(vec![8], Some(0))];
    let positions = vec![None, None, None, None];
    let mut experiences = vec![Some(Experience { amount: vec![5] }), None, None, None];
    DamageSystem {}.run(&mut all_stats, &mut damages, &positions, &mut experiences, &mut map);
    assert_eq!(all_stats[1].unwrap().hp.current, 0);
    assert_eq!(all_stats[2].unwrap().hp.current, -46);
    assert_eq!(all_stats[3].unwrap().hp.current, 1);
    assert_eq!(experiences[0].as_ref().unwrap().amount, vec![5, 200]);
    assert!(map.bloodstains.is_empty());
}

#[test]
fn bloodstains_are_never_cleared() {
    let mut map = GameMap::filled(0, 3, 3, TileType::Floor);
    map.bloodstains.insert(8);
    let mut all_stats = vec![Some(stats(20, 1))];
    let mut damages = vec![hurt(vec![1], None)];
    let positions = vec![Some(Position { x: 0, y: 1 })];
    let mut experiences: Vec<Option<Experience>> = vec![None];
    DamageSystem {}.run(&mut all_stats, &mut damages, &positions, &mut experiences, &mut map);
    assert!(map.bloodstains.contains(&8));
    assert!(map.bloodstains.contains(&3));
    assert_eq!(map.bloodstains.len(), 2);
}

#[test]
fn health_is_held_to_what_a_number_carries() {
    let mut map = GameMap::filled(0, 3, 3, TileType::Floor);
    let mut all_stats = vec![Some(stats(i32::MIN + 5, 1)), Some(stats(i32::MAX - 1, i32::MAX))];
    let mut damages = vec![hurt(vec![i32::MAX, i32::MAX], None), hurt(vec![-50], Some(0))];
    let positions = vec![None, None];
    let mut experiences: Vec<Option<Experience>> = vec![None, None];
    DamageSystem {}.run(&mut all_stats, &mut damages, &positions, &mut experiences, &mut map);
    assert_eq!(all_stats[0].unwrap().hp.current, i32::MIN);
    assert_eq!(all_stats[1].unwrap().hp.current, i32::MAX);
}

fn populated() -> World {
    let mut world = World::new();
    for _ in 0..5 {
        world.create_entity();
    }
    world
}

#[test]
fn the_dead_are_removed_and_the_player_is_reported() {
    let mut world = populated();
    world.names[0] = Some(Name { name: "player".to_string() });
    world.players[0] = true;
    world.player = Some(Entity { id: 0 });
    world.stats[0] = Some(stats(0, 1));
    world.names[1] = Some(Name { name: "rat".to_string() });
    world.monsters[1] = true;
    world.stats[1] = Some(stats(-2, 1));
    world.positions[1] = Some(Position { x: 3, y: 3 });
    world.names[2] = Some(Name { name: "snake".to_string() });
    world.monsters[2] = true;
    world.stats[2] = Some(stats(1, 1));
    world.stats[3] = Some(stats(-5, 1));
    world.names[4] = Some(Name { name: "barrel".to_string() });
    world.stats[4] = Some(stats(0, 1));
    let mut log = Logbook::new();
    assert!(is_game_over(&world));
    let dead = cleanup_dead_entities(&mut world, &mut log);
    // the one without a name goes too, though nothing is said of it
    assert_eq!(dead, vec![Entity { id: 1 }, Entity { id: 3 }, Entity { id: 4 }]);
    assert!(world.is_alive(Entity { id: 0 }));
    assert!(!world.is_alive(Entity { id: 1 }));
    assert!(world.is_alive(Entity { id: 2 }));
    assert!(!world.is_alive(Entity { id: 3 }));
    assert!(!world.is_alive(Entity { id: 4 }));
    assert!(world.stats[1].is_none() && world.names[1].is_none() && world.positions[1].is_none());
    assert!(!world.monsters[1]);
    assert!(world.stats[3].is_none());
    assert_eq!(world.stats[0].unwrap().hp.current, 0);
    assert!(is_game_over(&world));
    let lines: Vec<String> =
        log.entries.iter().map(|l| l.iter().map(|f| f.text.clone()).collect::<String>()).collect();
    assert_eq!(lines, vec!["player has died.", "rat has died.", "barrel has died."]);
    assert_eq!(world.len(), 5);
}

#[test]
fn game_goes_on_while_the_player_lives() {
    let mut world = populated();
    world.players[0] = true;
    world.stats[0] = Some(stats(1, 1));
    world.stats[1] = Some(stats(-3, 1));
    assert!(!is_game_over(&world));
    world.stats[0] = Some(stats(0, 1));
    assert!(is_game_over(&world));
    world.stats[0] = None;
    assert!(!is_game_over(&world));
    assert!(!is_game_over(&World::new()));
}
