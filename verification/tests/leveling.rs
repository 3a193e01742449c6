use terminalia::component::{Entity, Experience, Name, Pool, Stats};
use terminalia::logbook::Logbook;
use terminalia::system::experience_system::{
    experienced, next_threshold, pool_gain, ExperienceSystem, EXPERIENCE_PER_THRESHOLD,
};

fn stats(exp: i32, threshold: i32, level: i32) -> Stats {
    Stats {
        hp: Pool { current: 7, max: 20 },
        mp: Pool { current: 1, max: 5 },
        exp: Pool { current: exp, max: threshold },
        level,
        strength: 10,
        dexterity: 10,
        constitution: 14,
        intelligence: 8,
        wisdom: 10,
        charisma: 10,
    }
}

#[test]
fn pool_gain_is_the_modifier_and_at_least_one() {
    assert_eq!(pool_gain(14), 2);
    assert_eq!(pool_gain(20), 5);
    assert_eq!(pool_gain(12), 1);
    assert_eq!(pool_gain(10), 1);
    assert_eq!(pool_gain(1), 1);
    assert_eq!(pool_gain(-40), 1);
}

#[test]
fn experience_below_the_threshold_only_accumulates() {
    let after = experienced(stats(100, 1000, 1), 250);
    assert_eq!(after.exp, Pool { current: 350, max: 1000 });
    assert_eq!(after.level, 1);
    assert_eq!(after.hp, Pool { current: 7, max: 20 });
    assert_eq!(after.mp, Pool { current: 1, max: 5 });
}

#[test]
fn level_up_carries_the_remainder_over() {
    assert_eq!(EXPERIENCE_PER_THRESHOLD, 1000);
    let after = experienced(stats(900, 1000, 1), 350);
    assert_eq!(after.level, 2);
    assert_eq!(after.exp.current, 250);
    assert_eq!(after.exp.max, 2000);
    assert_eq!(after.hp, Pool { current: 22, max: 22 });
    assert_eq!(after.mp, Pool { current: 6, max: 6 });
    assert_eq!(after.strength, 10);
    assert_eq!(after.constitution, 14);
}

#[test]
fn reaching_the_threshold_exactly_levels_up_with_nothing_carried() {
    let after = experienced(stats(400, 1000, 4), 600);
    assert_eq!(after.level, 5);
    assert_eq!(after.exp, Pool { current: 0, max: 5000 });
}

#[test]
fn carried_experience_is_never_negative() {
    for (exp, threshold, gained) in [
        (0, 1000, 1000i128),
        (999, 1000, 1),
        (0, 0, 0),
        (5, -10, 0),
        (i32::MAX, 1000, i32::MAX as i128),
        (-20, -30, 5),
        (0, i32::MIN, 0),
        (0, 100, 5000),
    ] {
        let before = stats(exp, threshold, 1);
        let after = experienced(before, gained);
        assert_eq!(after.level, 2, "case {:?}", (exp, threshold, gained));
        assert!(after.exp.current >= 0);
        let total = (exp as i128 + gained).min(i32::MAX as i128);
        let carried = (total - threshold as i128).min(i32::MAX as i128);
        assert_eq!(after.exp.current as i128, carried);
    }
}

#[test]
fn only_one_level_is_gained_per_pass() {
    let after = experienced(stats(0, 1000, 1), 5000);
    assert_eq!(after.level, 2);
    assert_eq!(after.exp, Pool { current: 4000, max: 2000 });
}

#[test]
fn the_threshold_rises_with_every_level() {
    // a threshold above what the new level alone would give is raised all the same
    let after = experienced(stats(0, 5000, 1), 5000);
    assert_eq!(after.level, 2);
    assert_eq!(after.exp, Pool { current: 0, max: 6000 });
    assert_eq!(next_threshold(5000, 2), 6000);
    assert_eq!(next_threshold(1000, 2), 2000);
    assert_eq!(next_threshold(1000, 7), 7000);
    assert_eq!(next_threshold(-500, -3), 500);
    assert_eq!(next_threshold(i32::MAX - 10, 2), i32::MAX);
    assert_eq!(next_threshold(i32::MAX, 2), i32::MAX);
    assert_eq!(next_threshold(0, i32::MAX), i32::MAX);
    for (threshold, level) in [(0, 0), (1000, 1), (999, 1), (123456, 3), (-7, 100), (i32::MIN, i32::MIN)] {
        assert!(next_threshold(threshold, level) > threshold);
    }
}

#[test]
fn system_applies_and_clears_the_queue() {
    let names = vec![
        Some(Name { name: "hero".to_string() }),
        Some(Name { name: "rat".to_string() }),
        None,
        Some(Name { name: "idle".to_string() }),
    ];
    let mut all_stats =
        vec![Some(stats(950, 1000, 1)), Some(stats(0, 1000, 1)), Some(stats(0, 10, 1)), Some(stats(3, 1000, 2))];
    let mut experiences = vec![
        Some(Experience { amount: vec![100, 200] }),
        Some(Experience { amount: vec![10] }),
        Some(Experience { amount: vec![500] }),
        None,
    ];
    let mut log = Logbook::new();
    let promoted = ExperienceSystem {}.run(&names, &mut all_stats, &mut experiences, &mut log);
    assert_eq!(promoted, vec![Entity { id: 0 }, Entity { id: 2 }]);
    assert_eq!(all_stats[0].unwrap().level, 2);
    assert_eq!(all_stats[0].unwrap().exp, Pool { current: 250, max: 2000 });
    assert_eq!(all_stats[1].unwrap().exp, Pool { current: 10, max: 1000 });
    // what has no name learns too, though nothing is said of it
    assert_eq!(all_stats[2].unwrap().level, 2);
    assert_eq!(all_stats[2].unwrap().exp, Pool { current: 490, max: 2000 });
    assert_eq!(all_stats[3].unwrap().exp, Pool { current: 3, max: 1000 });
    assert!(experiences.iter().all(|x| x.is_none()));
    assert_eq!(log.entries.len(), 1);
    let text: String = log.entries[0].iter().map(|f| f.text.clone()).collect();
    assert_eq!(text, "hero has increased in experience to Level 2!");
}
