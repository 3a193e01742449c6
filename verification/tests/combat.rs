use terminalia::combat::{attribute_modifier, resolve_damage};
use terminalia::component::{
    Armor, Attack, AttackType, Damage, DamageType, DiceExpr, Entity, EquipmentSlot, Equipped, Experience,
    MeleeWeapon, Name, Pool, RangedWeapon, Spell, Spellbook, Stats,
};
use terminalia::geometry::Position;
use terminalia::logbook::Logbook;
use terminalia::system::melee_combat_system::{armor_defense_of, land_blow, MeleeCombatSystem};

fn stats(hp: i32, mp: i32, strength: i32, dexterity: i32) -> Stats {
    Stats {
        hp: Pool { current: hp, max: hp },
        mp: Pool { current: mp, max: 10 },
        exp: Pool { current: 0, max: 1000 },
        level: 1,
        strength,
        dexterity,
        constitution: 10,
        intelligence: 10,
        wisdom: 10,
        charisma: 10,
    }
}

fn name(text: &str) -> Option<Name> {
    Some(Name { name: text.to_string() })
}

fn line(log: &Logbook, index: usize) -> String {
    log.entries[index].iter().map(|f| f.text.clone()).collect::<Vec<String>>().join("")
}

#[test]
fn attribute_modifier_rounds_towards_zero() {
    assert_eq!(attribute_modifier(10), 0);
    assert_eq!(attribute_modifier(11), 0);
    assert_eq!(attribute_modifier(12), 1);
    assert_eq!(attribute_modifier(14), 2);
    assert_eq!(attribute_modifier(9), 0);
    assert_eq!(attribute_modifier(8), -1);
    assert_eq!(attribute_modifier(7), -1);
    assert_eq!(attribute_modifier(1), -4);
    assert_eq!(attribute_modifier(i32::MIN), -1073741829);
    assert_eq!(attribute_modifier(i32::MAX), 1073741818);
}

#[test]
fn melee_blow_of_strong_attacker() {
    assert_eq!(resolve_damage(14, 5, 10, 0), 7);
}

#[test]
fn damage_is_never_negative() {
    for strength in [-50, 0, 1, 9, 10, 11, 30] {
        for roll in [-20, 0, 1, 7, 100] {
            for dexterity in [-50, 0, 10, 18, 40] {
                for armor in [-5, 0, 3, 50] {
                    assert!(resolve_damage(strength, roll, dexterity, armor) >= 0);
                }
            }
        }
    }
    assert_eq!(resolve_damage(10, 3, 10, 5), 0);
    assert_eq!(resolve_damage(10, 3, 30, 0), 0);
    assert_eq!(resolve_damage(10, -3, 10, 0), 0);
    assert_eq!(resolve_damage(1, 10, 1, 0), 6);
    assert_eq!(resolve_damage(i32::MAX, i32::MAX, i32::MIN, i32::MIN), i32::MAX);
}

#[test]
fn raw_defense_is_floored_before_it_is_taken_off() {
    // A clumsy defender in no armour has a raw defence of zero, not below.
    assert_eq!(resolve_damage(10, 4, 1, 0), 4);
    assert_eq!(resolve_damage(10, 4, 1, 2), 4);
    assert_eq!(resolve_damage(10, 4, 1, 6), 2);
}

#[test]
fn armor_of_the_last_piece_counts() {
    let wearer = Entity { id: 0 };
    let other = Entity { id: 1 };
    let equipped = vec![
        None,
        None,
        Some(Equipped { slot: EquipmentSlot::Chest, owner: wearer }),
        Some(Equipped { slot: EquipmentSlot::Head, owner: other }),
        Some(Equipped { slot: EquipmentSlot::Head, owner: wearer }),
        None,
    ];
    let armors = vec![
        None,
        None,
        Some(Armor { defense: 3 }),
        Some(Armor { defense: 9 }),
        Some(Armor { defense: 1 }),
        Some(Armor { defense: 7 }),
    ];
    assert_eq!(armor_defense_of(wearer, &equipped, &armors), 1);
    assert_eq!(armor_defense_of(other, &equipped, &armors), 9);
    assert_eq!(armor_defense_of(Entity { id: 5 }, &equipped, &armors), 0);
}

#[test]
fn landed_blow_queues_damage_and_narrates() {
    let names = vec![name("hero"), name("rat")];
    let mut all_stats = vec![Some(stats(20, 5, 14, 10)), Some(stats(5, 0, 10, 10))];
    let mut damages: Vec<Option<Damage>> = vec![None, None];
    let mut log = Logbook::new();
    let damage = land_blow(
        Entity { id: 0 },
        Entity { id: 1 },
        5,
        0,
        0,
        &names,
        &mut all_stats,
        &mut damages,
        &mut log,
    );
    assert_eq!(damage, 7);
    let pending = damages[1].as_ref().unwrap();
    assert_eq!(pending.amount, vec![7]);
    assert_eq!(pending.attacker, Some(Entity { id: 0 }));
    assert!(damages[0].is_none());
    assert_eq!(log.entries.len(), 1);
    assert_eq!(line(&log, 0), "hero hits rat, inflicting 7 damage");
    assert_eq!(all_stats[0].unwrap().mp.current, 5);
}

#[test]
fn blow_that_is_too_weak_queues_nothing() {
    let names = vec![name("rat"), name("knight")];
    let mut all_stats = vec![Some(stats(4, 0, 4, 10)), Some(stats(30, 0, 10, 16))];
    let mut damages: Vec<Option<Damage>> = vec![None, None];
    let mut log = Logbook::new();
    let damage = land_blow(
        Entity { id: 0 },
        Entity { id: 1 },
        3,
        2,
        0,
        &names,
        &mut all_stats,
        &mut damages,
        &mut log,
    );
    assert_eq!(damage, 0);
    assert!(damages[0].is_none());
    assert!(damages[1].is_none());
    assert_eq!(line(&log, 0), "rat is too weak to hurt knight");
}

#[test]
fn new_damage_keeps_the_first_attacker() {
    let mut damages: Vec<Option<Damage>> = vec![None, None, None];
    Damage::new_damage(&mut damages, Some(Entity { id: 0 }), Entity { id: 2 }, 4);
    Damage::new_damage(&mut damages, Some(Entity { id: 1 }), Entity { id: 2 }, 6);
    Damage::new_damage(&mut damages, None, Entity { id: 1 }, 1);
    let pending = damages[2].as_ref().unwrap();
    assert_eq!(pending.amount, vec![4, 6]);
    assert_eq!(pending.attacker, Some(Entity { id: 0 }));
    assert_eq!(damages[1].as_ref().unwrap().attacker, None);
    assert!(damages[0].is_none());
}

#[test]
fn new_experience_appends() {
    let mut experiences: Vec<Option<Experience>> = vec![None, None];
    Experience::new(&mut experiences, Entity { id: 1 }, 100);
    Experience::new(&mut experiences, Entity { id: 1 }, 200);
    assert_eq!(experiences[1].as_ref().unwrap().amount, vec![100, 200]);
    assert!(experiences[0].is_none());
}

struct Arena {
    attacks: Vec<Option<Attack>>,
    names: Vec<Option<Name>>,
    stats: Vec<Option<Stats>>,
    damages: Vec<Option<Damage>>,
    equipped: Vec<Option<Equipped>>,
    melee: Vec<Option<MeleeWeapon>>,
    ranged: Vec<Option<RangedWeapon>>,
    books: Vec<Option<Spellbook>>,
    armors: Vec<Option<Armor>>,
    positions: Vec<Option<Position>>,
    log: Logbook,
}

fn arena(count: usize) -> Arena {
    Arena {
        attacks: (0..count).map(|_| None).collect(),
        names: (0..count).map(|i| name(&format!("e{}", i))).collect(),
        stats: (0..count).map(|_| Some(stats(20, 10, 10, 10))).collect(),
        damages: (0..count).map(|_| None).collect(),
        equipped: (0..count).map(|_| None).collect(),
        melee: (0..count).map(|_| None).collect(),
        ranged: (0..count).map(|_| None).collect(),
        books: (0..count).map(|_| None).collect(),
        armors: (0..count).map(|_| None).collect(),
        positions: (0..count).map(|i| Some(Position { x: i as i32, y: 1 })).collect(),
        log: Logbook::new(),
    }
}

fn fight(a: &mut Arena, seed: u64) -> Vec<Position> {
    let mut rng = rltk::RandomNumberGenerator::seeded(seed);
    MeleeCombatSystem {}.run(
        &mut rng,
        &mut a.attacks,
        &a.names,
        &mut a.stats,
        &mut a.damages,
        &a.equipped,
        &a.melee,
        &a.ranged,
        &a.books,
        &a.armors,
        &a.positions,
        &mut a.log,
    )
}

#[test]
fn unarmed_attack_rolls_one() {
    let mut a = arena(2);
    a.stats[0] = Some(stats(20, 10, 14, 10));
    a.attacks[0] = Some(Attack { attack_type: AttackType::Melee, target: Entity { id: 1 }, spell: None });
    let shown = fight(&mut a, 1);
    assert_eq!(a.damages[1].as_ref().unwrap().amount, vec![3]);
    assert_eq!(a.damages[1].as_ref().unwrap().attacker, Some(Entity { id: 0 }));
    assert!(a.attacks.iter().all(|x| x.is_none()));
    assert_eq!(shown, vec![Position { x: 1, y: 1 }]);
}

#[test]
fn weapon_roll_stays_within_its_dice() {
    for seed in 0..50u64 {
        let mut a = arena(3);
        a.melee[2] = Some(MeleeWeapon {
            damage: DiceExpr { dice_count: 2, dice_sides: 6, modifier: 1 },
            damage_type: DamageType::Physical,
        });
        a.equipped[2] = Some(Equipped { slot: EquipmentSlot::Weapon, owner: Entity { id: 0 } });
        a.attacks[0] = Some(Attack { attack_type: AttackType::Melee, target: Entity { id: 1 }, spell: None });
        fight(&mut a, seed);
        let amounts = &a.damages[1].as_ref().unwrap().amount;
        assert_eq!(amounts.len(), 1);
        assert!(amounts[0] >= 3 && amounts[0] <= 13, "seed {} gave {}", seed, amounts[0]);
    }
}

#[test]
fn ranged_attack_uses_the_ranged_weapon() {
    let mut a = arena(3);
    a.ranged[2] = Some(RangedWeapon {
        damage: DiceExpr { dice_count: 1, dice_sides: 1, modifier: 4 },
        damage_type: DamageType::Physical,
        range: 8,
        target: Some(Entity { id: 1 }),
    });
    a.melee[2] = None;
    a.equipped[2] = Some(Equipped { slot: EquipmentSlot::Weapon, owner: Entity { id: 0 } });
    a.attacks[0] = Some(Attack { attack_type: AttackType::Ranged, target: Entity { id: 1 }, spell: None });
    fight(&mut a, 9);
    assert_eq!(a.damages[1].as_ref().unwrap().amount, vec![5]);
}

#[test]
fn dead_attackers_and_dead_targets_do_not_fight() {
    let mut a = arena(3);
    a.stats[0] = Some(stats(0, 10, 18, 10));
    a.stats[2] = Some(Stats { hp: Pool { current: 0, max: 9 }, ..stats(9, 0, 10, 10) });
    a.attacks[0] = Some(Attack { attack_type: AttackType::Melee, target: Entity { id: 1 }, spell: None });
    a.attacks[1] = Some(Attack { attack_type: AttackType::Melee, target: Entity { id: 2 }, spell: None });
    let shown = fight(&mut a, 3);
    assert!(a.damages.iter().all(|d| d.is_none()));
    assert!(a.attacks.iter().all(|x| x.is_none()));
    assert!(shown.is_empty());
    assert_eq!(a.log.entries.len(), 0);
}

#[test]
fn zero_damage_never_queues_an_event() {
    for seed in 0..20u64 {
        let mut a = arena(2);
        a.stats[0] = Some(stats(20, 10, 2, 10));
        a.stats[1] = Some(stats(20, 10, 10, 30));
        a.attacks[0] = Some(Attack { attack_type: AttackType::Melee, target: Entity { id: 1 }, spell: None });
        let shown = fight(&mut a, seed);
        assert!(a.damages[1].is_none());
        assert!(shown.is_empty());
        assert_eq!(line(&a.log, 0), "e0 is too weak to hurt e1");
    }
}

fn bolt(cost: i32) -> Spell {
    Spell {
        mana_cost: cost,
        damage: DiceExpr { dice_count: 1, dice_sides: 1, modifier: 5 },
        damage_type: DamageType::Magical,
        range: 6,
    }
}

#[test]
fn insufficient_mana_aborts_the_spell() {
    let mut a = arena(2);
    a.stats[0] = Some(Stats { mp: Pool { current: 2, max: 10 }, ..stats(20, 2, 10, 10) });
    a.books[0] = Some(Spellbook { spells: vec![bolt(5)] });
    a.attacks[0] = Some(Attack { attack_type: AttackType::Magic, target: Entity { id: 1 }, spell: Some(0) });
    let shown = fight(&mut a, 5);
    assert!(a.damages[1].is_none());
    assert!(a.damages[0].is_none());
    assert_eq!(a.stats[0].unwrap().mp.current, 2);
    assert_eq!(a.stats[1].unwrap().hp.current, 20);
    assert_eq!(a.log.entries.len(), 1);
    assert_eq!(line(&a.log, 0), "e0 does not have enough mana");
    assert!(a.attacks.iter().all(|x| x.is_none()));
    assert!(shown.is_empty());
}

#[test]
fn spell_costs_mana_only_once_it_has_hurt() {
    let mut a = arena(2);
    a.books[0] = Some(Spellbook { spells: vec![bolt(4)] });
    a.attacks[0] = Some(Attack { attack_type: AttackType::Magic, target: Entity { id: 1 }, spell: Some(0) });
    fight(&mut a, 5);
    assert_eq!(a.damages[1].as_ref().unwrap().amount, vec![6]);
    assert_eq!(a.stats[0].unwrap().mp.current, 6);

    let mut b = arena(2);
    b.stats[1] = Some(stats(20, 10, 10, 40));
    b.books[0] = Some(Spellbook { spells: vec![bolt(4)] });
    b.attacks[0] = Some(Attack { attack_type: AttackType::Magic, target: Entity { id: 1 }, spell: Some(0) });
    fight(&mut b, 5);
    assert!(b.damages[1].is_none());
    assert_eq!(b.stats[0].unwrap().mp.current, 10);
}

#[test]
fn unknown_spell_aborts_the_attack() {
    let mut a = arena(2);
    a.books[0] = Some(Spellbook { spells: vec![bolt(1)] });
    a.attacks[0] = Some(Attack { attack_type: AttackType::Magic, target: Entity { id: 1 }, spell: Some(3) });
    fight(&mut a, 5);
    assert!(a.damages[1].is_none());
    assert_eq!(a.stats[0].unwrap().mp.current, 10);
    assert_eq!(line(&a.log, 0), "e0 does not know that spell");

    let mut b = arena(2);
    b.attacks[0] = Some(Attack { attack_type: AttackType::Magic, target: Entity { id: 1 }, spell: None });
    fight(&mut b, 5);
    assert!(b.damages[1].is_none());
    assert_eq!(line(&b.log, 0), "e0 does not know that spell");
}

#[test]
fn dice_can_be_rolled_as_far_as_their_highest_throw_can_be_written() {
    let dice = |dice_count: i32, dice_sides: i32| DiceExpr { dice_count, dice_sides, modifier: 0 };
    assert!(dice(46340, 46340).is_wf());
    assert!(!dice(46341, 46341).is_wf());
    assert!(dice(i32::MAX, 1).is_wf());
    assert!(dice(1, i32::MAX - 1).is_wf());
    assert!(!dice(1, i32::MAX).is_wf());
    assert!(!dice(2, 1 << 30).is_wf());
    assert!(!dice(3, 0).is_wf());
    assert!(!dice(3, -2).is_wf());
    // without dice nothing is thrown, whatever the sides
    assert!(dice(0, 0).is_wf());
    assert!(dice(-4, -4).is_wf());
}

#[test]
fn an_attacker_without_a_name_strikes_without_a_word() {
    let mut a = arena(3);
    a.names[0] = None;
    a.stats[0] = Some(stats(20, 10, 14, 10));
    a.attacks[0] = Some(Attack { attack_type: AttackType::Melee, target: Entity { id: 1 }, spell: None });
    a.attacks[2] = Some(Attack { attack_type: AttackType::Melee, target: Entity { id: 1 }, spell: None });
    a.stats[2] = Some(stats(20, 10, 14, 10));
    let shown = fight(&mut a, 4);
    // both blows have landed: an unarmed roll of one and a modifier of two each
    assert_eq!(a.damages[1].as_ref().unwrap().amount, vec![3, 3]);
    assert_eq!(a.damages[1].as_ref().unwrap().attacker, Some(Entity { id: 0 }));
    assert_eq!(shown.len(), 2);
    assert_eq!(a.log.entries.len(), 1);
    assert_eq!(line(&a.log, 0), "e2 hits e1, inflicting 3 damage");
    assert!(a.attacks.iter().all(|x| x.is_none()));
}
