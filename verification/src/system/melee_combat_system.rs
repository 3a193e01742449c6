//! Resolves the attacks queued this tick, whether melee, ranged or magic:
//! rolls the weapon, applies attributes and armour, queues the damage and
//! narrates the blow.

use crate::combat::{resolve_damage, spec_damage, spec_damage_view, spec_new_damage};
use crate::component::{
    clamp, spec_clamp, Armor, Attack, AttackType, Damage, Entity, Equipped, MeleeWeapon, Name, Pool,
    RangedWeapon, Spell, Spellbook, Stats, Table,
};
use crate::geometry::Position;
use crate::logbook::{
    decimal, lemma_log_grew_by_line, lemma_log_grew_once_more, spec_decimal, spec_line_text, spec_log_grew_by,
    Logbook, Logger,
};
use crate::system::damage_system::spec_attackers_valid;
use vstd::prelude::*;

verus! {

/// What an unarmed attacker rolls.
pub const UNARMED_ROLL: i32 = 1;

/// Every queued attack is aimed at an entity that has a name and stats.
pub open spec fn spec_attacks_valid(
    attacks: Seq<Option<Attack>>,
    names: Seq<Option<Name>>,
    stats: Seq<Option<Stats>>,
) -> bool {
    forall|e: int|
        0 <= e < attacks.len() ==> ((#[trigger] attacks[e]) matches Some(a) ==> a.target.id < attacks.len()
            && stats[a.target.id as int] is Some && names[a.target.id as int] is Some)
}

/// Every dice expression of a weapon or a spell can be rolled.
pub open spec fn spec_arms_valid(
    melee: Seq<Option<MeleeWeapon>>,
    ranged: Seq<Option<RangedWeapon>>,
    spellbooks: Seq<Option<Spellbook>>,
) -> bool {
    &&& forall|j: int| 0 <= j < melee.len() ==> ((#[trigger] melee[j]) matches Some(w) ==> w.damage.wf())
    &&& forall|j: int| 0 <= j < ranged.len() ==> ((#[trigger] ranged[j]) matches Some(w) ==> w.damage.wf())
    &&& forall|j: int|
        0 <= j < spellbooks.len() ==> ((#[trigger] spellbooks[j]) matches Some(b) ==> spec_spells_valid(
            b.spells@,
        ))
}

/// Every spell's dice expression can be rolled.
pub open spec fn spec_spells_valid(spells: Seq<Spell>) -> bool {
    forall|k: int| 0 <= k < spells.len() ==> (#[trigger] spells[k]).damage.wf()
}

/// Item `j` is a melee weapon equipped by `owner`.
pub open spec fn spec_wields_melee(
    equipped: Seq<Option<Equipped>>,
    melee: Seq<Option<MeleeWeapon>>,
    owner: Entity,
    j: int,
) -> bool {
    0 <= j < equipped.len() && j < melee.len() && melee[j] is Some && (equipped[j] matches Some(q) && q.owner
        == owner)
}

/// Item `j` is a ranged weapon equipped by `owner`.
pub open spec fn spec_wields_ranged(
    equipped: Seq<Option<Equipped>>,
    ranged: Seq<Option<RangedWeapon>>,
    owner: Entity,
    j: int,
) -> bool {
    0 <= j < equipped.len() && j < ranged.len() && ranged[j] is Some && (equipped[j] matches Some(q) && q.owner
        == owner)
}

/// The defence of the armour that `target` wears: that of the piece with
/// the highest identifier among the first `n` entities, zero without any.
pub open spec fn spec_armor_defense(
    equipped: Seq<Option<Equipped>>,
    armors: Seq<Option<Armor>>,
    target: Entity,
    n: int,
) -> int
    decreases n,
{
    if n <= 0 {
        0
    } else if armors[n - 1] is Some && (equipped[n - 1] matches Some(q) && q.owner == target) {
        armors[n - 1].unwrap().defense as int
    } else {
        spec_armor_defense(equipped, armors, target, n - 1)
    }
}

pub open spec fn spec_too_weak_text(attacker: Seq<char>, target: Seq<char>) -> Seq<char> {
    attacker + " is too weak to hurt "@ + target
}

pub open spec fn spec_hit_text(attacker: Seq<char>, target: Seq<char>, damage: int) -> Seq<char> {
    attacker + " hits "@ + target + ", inflicting "@ + spec_decimal(damage) + " damage"@
}

pub open spec fn spec_no_mana_text(attacker: Seq<char>) -> Seq<char> {
    attacker + " does not have enough mana"@
}

pub open spec fn spec_unknown_spell_text(attacker: Seq<char>) -> Seq<char> {
    attacker + " does not know that spell"@
}

/// `stats` with `cost` taken from the current mana.
pub open spec fn spec_spend_mana(stats: Stats, cost: int) -> Stats {
    Stats { mp: Pool { current: spec_clamp(stats.mp.current - cost) as i32, max: stats.mp.max }, ..stats }
}

/// `after` is `before` but for the current mana.
pub open spec fn spec_mana_only(before: Option<Stats>, after: Option<Stats>) -> bool {
    match (before, after) {
        (None, None) => true,
        (Some(b), Some(a)) => a == (Stats { mp: Pool { current: a.mp.current, max: b.mp.max }, ..b }),
        _ => false,
    }
}

/// `after` holds what was pending in `before`, the attacker kept, and after
/// it only amounts above zero.
pub open spec fn spec_damage_grown(before: Option<Damage>, after: Option<Damage>) -> bool {
    match (before, after) {
        (None, None) => true,
        (None, Some(a)) => a.amount@.len() > 0 && forall|k: int|
            0 <= k < a.amount@.len() ==> #[trigger] a.amount@[k] > 0,
        (Some(b), Some(a)) => {
            &&& a.attacker == b.attacker
            &&& b.amount@.len() <= a.amount@.len()
            &&& forall|k: int| 0 <= k < b.amount@.len() ==> #[trigger] a.amount@[k] == b.amount@[k]
            &&& forall|k: int| b.amount@.len() <= k < a.amount@.len() ==> #[trigger] a.amount@[k] > 0
        },
        (Some(_), None) => false,
    }
}

/// What the tables hold once a blow with the given weapon roll has landed.
pub open spec fn spec_blow_landed(
    attacker: Entity,
    target: Entity,
    weapon_roll: int,
    armor_defense: int,
    mana_cost: int,
    names: Seq<Option<Name>>,
    stats_before: Seq<Option<Stats>>,
    stats_after: Seq<Option<Stats>>,
    damages_before: Seq<Option<Damage>>,
    damages_after: Seq<Option<Damage>>,
    damage: int,
) -> bool {
    let a = stats_before[attacker.id as int].unwrap();
    let t = stats_before[target.id as int].unwrap();
    &&& damage == spec_clamp(spec_damage(a.strength as int, weapon_roll, t.dexterity as int, armor_defense))
    &&& damages_after.len() == damages_before.len()
    &&& damage == 0 ==> {
        &&& stats_after == stats_before
        &&& damages_after == damages_before
    }
    &&& damage != 0 ==> {
        &&& stats_after == stats_before.update(attacker.id as int, Some(spec_spend_mana(a, mana_cost)))
        &&& spec_damage_view(damages_after[target.id as int]) == Some(
            spec_new_damage(damages_before[target.id as int], Some(attacker), damage as i32),
        )
        &&& forall|e: int|
            0 <= e < damages_before.len() && e != target.id ==> #[trigger] damages_after[e]
                == damages_before[e]
    }
}

/// What a blow of `attacker` against `target` tells: that the attacker is
/// too weak where the damage is nothing, and how hard it has hit
/// otherwise. Of an attacker without a name nothing is told.
pub open spec fn spec_blow_said(names: Seq<Option<Name>>, attacker: Entity, target: Entity, damage: int) -> Seq<
    Seq<char>,
> {
    match names[attacker.id as int] {
        Some(a) => {
            let t_name = names[target.id as int].unwrap().name@;
            if damage == 0 {
                seq![spec_too_weak_text(a.name@, t_name)]
            } else {
                seq![spec_hit_text(a.name@, t_name, damage)]
            }
        },
        None => Seq::empty(),
    }
}

/// The defence of the armour that `target` wears.
pub fn armor_defense_of(target: Entity, equipped: &Table<Equipped>, armors: &Table<Armor>) -> (defense: i32)
    requires
        equipped.len() == armors.len(),
    ensures
        defense == spec_armor_defense(equipped@, armors@, target, equipped.len() as int),
{
    let mut defense: i32 = 0;
    let mut j: usize = 0;
    while j < equipped.len()
        invariant
            j <= equipped.len(),
            equipped.len() == armors.len(),
            defense == spec_armor_defense(equipped@, armors@, target, j as int),
        decreases equipped.len() - j,
    {
        match (&equipped[j], &armors[j]) {
            (Some(q), Some(armor)) => {
                if q.owner == target {
                    defense = armor.defense;
                }
            },
            _ => {},
        }
        j += 1;
    }
    defense
}

/// Rolls every melee weapon that `attacker` has equipped and keeps the
/// last roll; an unarmed attacker rolls `UNARMED_ROLL`.
pub fn roll_melee(
    rng: &mut rltk::RandomNumberGenerator,
    attacker: Entity,
    equipped: &Table<Equipped>,
    melee: &Table<MeleeWeapon>,
) -> (roll: i32)
    requires
        equipped.len() == melee.len(),
        forall|j: int| 0 <= j < melee.len() ==> ((#[trigger] melee[j]) matches Some(w) ==> w.damage.wf()),
    ensures
        (roll == UNARMED_ROLL && forall|j: int| !spec_wields_melee(equipped@, melee@, attacker, j)) || (
        exists|j: int|
            #[trigger] spec_wields_melee(equipped@, melee@, attacker, j) && melee[j].unwrap().damage.spec_can_give(
                roll as int,
            )),
{
    let mut roll: i32 = UNARMED_ROLL;
    let mut j: usize = 0;
    while j < equipped.len()
        invariant
            j <= equipped.len(),
            equipped.len() == melee.len(),
            forall|k: int| 0 <= k < melee.len() ==> ((#[trigger] melee[k]) matches Some(w) ==> w.damage.wf()),
            (roll == UNARMED_ROLL && forall|k: int| k < j ==> !spec_wields_melee(equipped@, melee@, attacker, k))
                || (exists|k: int|
                #[trigger] spec_wields_melee(equipped@, melee@, attacker, k)
                    && melee[k].unwrap().damage.spec_can_give(roll as int)),
        decreases equipped.len() - j,
    {
        match (&equipped[j], &melee[j]) {
            (Some(q), Some(weapon)) => {
                if q.owner == attacker {
                    roll = weapon.damage.roll(rng);
                    assert(spec_wields_melee(equipped@, melee@, attacker, j as int));
                }
            },
            _ => {},
        }
        j += 1;
    }
    roll
}

/// Rolls every ranged weapon that `attacker` has equipped and keeps the
/// last roll; without one the attacker rolls `UNARMED_ROLL`.
pub fn roll_ranged(
    rng: &mut rltk::RandomNumberGenerator,
    attacker: Entity,
    equipped: &Table<Equipped>,
    ranged: &Table<RangedWeapon>,
) -> (roll: i32)
    requires
        equipped.len() == ranged.len(),
        forall|j: int| 0 <= j < ranged.len() ==> ((#[trigger] ranged[j]) matches Some(w) ==> w.damage.wf()),
    ensures
        (roll == UNARMED_ROLL && forall|j: int| !spec_wields_ranged(equipped@, ranged@, attacker, j)) || (
        exists|j: int|
            #[trigger] spec_wields_ranged(equipped@, ranged@, attacker, j)
                && ranged[j].unwrap().damage.spec_can_give(roll as int)),
{
    let mut roll: i32 = UNARMED_ROLL;
    let mut j: usize = 0;
    while j < equipped.len()
        invariant
            j <= equipped.len(),
            equipped.len() == ranged.len(),
            forall|k: int| 0 <= k < ranged.len() ==> ((#[trigger] ranged[k]) matches Some(w) ==> w.damage.wf()),
            (roll == UNARMED_ROLL && forall|k: int| k < j ==> !spec_wields_ranged(equipped@, ranged@, attacker, k))
                || (exists|k: int|
                #[trigger] spec_wields_ranged(equipped@, ranged@, attacker, k)
                    && ranged[k].unwrap().damage.spec_can_give(roll as int)),
        decreases equipped.len() - j,
    {
        match (&equipped[j], &ranged[j]) {
            (Some(q), Some(weapon)) => {
                if q.owner == attacker {
                    roll = weapon.damage.roll(rng);
                    assert(spec_wields_ranged(equipped@, ranged@, attacker, j as int));
                }
            },
            _ => {},
        }
        j += 1;
    }
    roll
}

/// Lands a blow whose weapon roll is known: works out the damage, and
/// either narrates that the attacker is too weak, or queues the damage
/// against the target, takes the mana cost from the attacker and narrates
/// the hit. An attacker without a name strikes without a word.
pub fn land_blow(
    attacker: Entity,
    target: Entity,
    weapon_roll: i32,
    armor_defense: i32,
    mana_cost: i32,
    names: &Table<Name>,
    stats: &mut Table<Stats>,
    damages: &mut Table<Damage>,
    log: &mut Logbook,
) -> (damage: i32)
    requires
        attacker.id < names.len(),
        target.id < names.len(),
        old(stats).len() == names.len(),
        old(damages).len() == names.len(),
        names[target.id as int] is Some,
        old(stats)[attacker.id as int] is Some,
        old(stats)[target.id as int] is Some,
    ensures
        damage >= 0,
        final(stats).len() == old(stats).len(),
        spec_log_grew_by(old(log), final(log), spec_blow_said(names@, attacker, target, damage as int)),
        spec_blow_landed(
            attacker,
            target,
            weapon_roll as int,
            armor_defense as int,
            mana_cost as int,
            names@,
            old(stats)@,
            final(stats)@,
            old(damages)@,
            final(damages)@,
            damage as int,
        ),
{
    let a: Stats = stats[attacker.id].unwrap();
    let t: Stats = stats[target.id].unwrap();
    let damage: i32 = resolve_damage(a.strength, weapon_roll, t.dexterity, armor_defense);
    let t_name: &Name = names[target.id].as_ref().unwrap();
    match &names[attacker.id] {
        Some(a_name) => {
            let line: Logger = if damage == 0 {
                Logger::new().append(a_name.name.as_str()).append(" is too weak to hurt ").append(
                    t_name.name.as_str(),
                )
            } else {
                let amount: String = decimal(damage);
                Logger::new().append(a_name.name.as_str()).append(" hits ").append(t_name.name.as_str()).append(
                    ", inflicting ",
                ).append(amount.as_str()).append(" damage")
            };
            assert(seq![spec_line_text(line.fragments@)] =~= spec_blow_said(names@, attacker, target, damage as int))
                by {
                assert(spec_line_text(Seq::<crate::logbook::LogFragment>::empty()) =~= Seq::<char>::empty());
                if damage == 0 {
                    assert(spec_line_text(line.fragments@) =~= spec_too_weak_text(a_name.name@, t_name.name@));
                } else {
                    assert(spec_line_text(line.fragments@) =~= spec_hit_text(
                        a_name.name@,
                        t_name.name@,
                        damage as int,
                    ));
                }
            }
            let ghost fragments = line.fragments;
            line.log(log);
            proof {
                lemma_log_grew_once_more(old(log), old(log), log, Seq::empty(), fragments);
                assert(Seq::<Seq<char>>::empty().push(spec_line_text(fragments@)) =~= seq![
                    spec_line_text(fragments@),
                ]);
            }
        },
        None => {},
    }
    if damage == 0 {
        assert(stats@ =~= old(stats)@);
        return damage;
    }
    Damage::new_damage(damages, Some(attacker), target, damage);
    let mana: i32 = clamp(a.mp.current as i128 - mana_cost as i128);
    stats.set(attacker.id, Some(Stats { mp: Pool { current: mana, max: a.mp.max }, ..a }));
    damage
}

/// Tells that `caster` has too little mana for the spell.
pub fn say_no_mana(caster: &Name, log: &mut Logbook)
    ensures
        final(log).entries@.len() == old(log).entries@.len() + 1,
        final(log).extends(old(log)),
        spec_line_text(final(log).entries@.last()@) == spec_no_mana_text(caster.name@),
{
    let line: Logger = Logger::new().append(caster.name.as_str()).append(" does not have enough mana");
    assert(spec_line_text(line.fragments@) =~= spec_no_mana_text(caster.name@)) by {
        assert(spec_line_text(Seq::<crate::logbook::LogFragment>::empty()) =~= Seq::<char>::empty());
    }
    line.log(log);
}

/// Tells that `caster` does not know the spell that was invoked.
pub fn say_unknown_spell(caster: &Name, log: &mut Logbook)
    ensures
        final(log).entries@.len() == old(log).entries@.len() + 1,
        final(log).extends(old(log)),
        spec_line_text(final(log).entries@.last()@) == spec_unknown_spell_text(caster.name@),
{
    let line: Logger = Logger::new().append(caster.name.as_str()).append(" does not know that spell");
    assert(spec_line_text(line.fragments@) =~= spec_unknown_spell_text(caster.name@)) by {
        assert(spec_line_text(Seq::<crate::logbook::LogFragment>::empty()) =~= Seq::<char>::empty());
    }
    line.log(log);
}

/// A weapon roll for a magic attack, or why there is none.
pub enum SpellRoll {
    /// The spell is known and paid for: what its dice gave, and its cost.
    Cast { roll: i32, mana_cost: i32 },
    /// The attack names no spell that the caster knows.
    Unknown,
    /// The caster's current mana is below the spell's cost.
    NoMana,
}

/// The spell that a magic attack invokes, if the caster knows it.
pub open spec fn spec_invoked(book: Option<Spellbook>, spell: Option<usize>) -> Option<Spell> {
    match (book, spell) {
        (Some(b), Some(k)) => if k < b.spells@.len() {
            Some(b.spells@[k as int])
        } else {
            None
        },
        _ => None,
    }
}

/// Decides whether a magic attack can be made, and rolls the spell's dice
/// if so. Nothing is drawn for a spell that is unknown or cannot be paid.
pub fn roll_spell(
    rng: &mut rltk::RandomNumberGenerator,
    book: &Option<Spellbook>,
    spell: Option<usize>,
    mana: i32,
) -> (outcome: SpellRoll)
    requires
        book matches Some(b) ==> spec_spells_valid(b.spells@),
    ensures
        match spec_invoked(*book, spell) {
            None => outcome is Unknown,
            Some(s) => if mana < s.mana_cost {
                outcome is NoMana
            } else {
                outcome matches SpellRoll::Cast { roll, mana_cost } && mana_cost == s.mana_cost
                    && s.damage.spec_can_give(roll as int)
            },
        },
{
    match (book, spell) {
        (Some(b), Some(k)) => {
            if k < b.spells.len() {
                let s: Spell = b.spells[k];
                if mana < s.mana_cost {
                    SpellRoll::NoMana
                } else {
                    let roll: i32 = s.damage.roll(rng);
                    SpellRoll::Cast { roll, mana_cost: s.mana_cost }
                }
            } else {
                SpellRoll::Unknown
            }
        },
        _ => SpellRoll::Unknown,
    }
}

/// Some entity stands at `p`.
pub open spec fn spec_some_at(positions: Seq<Option<Position>>, p: Position) -> bool {
    exists|e: int| 0 <= e < positions.len() && #[trigger] positions[e] == Some(p)
}

/// Entity `e` has queued a magic attack.
pub open spec fn spec_casts(attacks: Seq<Option<Attack>>, e: int) -> bool {
    attacks[e] matches Some(a) && a.attack_type == AttackType::Magic
}

/// The tables that a resolution pass reads, as they are when it begins.
pub struct Fray {
    pub attacks: Seq<Option<Attack>>,
    pub names: Seq<Option<Name>>,
    pub stats: Seq<Option<Stats>>,
    pub equipped: Seq<Option<Equipped>>,
    pub melee: Seq<Option<MeleeWeapon>>,
    pub ranged: Seq<Option<RangedWeapon>>,
    pub books: Seq<Option<Spellbook>>,
    pub armors: Seq<Option<Armor>>,
}

/// Entity `i` fights: it has queued an attack and has stats, and both it
/// and its target have health left.
pub open spec fn spec_fights(f: Fray, i: int) -> bool {
    &&& 0 <= i < f.attacks.len()
    &&& f.attacks[i] is Some
    &&& (f.stats[i] matches Some(s) && s.hp.current > 0)
    &&& (f.stats[f.attacks[i].unwrap().target.id as int] matches Some(t) && t.hp.current > 0)
}

/// The mana that the attack of entity `i` costs once it has hurt: nothing
/// for a weapon, the spell's cost for magic. An attack by magic that names
/// no known spell, or whose cost is above the caster's current mana, has no
/// cost because it is not made.
pub open spec fn spec_cost(f: Fray, i: int) -> Option<int> {
    let a = f.attacks[i].unwrap();
    match a.attack_type {
        AttackType::Melee => Some(0),
        AttackType::Ranged => Some(0),
        AttackType::Magic => match spec_invoked(f.books[i], a.spell) {
            Some(s) => if f.stats[i].unwrap().mp.current < s.mana_cost {
                None
            } else {
                Some(s.mana_cost as int)
            },
            None => None,
        },
    }
}

/// Entity `i` strikes: it fights, and its attack is made.
pub open spec fn spec_strikes(f: Fray, i: int) -> bool {
    spec_fights(f, i) && spec_cost(f, i) is Some
}

/// `roll` is a weapon roll that the attack of entity `i` can give: a roll
/// of a weapon of the right kind that the attacker has equipped, or
/// `UNARMED_ROLL` where it has none, or a roll of the spell's dice.
pub open spec fn spec_roll_ok(f: Fray, i: int, roll: int) -> bool {
    let a = f.attacks[i].unwrap();
    let who = Entity { id: i as usize };
    match a.attack_type {
        AttackType::Melee => (roll == UNARMED_ROLL && forall|j: int| !spec_wields_melee(f.equipped, f.melee, who, j))
            || (exists|j: int|
            #[trigger] spec_wields_melee(f.equipped, f.melee, who, j) && f.melee[j].unwrap().damage.spec_can_give(
                roll,
            )),
        AttackType::Ranged => (roll == UNARMED_ROLL && forall|j: int|
            !spec_wields_ranged(f.equipped, f.ranged, who, j)) || (exists|j: int|
            #[trigger] spec_wields_ranged(f.equipped, f.ranged, who, j) && f.ranged[j].unwrap().damage.spec_can_give(
                roll,
            )),
        AttackType::Magic => spec_invoked(f.books[i], a.spell) matches Some(s) && s.damage.spec_can_give(roll),
    }
}

/// The damage that the attack of entity `i` inflicts with the weapon roll
/// `roll`.
pub open spec fn spec_blow(f: Fray, i: int, roll: int) -> int {
    let a = f.attacks[i].unwrap();
    spec_clamp(
        spec_damage(
            f.stats[i].unwrap().strength as int,
            roll,
            f.stats[a.target.id as int].unwrap().dexterity as int,
            spec_armor_defense(f.equipped, f.armors, a.target, f.equipped.len() as int),
        ),
    )
}

/// The attack of entity `i` hurts its target: it is made, and with the roll
/// noted for it the damage is above zero.
pub open spec fn spec_hurts(f: Fray, rolls: Seq<i32>, i: int) -> bool {
    spec_strikes(f, i) && spec_blow(f, i, rolls[i] as int) > 0
}

/// The stats of entity `e` after the pass: the cost of its attack taken
/// from its mana where the attack has hurt, and as before otherwise.
pub open spec fn spec_fray_stats(f: Fray, rolls: Seq<i32>, e: int) -> Option<Stats> {
    if spec_hurts(f, rolls, e) {
        Some(spec_spend_mana(f.stats[e].unwrap(), spec_cost(f, e).unwrap()))
    } else {
        f.stats[e]
    }
}

/// What is pending once `amount` from `attacker` has been queued.
pub open spec fn spec_queued(pending: Option<(Seq<i32>, Option<Entity>)>, attacker: Entity, amount: i32) -> (
    Seq<i32>,
    Option<Entity>,
) {
    match pending {
        Some(p) => (p.0.push(amount), p.1),
        None => (seq![amount], Some(attacker)),
    }
}

/// What is pending against entity `v` after the first `n` entities have
/// attacked: what was pending, and then the damage of every attack on `v`
/// that has hurt, in the order of the attackers' identifiers.
pub open spec fn spec_fray_damages(
    f: Fray,
    pending: Option<(Seq<i32>, Option<Entity>)>,
    rolls: Seq<i32>,
    v: int,
    n: int,
) -> Option<(Seq<i32>, Option<Entity>)>
    decreases n,
{
    if n <= 0 {
        pending
    } else {
        let before = spec_fray_damages(f, pending, rolls, v, n - 1);
        if spec_hurts(f, rolls, n - 1) && f.attacks[n - 1].unwrap().target.id == v {
            Some(spec_queued(before, Entity { id: (n - 1) as usize }, spec_blow(f, n - 1, rolls[n - 1] as int) as i32))
        } else {
            before
        }
    }
}

/// Where the blows of the first `n` attackers are shown: at the place of
/// the target of every attack that has hurt, if the target has a place, in
/// the order of the attackers' identifiers.
pub open spec fn spec_fray_shown(f: Fray, positions: Seq<Option<Position>>, rolls: Seq<i32>, n: int) -> Seq<Position>
    decreases n,
{
    if n <= 0 {
        Seq::empty()
    } else {
        let before = spec_fray_shown(f, positions, rolls, n - 1);
        if spec_hurts(f, rolls, n - 1) && positions[f.attacks[n - 1].unwrap().target.id as int] is Some {
            before.push(positions[f.attacks[n - 1].unwrap().target.id as int].unwrap())
        } else {
            before
        }
    }
}

/// What the attack of entity `i` tells with the roll noted for it: nothing
/// where the entity does not fight or has no name; that the spell is not
/// known or that the
/// mana does not suffice where the attack cannot be made; and otherwise how
/// the blow has gone.
pub open spec fn spec_fray_line(f: Fray, rolls: Seq<i32>, i: int) -> Option<Seq<char>> {
    if spec_fights(f, i) && f.names[i] is Some {
        let a = f.attacks[i].unwrap();
        let name = f.names[i].unwrap().name@;
        match spec_cost(f, i) {
            Some(_) => {
                let target = f.names[a.target.id as int].unwrap().name@;
                let damage = spec_blow(f, i, rolls[i] as int);
                if damage == 0 {
                    Some(spec_too_weak_text(name, target))
                } else {
                    Some(spec_hit_text(name, target, damage))
                }
            },
            None => if spec_invoked(f.books[i], a.spell) is None {
                Some(spec_unknown_spell_text(name))
            } else {
                Some(spec_no_mana_text(name))
            },
        }
    } else {
        None
    }
}

/// The lines that the first `n` attackers tell, in the order of their
/// identifiers.
pub open spec fn spec_fray_said(f: Fray, rolls: Seq<i32>, n: int) -> Seq<Seq<char>>
    decreases n,
{
    if n <= 0 {
        Seq::empty()
    } else {
        let before = spec_fray_said(f, rolls, n - 1);
        match spec_fray_line(f, rolls, n - 1) {
            Some(line) => before.push(line),
            None => before,
        }
    }
}

/// What the first `n` attackers tell does not depend on the rolls noted
/// for those after them.
pub proof fn lemma_fray_said_prefix(f: Fray, a: Seq<i32>, b: Seq<i32>, n: int)
    requires
        0 <= n <= a.len(),
        n <= b.len(),
        forall|i: int| 0 <= i < n ==> a[i] == b[i],
    ensures
        spec_fray_said(f, a, n) == spec_fray_said(f, b, n),
    decreases n,
{
    if n > 0 {
        lemma_fray_said_prefix(f, a, b, n - 1);
    }
}

/// Where the blows of the first `n` attackers are shown does not depend on
/// the rolls noted for those after them.
pub proof fn lemma_fray_shown_prefix(f: Fray, positions: Seq<Option<Position>>, a: Seq<i32>, b: Seq<i32>, n: int)
    requires
        0 <= n <= a.len(),
        n <= b.len(),
        forall|i: int| 0 <= i < n ==> a[i] == b[i],
    ensures
        spec_fray_shown(f, positions, a, n) == spec_fray_shown(f, positions, b, n),
    decreases n,
{
    if n > 0 {
        lemma_fray_shown_prefix(f, positions, a, b, n - 1);
    }
}

/// What is pending after the first `n` attackers does not depend on the
/// rolls noted for those after them.
pub proof fn lemma_fray_damages_prefix(
    f: Fray,
    pending: Option<(Seq<i32>, Option<Entity>)>,
    a: Seq<i32>,
    b: Seq<i32>,
    v: int,
    n: int,
)
    requires
        0 <= n <= a.len(),
        n <= b.len(),
        forall|i: int| 0 <= i < n ==> a[i] == b[i],
    ensures
        spec_fray_damages(f, pending, a, v, n) == spec_fray_damages(f, pending, b, v, n),
    decreases n,
{
    if n > 0 {
        lemma_fray_damages_prefix(f, pending, a, b, v, n - 1);
    }
}

/// An attack by magic whose spell costs more mana than the caster has is
/// not made, whatever the dice would give: the caster's stats stay as they
/// are, nothing is queued against anybody on its account, and the one line
/// it tells is that the mana does not suffice.
pub proof fn lemma_no_mana_no_harm(
    f: Fray,
    rolls: Seq<i32>,
    pending: Option<(Seq<i32>, Option<Entity>)>,
    i: int,
    v: int,
)
    requires
        spec_fights(f, i),
        f.attacks[i].unwrap().attack_type == AttackType::Magic,
        spec_invoked(f.books[i], f.attacks[i].unwrap().spell) matches Some(s) && f.stats[i].unwrap().mp.current
            < s.mana_cost,
    ensures
        !spec_strikes(f, i),
        !spec_hurts(f, rolls, i),
        spec_fray_stats(f, rolls, i) == f.stats[i],
        spec_fray_damages(f, pending, rolls, v, i + 1) == spec_fray_damages(f, pending, rolls, v, i),
        spec_fray_shown(f, Seq::empty(), rolls, i + 1) == spec_fray_shown(f, Seq::empty(), rolls, i),
        f.names[i] matches Some(name) ==> spec_fray_line(f, rolls, i) == Some(spec_no_mana_text(name.name@)),
        f.names[i] is None ==> spec_fray_line(f, rolls, i) is None,
{
}

/// With the weapon rolls `rolls`, one noted for each entity, the pass
/// leaves `stats_after` and `damages_after`, shows its blows at `shown` and
/// adds its lines to the log: every roll noted for an attack that is made
/// is one that the attack can give, and stats, pending damage, the places
/// shown and the lines told are what the attacks make of them.
pub open spec fn spec_frayed(
    f: Fray,
    rolls: Seq<i32>,
    stats_after: Seq<Option<Stats>>,
    damages_before: Seq<Option<Damage>>,
    damages_after: Seq<Option<Damage>>,
    positions: Seq<Option<Position>>,
    shown: Seq<Position>,
    log_before: &Logbook,
    log_after: &Logbook,
) -> bool {
    let n = f.attacks.len() as int;
    &&& rolls.len() == n
    &&& shown == spec_fray_shown(f, positions, rolls, n)
    &&& spec_log_grew_by(log_before, log_after, spec_fray_said(f, rolls, n))
    &&& stats_after.len() == n
    &&& damages_after.len() == n
    &&& forall|i: int| 0 <= i < n && #[trigger] spec_strikes(f, i) ==> spec_roll_ok(f, i, rolls[i] as int)
    &&& forall|e: int| 0 <= e < n ==> #[trigger] stats_after[e] == spec_fray_stats(f, rolls, e)
    &&& forall|v: int|
        0 <= v < n ==> spec_damage_view(#[trigger] damages_after[v]) == spec_fray_damages(
            f,
            spec_damage_view(damages_before[v]),
            rolls,
            v,
            n,
        )
}

/// The pass has left `stats_after`, `damages_after` and `log_after` for
/// some weapon rolls that the dice can give.
pub open spec fn spec_resolved(
    f: Fray,
    stats_after: Seq<Option<Stats>>,
    damages_before: Seq<Option<Damage>>,
    damages_after: Seq<Option<Damage>>,
    positions: Seq<Option<Position>>,
    shown: Seq<Position>,
    log_before: &Logbook,
    log_after: &Logbook,
) -> bool {
    exists|rolls: Seq<i32>|
        #[trigger] spec_frayed(
            f,
            rolls,
            stats_after,
            damages_before,
            damages_after,
            positions,
            shown,
            log_before,
            log_after,
        )
}

pub struct MeleeCombatSystem {}

impl MeleeCombatSystem {
    /// Resolves every queued attack whose attacker and target are both
    /// alive, in the order of the attackers' identifiers, and clears the
    /// queue. Returns where the blows that hurt have landed, for the
    /// particles that show them.
    ///
    /// Whatever the dice give: no attack stays queued; every victim keeps
    /// what was pending against it and gains only amounts above zero; no
    /// statistic changes but the current mana of entities that attacked by
    /// magic. With the rolls that the dice gave, stats, pending damage and
    /// the lines added to the log are stated exactly.
    pub fn run(
        &self,
        rng: &mut rltk::RandomNumberGenerator,
        attacks: &mut Table<Attack>,
        names: &Table<Name>,
        stats: &mut Table<Stats>,
        damages: &mut Table<Damage>,
        equipped: &Table<Equipped>,
        melee_weapons: &Table<MeleeWeapon>,
        ranged_weapons: &Table<RangedWeapon>,
        spellbooks: &Table<Spellbook>,
        armors: &Table<Armor>,
        positions: &Table<Position>,
        log: &mut Logbook,
    ) -> (particles: Vec<Position>)
        requires
            old(attacks).len() == names.len(),
            old(stats).len() == names.len(),
            old(damages).len() == names.len(),
            equipped.len() == names.len(),
            melee_weapons.len() == names.len(),
            ranged_weapons.len() == names.len(),
            spellbooks.len() == names.len(),
            armors.len() == names.len(),
            positions.len() == names.len(),
            spec_attacks_valid(old(attacks)@, names@, old(stats)@),
            spec_arms_valid(melee_weapons@, ranged_weapons@, spellbooks@),
        ensures
            final(attacks).len() == old(attacks).len(),
            final(stats).len() == old(stats).len(),
            final(damages).len() == old(damages).len(),
            forall|e: int| 0 <= e < final(attacks).len() ==> #[trigger] final(attacks)[e] is None,
            forall|e: int|
                0 <= e < old(stats).len() ==> spec_mana_only(old(stats)[e], #[trigger] final(stats)[e]),
            forall|e: int|
                0 <= e < old(stats).len() && !spec_casts(old(attacks)@, e) ==> #[trigger] final(stats)[e]
                    == old(stats)[e],
            forall|e: int|
                0 <= e < old(damages).len() ==> spec_damage_grown(
                    old(damages)[e],
                    #[trigger] final(damages)[e],
                ),
            spec_attackers_valid(old(damages)@) ==> spec_attackers_valid(final(damages)@),
            spec_resolved(
                (Fray {
                    attacks: old(attacks)@,
                    names: names@,
                    stats: old(stats)@,
                    equipped: equipped@,
                    melee: melee_weapons@,
                    ranged: ranged_weapons@,
                    books: spellbooks@,
                    armors: armors@,
                }),
                final(stats)@,
                old(damages)@,
                final(damages)@,
                positions@,
                particles@,
                old(log),
                final(log),
            ),
            final(log).extends(old(log)),
            forall|k: int| 0 <= k < particles.len() ==> spec_some_at(positions@, #[trigger] particles[k]),
    {
        let n: usize = names.len();
        let ghost f = Fray {
            attacks: old(attacks)@,
            names: names@,
            stats: old(stats)@,
            equipped: equipped@,
            melee: melee_weapons@,
            ranged: ranged_weapons@,
            books: spellbooks@,
            armors: armors@,
        };
        let ghost mut rolls: Seq<i32> = Seq::empty();
        let mut particles: Vec<Position> = Vec::new();
        let mut i: usize = 0;
        while i < n
            invariant
                i <= n,
                n == names.len(),
                attacks.len() == n,
                stats.len() == n,
                damages.len() == n,
                equipped.len() == n,
                melee_weapons.len() == n,
                ranged_weapons.len() == n,
                spellbooks.len() == n,
                armors.len() == n,
                positions.len() == n,
                attacks@ == old(attacks)@,
                spec_attacks_valid(attacks@, names@, old(stats)@),
                spec_arms_valid(melee_weapons@, ranged_weapons@, spellbooks@),
                forall|e: int| 0 <= e < n ==> spec_mana_only(old(stats)[e], #[trigger] stats[e]),
                forall|e: int|
                    0 <= e < n && !(e < i && spec_casts(attacks@, e)) ==> #[trigger] stats[e] == old(stats)[e],
                forall|e: int| 0 <= e < n ==> spec_damage_grown(old(damages)[e], #[trigger] damages[e]),
                spec_attackers_valid(old(damages)@) ==> spec_attackers_valid(damages@),
                f == (Fray {
                    attacks: old(attacks)@,
                    names: names@,
                    stats: old(stats)@,
                    equipped: equipped@,
                    melee: melee_weapons@,
                    ranged: ranged_weapons@,
                    books: spellbooks@,
                    armors: armors@,
                }),
                old(stats).len() == n,
                old(damages).len() == n,
                rolls.len() == i,
                particles@ == spec_fray_shown(f, positions@, rolls, i as int),
                forall|e: int| 0 <= e < i && #[trigger] spec_strikes(f, e) ==> spec_roll_ok(f, e, rolls[e] as int),
                forall|e: int|
                    0 <= e < n ==> #[trigger] stats[e] == (if e < i {
                        spec_fray_stats(f, rolls, e)
                    } else {
                        old(stats)[e]
                    }),
                forall|v: int|
                    0 <= v < n ==> spec_damage_view(#[trigger] damages[v]) == spec_fray_damages(
                        f,
                        spec_damage_view(old(damages)[v]),
                        rolls,
                        v,
                        i as int,
                    ),
                spec_log_grew_by(old(log), log, spec_fray_said(f, rolls, i as int)),
                forall|k: int| 0 <= k < particles.len() ==> spec_some_at(positions@, #[trigger] particles[k]),
            decreases n - i,
        {
            let ghost stats_before = stats@;
            let ghost damages_before = damages@;
            let ghost rolls_before = rolls;
            let ghost shown_before = particles@;
            let ghost mut noted: i32 = 0;
            let ghost log_before = *log;
            let attacker: Entity = Entity { id: i };
            let queued: Option<Attack> = attacks[i];
            let own: Option<Stats> = stats[i];
            match (queued, own) {
                (Some(attack), Some(stat)) => {
                    assert(spec_mana_only(old(stats)[attack.target.id as int], stats[attack.target.id as int]));
                    let target_stats: Stats = stats[attack.target.id].unwrap();
                    if stat.hp.current > 0 && target_stats.hp.current > 0 {
                        let mut weapon_roll: Option<i32> = None;
                        let mut mana_cost: i32 = 0;
                        match attack.attack_type {
                            AttackType::Melee => {
                                let rolled: i32 = roll_melee(rng, attacker, equipped, melee_weapons);
                                proof {
                                    assert(f.equipped == equipped@ && f.melee == melee_weapons@);
                                    assert(f.attacks[i as int] == Some(attack));
                                    assert(Entity { id: (i as int) as usize } == attacker);
                                    if exists|j: int|
                                        #[trigger] spec_wields_melee(equipped@, melee_weapons@, attacker, j)
                                            && melee_weapons[j].unwrap().damage.spec_can_give(rolled as int) {
                                        let j = choose|j: int|
                                            #[trigger] spec_wields_melee(equipped@, melee_weapons@, attacker, j)
                                                && melee_weapons[j].unwrap().damage.spec_can_give(rolled as int);
                                        assert(spec_wields_melee(f.equipped, f.melee, attacker, j)
                                            && f.melee[j].unwrap().damage.spec_can_give(rolled as int));
                                    }
                                }
                                assert(spec_roll_ok(f, i as int, rolled as int));
                                weapon_roll = Some(rolled);
                            },
                            AttackType::Ranged => {
                                let rolled: i32 = roll_ranged(rng, attacker, equipped, ranged_weapons);
                                proof {
                                    assert(f.equipped == equipped@ && f.ranged == ranged_weapons@);
                                    assert(f.attacks[i as int] == Some(attack));
                                    assert(Entity { id: (i as int) as usize } == attacker);
                                    if exists|j: int|
                                        #[trigger] spec_wields_ranged(equipped@, ranged_weapons@, attacker, j)
                                            && ranged_weapons[j].unwrap().damage.spec_can_give(rolled as int) {
                                        let j = choose|j: int|
                                            #[trigger] spec_wields_ranged(equipped@, ranged_weapons@, attacker, j)
                                                && ranged_weapons[j].unwrap().damage.spec_can_give(rolled as int);
                                        assert(spec_wields_ranged(f.equipped, f.ranged, attacker, j)
                                            && f.ranged[j].unwrap().damage.spec_can_give(rolled as int));
                                    }
                                }
                                assert(spec_roll_ok(f, i as int, rolled as int));
                                weapon_roll = Some(rolled);
                            },
                            AttackType::Magic => {
                                match roll_spell(rng, &spellbooks[i], attack.spell, stat.mp.current) {
                                    SpellRoll::Cast { roll, mana_cost: cost } => {
                                        assert(spec_roll_ok(f, i as int, roll as int));
                                        weapon_roll = Some(roll);
                                        mana_cost = cost;
                                    },
                                    SpellRoll::Unknown => {
                                        match &names[i] {
                                            Some(name) => {
                                                say_unknown_spell(name, log);
                                            },
                                            None => {},
                                        }
                                    },
                                    SpellRoll::NoMana => {
                                        match &names[i] {
                                            Some(name) => {
                                                say_no_mana(name, log);
                                            },
                                            None => {},
                                        }
                                    },
                                }
                            },
                        }
                        match weapon_roll {
                            Some(roll) => {
                                proof {
                                    noted = roll;
                                    assert(stats_before[i as int] == old(stats)[i as int]);
                                    assert(spec_strikes(f, i as int));
                                    assert(spec_roll_ok(f, i as int, roll as int));
                                }
                                let defense: i32 = armor_defense_of(attack.target, equipped, armors);
                                let damage: i32 = land_blow(
                                    attacker,
                                    attack.target,
                                    roll,
                                    defense,
                                    mana_cost,
                                    names,
                                    stats,
                                    damages,
                                    log,
                                );
                                if damage > 0 {
                                    match positions[attack.target.id] {
                                        Some(p) => {
                                            let ghost shown = particles@;
                                            particles.push(p);
                                            assert forall|k: int| 0 <= k < particles.len() implies spec_some_at(
                                                positions@,
                                                #[trigger] particles[k],
                                            ) by {
                                                if k < shown.len() {
                                                    assert(particles[k] == shown[k]);
                                                } else {
                                                    assert(positions[attack.target.id as int] == Some(
                                                        particles[k],
                                                    ));
                                                }
                                            }
                                        },
                                        None => {},
                                    }
                                }
                                proof {
                                    assert(damage == spec_blow(f, i as int, roll as int));
                                    if spec_attackers_valid(old(damages)@) {
                                        assert forall|e: int| 0 <= e < damages@.len() implies ((
                                        #[trigger] damages@[e]) matches Some(d) ==> (d.attacker matches Some(a)
                                            ==> a.id < damages@.len())) by {
                                            if e != attack.target.id || damage == 0 {
                                                assert(damages@[e] == damages_before[e]);
                                            }
                                        }
                                    }
                                    if attack.attack_type != AttackType::Magic {
                                        assert(mana_cost == 0);
                                        assert(stats@ =~= stats_before);
                                    }
                                    assert forall|e: int| 0 <= e < n implies spec_damage_grown(
                                        old(damages)[e],
                                        #[trigger] damages[e],
                                    ) by {
                                        assert(spec_damage_grown(old(damages)[e], damages_before[e]));
                                        if damage != 0 && e == attack.target.id {
                                            let b = damages_before[e];
                                            let a = damages[e];
                                            assert(a is Some);
                                        }
                                    }
                                    assert forall|e: int| 0 <= e < n implies spec_mana_only(
                                        old(stats)[e],
                                        #[trigger] stats[e],
                                    ) by {
                                        assert(spec_mana_only(old(stats)[e], stats_before[e]));
                                    }
                                }
                            },
                            None => {},
                        }
                    }
                },
                _ => {},
            }
            proof {
                rolls = rolls.push(noted);
                lemma_fray_said_prefix(f, rolls_before, rolls, i as int);
                match spec_fray_line(f, rolls, i as int) {
                    Some(line) => {
                        assert(log.entries@.len() == log_before.entries@.len() + 1);
                        assert(log.entries@.last() == log.entries@[log_before.entries@.len() as int + 0]);
                        lemma_log_grew_by_line(
                            old(log),
                            &log_before,
                            log,
                            spec_fray_said(f, rolls_before, i as int),
                            line,
                        );
                    },
                    None => {
                        assert(log.entries@ == log_before.entries@);
                    },
                }
                assert(spec_log_grew_by(old(log), log, spec_fray_said(f, rolls, i + 1)));
                lemma_fray_shown_prefix(f, positions@, rolls_before, rolls, i as int);
                assert(particles@ =~= spec_fray_shown(f, positions@, rolls, i + 1));
                assert forall|e: int| 0 <= e < i + 1 && #[trigger] spec_strikes(f, e) implies spec_roll_ok(
                    f,
                    e,
                    rolls[e] as int,
                ) by {
                    if e < i {
                        assert(rolls[e] == rolls_before[e]);
                    }
                }
                assert forall|e: int| 0 <= e < n implies #[trigger] stats[e] == (if e < i + 1 {
                    spec_fray_stats(f, rolls, e)
                } else {
                    old(stats)[e]
                }) by {
                    if e < i {
                        assert(rolls[e] == rolls_before[e]);
                        assert(stats_before[e] == spec_fray_stats(f, rolls_before, e));
                    }
                }
                assert forall|v: int| 0 <= v < n implies spec_damage_view(#[trigger] damages[v])
                    == spec_fray_damages(f, spec_damage_view(old(damages)[v]), rolls, v, i + 1) by {
                    lemma_fray_damages_prefix(f, spec_damage_view(old(damages)[v]), rolls_before, rolls, v, i as int);
                    assert(spec_damage_view(damages_before[v]) == spec_fray_damages(
                        f,
                        spec_damage_view(old(damages)[v]),
                        rolls_before,
                        v,
                        i as int,
                    ));
                }
            }
            i += 1;
        }
        proof {
            assert(spec_frayed(f, rolls, stats@, old(damages)@, damages@, positions@, particles@, old(log), log));
        }
        let mut j: usize = 0;
        while j < n
            invariant
                j <= n,
                attacks.len() == n,
                forall|e: int| 0 <= e < j ==> #[trigger] attacks[e] is None,
            decreases n - j,
        {
            attacks.set(j, None);
            j += 1;
        }
        particles
    }
}

} // verus!
