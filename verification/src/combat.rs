//! The arithmetic of a blow, and the queues that carry its results to the
//! end of the tick.

use crate::component::{clamp, spec_clamp, Damage, DiceExpr, Entity, Experience, Table};
use crate::random::roll_dice;
use vstd::prelude::*;

verus! {

/// Half of what an attribute lies above or below ten, rounded towards zero.
pub open spec fn spec_attribute_modifier(attribute: int) -> int {
    if attribute >= 10 {
        (attribute - 10) / 2
    } else {
        -((10 - attribute) / 2)
    }
}

pub open spec fn spec_max0(v: int) -> int {
    if v < 0 {
        0
    } else {
        v
    }
}

/// What an attacker of the given strength brings to bear with a weapon roll.
pub open spec fn spec_raw_damage(strength: int, weapon_roll: int) -> int {
    spec_max0(spec_attribute_modifier(strength) + weapon_roll)
}

/// What a defender of the given dexterity and armour takes off a blow.
pub open spec fn spec_raw_defense(dexterity: int, armor_defense: int) -> int {
    spec_max0(spec_attribute_modifier(dexterity) + armor_defense)
}

/// The damage a blow inflicts: never negative.
pub open spec fn spec_damage(strength: int, weapon_roll: int, dexterity: int, armor_defense: int) -> int {
    spec_max0(spec_raw_damage(strength, weapon_roll) - spec_raw_defense(dexterity, armor_defense))
}

/// Half of what an attribute lies above or below ten, rounded towards zero.
pub fn attribute_modifier(attribute: i32) -> (m: i32)
    ensures
        m == spec_attribute_modifier(attribute as int),
{
    ((attribute as i64 - 10) / 2) as i32
}

/// The damage that a blow inflicts, held to what an `i32` can carry.
pub fn resolve_damage(strength: i32, weapon_roll: i32, dexterity: i32, armor_defense: i32) -> (damage: i32)
    ensures
        damage == spec_clamp(
            spec_damage(strength as int, weapon_roll as int, dexterity as int, armor_defense as int),
        ),
        damage >= 0,
{
    let attack: i64 = attribute_modifier(strength) as i64 + weapon_roll as i64;
    let raw_damage: i64 = if attack < 0 { 0 } else { attack };
    let guard: i64 = attribute_modifier(dexterity) as i64 + armor_defense as i64;
    let raw_defense: i64 = if guard < 0 { 0 } else { guard };
    let inflicted: i64 = raw_damage - raw_defense;
    if inflicted < 0 {
        0
    } else {
        clamp(inflicted as i128)
    }
}

/// Resolved damage is never negative, whatever the attributes, the roll and
/// the armour.
pub proof fn lemma_damage_not_negative(strength: int, weapon_roll: int, dexterity: int, armor_defense: int)
    ensures
        spec_damage(strength, weapon_roll, dexterity, armor_defense) >= 0,
        spec_clamp(spec_damage(strength, weapon_roll, dexterity, armor_defense)) >= 0,
{
}

impl DiceExpr {
    /// The expression can be rolled: there are no dice to throw, or each
    /// has at least one side and the highest throw of them all can be
    /// written as an `i32`, as can the number of sides plus one.
    pub open spec fn wf(self) -> bool {
        self.dice_count <= 0 || (1 <= self.dice_sides < i32::MAX && self.dice_count * self.dice_sides <= i32::MAX)
    }

    /// What the dice can show in all: nothing where there are no dice, and
    /// otherwise from one for each up to the number of sides for each.
    pub open spec fn spec_can_show(self, dice: int) -> bool {
        if self.dice_count <= 0 {
            dice == 0
        } else {
            self.dice_count <= dice <= self.dice_count * self.dice_sides
        }
    }

    /// What the expression is worth when the dice show `dice` in all.
    pub open spec fn spec_total(self, dice: int) -> int {
        spec_clamp(dice + self.modifier)
    }

    /// `total` is a value that a roll of the expression can give.
    pub open spec fn spec_can_give(self, total: int) -> bool {
        exists|dice: int| self.spec_can_show(dice) && total == #[trigger] self.spec_total(dice)
    }

    pub fn is_wf(&self) -> (ok: bool)
        ensures
            ok == self.wf(),
    {
        if self.dice_count <= 0 {
            return true;
        }
        if self.dice_sides < 1 || self.dice_sides == i32::MAX {
            return false;
        }
        assert(0 < self.dice_count * self.dice_sides <= 0x7fff_ffff * 0x7fff_ffff) by (nonlinear_arith)
            requires
                0 < self.dice_count <= 0x7fff_ffff,
                0 < self.dice_sides <= 0x7fff_ffff,
        ;
        self.dice_count as i64 * self.dice_sides as i64 <= i32::MAX as i64
    }

    /// What the expression is worth when the dice show `dice` in all.
    pub fn total(&self, dice: i32) -> (total: i32)
        ensures
            total == self.spec_total(dice as int),
    {
        clamp(dice as i128 + self.modifier as i128)
    }

    /// Rolls the dice and adds the modifier.
    pub fn roll(&self, rng: &mut rltk::RandomNumberGenerator) -> (total: i32)
        requires
            self.wf(),
        ensures
            self.spec_can_give(total as int),
    {
        let dice: i32 = roll_dice(rng, self.dice_count, self.dice_sides);
        assert(self.spec_can_show(dice as int));
        let total: i32 = self.total(dice);
        assert(total == self.spec_total(dice as int));
        total
    }
}

/// The queue once `amount` has been added for a victim: appended to the
/// victim's pending amounts, or, where nothing was pending, a new record
/// that names `attacker`.
pub open spec fn spec_new_damage(pending: Option<Damage>, attacker: Option<Entity>, amount: i32) -> (
    Seq<i32>,
    Option<Entity>,
) {
    match pending {
        Some(d) => (d.amount@.push(amount), d.attacker),
        None => (seq![amount], attacker),
    }
}

/// The amounts and the attacker of a pending damage record.
pub open spec fn spec_damage_view(pending: Option<Damage>) -> Option<(Seq<i32>, Option<Entity>)> {
    match pending {
        Some(d) => Some((d.amount@, d.attacker)),
        None => None,
    }
}

/// The amounts of a pending experience record.
pub open spec fn spec_experience_view(pending: Option<Experience>) -> Option<Seq<i32>> {
    match pending {
        Some(x) => Some(x.amount@),
        None => None,
    }
}

impl Damage {
    /// Queues `amount` of damage against `victim`. The attacker is recorded
    /// only where nothing was pending against the victim yet.
    pub fn new_damage(store: &mut Table<Damage>, attacker: Option<Entity>, victim: Entity, amount: i32)
        requires
            victim.id < old(store).len(),
        ensures
            final(store).len() == old(store).len(),
            spec_damage_view(final(store)[victim.id as int]) == Some(
                spec_new_damage(old(store)[victim.id as int], attacker, amount),
            ),
            forall|e: int|
                0 <= e < old(store).len() && e != victim.id ==> #[trigger] final(store)[e] == old(store)[e],
    {
        let slot: &mut Option<Damage> = &mut store[victim.id];
        match slot {
            Some(d) => {
                d.amount.push(amount);
            },
            None => {
                let mut amounts: Vec<i32> = Vec::new();
                amounts.push(amount);
                *slot = Some(Damage { amount: amounts, attacker });
            },
        }
    }
}

impl Experience {
    /// Queues `amount` of experience for `recipient`.
    pub fn new(store: &mut Table<Experience>, recipient: Entity, amount: i32)
        requires
            recipient.id < old(store).len(),
        ensures
            final(store).len() == old(store).len(),
            spec_experience_view(final(store)[recipient.id as int]) == Some(
                match old(store)[recipient.id as int] {
                    Some(x) => x.amount@.push(amount),
                    None => seq![amount],
                },
            ),
            forall|e: int|
                0 <= e < old(store).len() && e != recipient.id ==> #[trigger] final(store)[e] == old(
                    store,
                )[e],
    {
        let slot: &mut Option<Experience> = &mut store[recipient.id];
        match slot {
            Some(x) => {
                x.amount.push(amount);
            },
            None => {
                let mut amounts: Vec<i32> = Vec::new();
                amounts.push(amount);
                *slot = Some(Experience { amount: amounts });
            },
        }
    }
}

} // verus!
