//! Entities and the components that can be attached to them.

use crate::geometry::Position;
use crate::logbook::Tint;
use vstd::prelude::*;

verus! {

/// An opaque identifier of a simulated thing: the index of its row in every
/// component table.
#[derive(Clone, Copy, Debug, PartialEq, Eq, Structural, Hash)]
pub struct Entity {
    pub id: usize,
}

/// A column of the entity store: one optional component per entity.
pub type Table<T> = Vec<Option<T>>;

/// A column of markers: whether each entity carries the marker.
pub type Flags = Vec<bool>;

/// What an entity is called in the narration and in inventories.
#[derive(Debug)]
pub struct Name {
    pub name: String,
}

/// A quantity with a current value and a ceiling: health, mana, experience.
#[derive(Clone, Copy, Debug, PartialEq, Eq, Structural)]
pub struct Pool {
    pub current: i32,
    pub max: i32,
}

/// Pools, level and the six attributes of a creature.
#[derive(Clone, Copy, Debug, PartialEq, Eq, Structural)]
pub struct Stats {
    pub hp: Pool,
    pub mp: Pool,
    pub exp: Pool,
    pub level: i32,
    pub strength: i32,
    pub dexterity: i32,
    pub constitution: i32,
    pub intelligence: i32,
    pub wisdom: i32,
    pub charisma: i32,
}

/// The tiles an entity sees, recomputed every tick, and how far it sees.
#[derive(Debug)]
pub struct Viewshed {
    pub visible_tiles: Vec<Position>,
    pub range: i32,
}

#[derive(Clone, Copy, Debug, PartialEq, Eq, Structural)]
pub enum EquipmentSlot {
    Weapon,
    Shield,
    Head,
    Chest,
    Hands,
    Legs,
    Feet,
}

/// An item that can be worn or wielded in `slot`.
#[derive(Clone, Copy, Debug, PartialEq, Eq, Structural)]
pub struct Equippable {
    pub slot: EquipmentSlot,
}

/// A link from an item to whoever wears it, by identifier only.
#[derive(Clone, Copy, Debug, PartialEq, Eq, Structural)]
pub struct Equipped {
    pub slot: EquipmentSlot,
    pub owner: Entity,
}

/// `dice_count` dice of `dice_sides` sides plus `modifier`.
#[derive(Clone, Copy, Debug, PartialEq, Eq, Structural)]
pub struct DiceExpr {
    pub dice_count: i32,
    pub dice_sides: i32,
    pub modifier: i32,
}

#[derive(Clone, Copy, Debug, PartialEq, Eq, Structural)]
pub enum DamageType {
    Physical,
    Magical,
}

#[derive(Clone, Copy, Debug, PartialEq, Eq, Structural)]
pub struct MeleeWeapon {
    pub damage: DiceExpr,
    pub damage_type: DamageType,
}

#[derive(Clone, Copy, Debug, PartialEq, Eq, Structural)]
pub struct RangedWeapon {
    pub damage: DiceExpr,
    pub damage_type: DamageType,
    pub range: i32,
    pub target: Option<Entity>,
}

/// A focus for spells: how far it reaches and what it is aimed at.
#[derive(Clone, Copy, Debug, PartialEq, Eq, Structural)]
pub struct MagicWeapon {
    pub range: i32,
    pub target: Option<Entity>,
}

#[derive(Clone, Copy, Debug, PartialEq, Eq, Structural)]
pub struct Armor {
    pub defense: i32,
}

/// A spell as the simulation reads it.
#[derive(Clone, Copy, Debug, PartialEq, Eq, Structural)]
pub struct Spell {
    pub mana_cost: i32,
    pub damage: DiceExpr,
    pub damage_type: DamageType,
    pub range: i32,
}

/// The spells an entity knows.
#[derive(Debug)]
pub struct Spellbook {
    pub spells: Vec<Spell>,
}

#[derive(Clone, Copy, Debug, PartialEq, Eq, Structural)]
pub enum AttackType {
    Melee,
    Ranged,
    Magic,
}

/// The wish to attack `target` this tick. `spell` is the place of the
/// invoked spell in the attacker's spellbook, for a magic attack.
#[derive(Clone, Copy, Debug, PartialEq, Eq, Structural)]
pub struct Attack {
    pub attack_type: AttackType,
    pub target: Entity,
    pub spell: Option<usize>,
}

/// Damage waiting to be applied to a victim, with who dealt the first of it.
#[derive(Debug)]
pub struct Damage {
    pub amount: Vec<i32>,
    pub attacker: Option<Entity>,
}

/// Experience waiting to be awarded.
#[derive(Debug)]
pub struct Experience {
    pub amount: Vec<i32>,
}

/// When a short-lived visual was made and how long it lasts, in
/// milliseconds of wall-clock time.
#[derive(Clone, Copy, Debug, PartialEq, Eq, Structural)]
pub struct Lifetime {
    pub created_at: u128,
    pub lifetime_ms: u128,
}

#[derive(Clone, Copy, Debug, PartialEq, Eq, Structural)]
pub struct Potion {
    pub heal_amount: i32,
}

#[derive(Clone, Copy, Debug, PartialEq, Eq, Structural)]
pub struct Triggerable {
    pub damage: i32,
}

#[derive(Clone, Copy, Debug, PartialEq, Eq, Structural)]
pub struct InBackpack {
    pub owner: Entity,
}

#[derive(Clone, Copy, Debug, PartialEq, Eq, Structural)]
pub struct WantsToPickupItem {
    pub collected_by: Entity,
    pub item: Entity,
}

#[derive(Clone, Copy, Debug, PartialEq, Eq, Structural)]
pub struct WantsToConsumeItem {
    pub item: Entity,
}

/// How an entity is drawn: its glyph, its colours, and the layer it is
/// drawn on.
#[derive(Clone, Copy, Debug, PartialEq, Eq, Structural)]
pub struct Renderable {
    pub glyph: char,
    pub fg: Tint,
    pub bg: Tint,
    pub index: u8,
}

/// What makes a thing an item: its description and what it is worth.
#[derive(Debug)]
pub struct Item {
    pub description: String,
    pub base_value: i32,
}

/// Where an entity stood on a floor that the player has left.
#[derive(Clone, Copy, Debug, PartialEq, Eq, Structural)]
pub struct OtherLevelPosition {
    pub index: u32,
    pub x: i32,
    pub y: i32,
}

/// What a vendor has for sale.
#[derive(Debug)]
pub struct Vendor {
    pub items: Vec<Entity>,
}

/// The sum of the amounts, as a mathematical integer.
pub open spec fn spec_sum(amounts: Seq<i32>) -> int
    decreases amounts.len(),
{
    if amounts.len() == 0 {
        0
    } else {
        spec_sum(amounts.drop_last()) + amounts.last()
    }
}

/// `v` brought into the range of an `i32`.
pub open spec fn spec_clamp(v: int) -> int {
    if v < i32::MIN {
        i32::MIN as int
    } else if v > i32::MAX {
        i32::MAX as int
    } else {
        v
    }
}

/// `v` brought into the range of an `i32`.
pub fn clamp(v: i128) -> (r: i32)
    ensures
        r == spec_clamp(v as int),
{
    if v < i32::MIN as i128 {
        i32::MIN
    } else if v > i32::MAX as i128 {
        i32::MAX
    } else {
        v as i32
    }
}

/// The sum of the amounts is bounded by their number.
pub proof fn lemma_sum_bounds(amounts: Seq<i32>)
    ensures
        -0x8000_0000 * amounts.len() <= spec_sum(amounts) <= 0x7fff_ffff * amounts.len(),
    decreases amounts.len(),
{
    if amounts.len() > 0 {
        lemma_sum_bounds(amounts.drop_last());
    }
}

/// The sum of the queued amounts.
pub fn sum(amounts: &Vec<i32>) -> (total: i128)
    ensures
        total == spec_sum(amounts@),
        -0x8000_0000_0000_0000_0000_0000 <= total <= 0x8000_0000_0000_0000_0000_0000,
{
    let mut total: i128 = 0;
    let mut i: usize = 0;
    while i < amounts.len()
        invariant
            i <= amounts.len(),
            total == spec_sum(amounts@.take(i as int)),
            -0x8000_0000 * i <= total <= 0x7fff_ffff * i,
        decreases amounts.len() - i,
    {
        proof {
            assert(amounts@.take(i + 1).drop_last() =~= amounts@.take(i as int));
            lemma_sum_bounds(amounts@.take(i + 1));
        }
        total = total + amounts[i] as i128;
        i += 1;
    }
    proof {
        assert(amounts@.take(amounts.len() as int) =~= amounts@);
        assert(i <= 0xffff_ffff_ffff_ffff);
    }
    total
}

} // verus!
