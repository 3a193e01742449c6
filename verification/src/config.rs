//! Content definitions: what an item or a monster is made of, as the
//! spawner reads it, and the readers for the notations that content files
//! use for colours.

use crate::component::{DamageType, DiceExpr, EquipmentSlot, Pool, Spell};
use crate::logbook::Tint;
use vstd::prelude::*;
use vstd::string::*;

verus! {

/// How an entity of the kind is drawn.
#[derive(Clone, Copy, Debug)]
pub struct RenderableConfig {
    pub glyph: char,
    pub fg: Tint,
    pub bg: Tint,
    pub index: u8,
}

/// From which floor on the kind is found, and how often compared to others.
#[derive(Clone, Copy, Debug)]
pub struct SpawnConfig {
    pub min_floor: i32,
    pub base_weight: i32,
}

#[derive(Clone, Copy, Debug)]
pub struct PotionConfig {
    pub heal_amount: i32,
}

#[derive(Clone, Copy, Debug, PartialEq, Eq, Structural)]
pub enum ScrollType {
    MagicMapper,
}

#[derive(Clone, Copy, Debug)]
pub struct ScrollConfig {
    pub scroll_type: ScrollType,
}

#[derive(Clone, Copy, Debug)]
pub struct EquippableConfig {
    pub slot: EquipmentSlot,
}

#[derive(Clone, Copy, Debug)]
pub struct MeleeWeaponConfig {
    pub damage: DiceExpr,
    pub damage_type: DamageType,
}

#[derive(Clone, Copy, Debug)]
pub struct RangedWeaponConfig {
    pub damage: DiceExpr,
    pub damage_type: DamageType,
    pub range: i32,
}

#[derive(Clone, Copy, Debug)]
pub struct MagicWeaponConfig {
    pub range: i32,
}

#[derive(Clone, Copy, Debug)]
pub struct ArmorConfig {
    pub defense: i32,
}

#[derive(Clone, Copy, Debug)]
pub struct TriggerableConfig {
    pub damage: i32,
}

#[derive(Clone, Copy, Debug)]
pub struct ViewshedConfig {
    pub range: i32,
}

#[derive(Clone, Copy, Debug)]
pub struct StatsConfig {
    pub hp: Pool,
    pub mp: Pool,
    pub exp: Pool,
    pub level: i32,
    pub strength: i32,
    pub dexterity: i32,
    pub constitution: i32,
    pub intelligence: i32,
    pub wisdom: i32,
    pub charisma: i32,
}

/// A kind of item.
#[derive(Debug)]
pub struct ItemConfig {
    pub name: String,
    pub description: String,
    pub base_value: i32,
    pub renderable: Option<RenderableConfig>,
    pub spawn: Option<SpawnConfig>,
    pub potion: Option<PotionConfig>,
    pub scroll: Option<ScrollConfig>,
    pub equippable: Option<EquippableConfig>,
    pub melee_weapon: Option<MeleeWeaponConfig>,
    pub ranged_weapon: Option<RangedWeaponConfig>,
    pub magic_weapon: Option<MagicWeaponConfig>,
    pub armor: Option<ArmorConfig>,
    pub hidden: Option<bool>,
    pub triggerable: Option<TriggerableConfig>,
}

/// A kind of monster.
#[derive(Debug)]
pub struct MonsterConfig {
    pub name: String,
    pub description: String,
    pub renderable: Option<RenderableConfig>,
    pub spawn: Option<SpawnConfig>,
    pub viewshed: Option<ViewshedConfig>,
    pub stats: Option<StatsConfig>,
    pub spells: Vec<Spell>,
}

/// Why a text is no colour.
#[derive(Clone, Copy, Debug, PartialEq, Eq, Structural)]
pub enum HexError {
    MissingHash,
    BadLength,
    BadRed,
    BadGreen,
    BadBlue,
}

/// What a hexadecimal digit is worth, or nothing for any other byte.
pub open spec fn spec_hex_digit(b: u8) -> Option<int> {
    if 48 <= b <= 57 {
        Some(b - 48)
    } else if 97 <= b <= 102 {
        Some(b - 87)
    } else if 65 <= b <= 70 {
        Some(b - 55)
    } else {
        None
    }
}

/// What two bytes write as a colour channel: two hexadecimal digits, or a
/// plus sign and one.
pub open spec fn spec_channel(high: u8, low: u8) -> Option<int> {
    match (spec_hex_digit(high), spec_hex_digit(low)) {
        (Some(h), Some(l)) => Some(16 * h + l),
        (None, Some(l)) => if high == 43 {
            Some(l)
        } else {
            None
        },
        _ => None,
    }
}

/// The colour that a text of the form `#rrggbb` names.
pub open spec fn spec_color_from_hex(s: Seq<u8>) -> Result<Tint, HexError> {
    if s.len() == 0 || s[0] != 35 {
        Err(HexError::MissingHash)
    } else if s.len() != 7 {
        Err(HexError::BadLength)
    } else {
        match spec_channel(s[1], s[2]) {
            None => Err(HexError::BadRed),
            Some(r) => match spec_channel(s[3], s[4]) {
                None => Err(HexError::BadGreen),
                Some(g) => match spec_channel(s[5], s[6]) {
                    None => Err(HexError::BadBlue),
                    Some(b) => Ok(Tint::Rgb { r: r as u8, g: g as u8, b: b as u8 }),
                },
            },
        }
    }
}

fn hex_digit(b: u8) -> (value: Option<u8>)
    ensures
        match value {
            Some(v) => spec_hex_digit(b) == Some(v as int) && v < 16,
            None => spec_hex_digit(b) is None,
        },
{
    if 48 <= b && b <= 57 {
        Some(b - 48)
    } else if 97 <= b && b <= 102 {
        Some(b - 87)
    } else if 65 <= b && b <= 70 {
        Some(b - 55)
    } else {
        None
    }
}

fn channel(high: u8, low: u8) -> (value: Option<u8>)
    ensures
        match value {
            Some(v) => spec_channel(high, low) == Some(v as int),
            None => spec_channel(high, low) is None,
        },
{
    match (hex_digit(high), hex_digit(low)) {
        (Some(h), Some(l)) => Some(16 * h + l),
        (None, Some(l)) => if high == 43 {
            Some(l)
        } else {
            None
        },
        _ => None,
    }
}

/// Reads a colour from the bytes of a text of the form `#rrggbb`.
pub fn color_from_hex_bytes(s: &[u8]) -> (color: Result<Tint, HexError>)
    ensures
        color == spec_color_from_hex(s@),
{
    if s.len() == 0 || s[0] != 35 {
        return Err(HexError::MissingHash);
    }
    if s.len() != 7 {
        return Err(HexError::BadLength);
    }
    let r: u8 = match channel(s[1], s[2]) {
        Some(v) => v,
        None => {
            return Err(HexError::BadRed);
        },
    };
    let g: u8 = match channel(s[3], s[4]) {
        Some(v) => v,
        None => {
            return Err(HexError::BadGreen);
        },
    };
    let b: u8 = match channel(s[5], s[6]) {
        Some(v) => v,
        None => {
            return Err(HexError::BadBlue);
        },
    };
    Ok(Tint::Rgb { r, g, b })
}

/// Reads a colour from a text of the form `#rrggbb`.
pub fn color_from_hex(hex: &str) -> (color: Result<Tint, HexError>)
    ensures
        color == spec_color_from_hex(hex.spec_bytes()),
{
    color_from_hex_bytes(hex.as_bytes())
}

} // verus!
