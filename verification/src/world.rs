//! The entity store: one table per component, all of one length, with an
//! entity's identifier as the index of its row in each.

use crate::component::{
    Armor, Attack, Damage, Entity, Equippable, Equipped, Experience, Flags, InBackpack, Item, Lifetime,
    MagicWeapon, MeleeWeapon, Name, OtherLevelPosition, Potion, RangedWeapon, Renderable, Spellbook, Stats, Table,
    Triggerable, Vendor, Viewshed, WantsToConsumeItem, WantsToPickupItem,
};
use crate::geometry::Position;
use crate::inventory::Inventory;
use vstd::prelude::*;

verus! {

/// Every entity and what is attached to it. Rows are never reused: an
/// entity that has been removed leaves an empty row behind.
pub struct World {
    /// Whether the entity exists.
    pub alive: Flags,
    pub names: Table<Name>,
    pub positions: Table<Position>,
    pub other_level_positions: Table<OtherLevelPosition>,
    pub renderables: Table<Renderable>,
    /// Marks the player.
    pub players: Flags,
    /// Marks what pursues the player.
    pub monsters: Flags,
    /// Marks what blocks the tile it stands on.
    pub blockers: Flags,
    /// Marks what is not drawn until it is spotted or goes off.
    pub hidden: Flags,
    /// Marks the scrolls that reveal the map.
    pub magic_mappers: Flags,
    pub viewsheds: Table<Viewshed>,
    pub stats: Table<Stats>,
    pub inventories: Table<Inventory>,
    pub items: Table<Item>,
    pub potions: Table<Potion>,
    pub equippables: Table<Equippable>,
    pub equipped: Table<Equipped>,
    pub melee_weapons: Table<MeleeWeapon>,
    pub ranged_weapons: Table<RangedWeapon>,
    pub magic_weapons: Table<MagicWeapon>,
    pub armors: Table<Armor>,
    pub spellbooks: Table<Spellbook>,
    pub backpacks: Table<InBackpack>,
    pub wants_pickup: Table<WantsToPickupItem>,
    pub wants_consume: Table<WantsToConsumeItem>,
    pub attacks: Table<Attack>,
    pub damages: Table<Damage>,
    pub experiences: Table<Experience>,
    pub lifetimes: Table<Lifetime>,
    pub triggerables: Table<Triggerable>,
    pub vendors: Table<Vendor>,
    /// The entity that the player steers, once it has been made.
    pub player: Option<Entity>,
}

impl World {
    /// Number of rows: one more than the highest identifier handed out.
    pub open spec fn spec_len(&self) -> int {
        self.alive.len() as int
    }

    /// Every table has one row for each entity.
    pub open spec fn wf(&self) -> bool {
        &&& self.names.len() == self.alive.len()
        &&& self.positions.len() == self.alive.len()
        &&& self.other_level_positions.len() == self.alive.len()
        &&& self.renderables.len() == self.alive.len()
        &&& self.players.len() == self.alive.len()
        &&& self.monsters.len() == self.alive.len()
        &&& self.blockers.len() == self.alive.len()
        &&& self.hidden.len() == self.alive.len()
        &&& self.magic_mappers.len() == self.alive.len()
        &&& self.viewsheds.len() == self.alive.len()
        &&& self.stats.len() == self.alive.len()
        &&& self.inventories.len() == self.alive.len()
        &&& self.items.len() == self.alive.len()
        &&& self.potions.len() == self.alive.len()
        &&& self.equippables.len() == self.alive.len()
        &&& self.equipped.len() == self.alive.len()
        &&& self.melee_weapons.len() == self.alive.len()
        &&& self.ranged_weapons.len() == self.alive.len()
        &&& self.magic_weapons.len() == self.alive.len()
        &&& self.armors.len() == self.alive.len()
        &&& self.spellbooks.len() == self.alive.len()
        &&& self.backpacks.len() == self.alive.len()
        &&& self.wants_pickup.len() == self.alive.len()
        &&& self.wants_consume.len() == self.alive.len()
        &&& self.attacks.len() == self.alive.len()
        &&& self.damages.len() == self.alive.len()
        &&& self.experiences.len() == self.alive.len()
        &&& self.lifetimes.len() == self.alive.len()
        &&& self.triggerables.len() == self.alive.len()
        &&& self.vendors.len() == self.alive.len()
    }

    /// Row `j` holds nothing and is not alive.
    pub open spec fn spec_row_empty(&self, j: int) -> bool {
        &&& !self.alive[j]
        &&& self.names[j] is None
        &&& self.positions[j] is None
        &&& self.other_level_positions[j] is None
        &&& self.renderables[j] is None
        &&& !self.players[j]
        &&& !self.monsters[j]
        &&& !self.blockers[j]
        &&& !self.hidden[j]
        &&& !self.magic_mappers[j]
        &&& self.viewsheds[j] is None
        &&& self.stats[j] is None
        &&& self.inventories[j] is None
        &&& self.items[j] is None
        &&& self.potions[j] is None
        &&& self.equippables[j] is None
        &&& self.equipped[j] is None
        &&& self.melee_weapons[j] is None
        &&& self.ranged_weapons[j] is None
        &&& self.magic_weapons[j] is None
        &&& self.armors[j] is None
        &&& self.spellbooks[j] is None
        &&& self.backpacks[j] is None
        &&& self.wants_pickup[j] is None
        &&& self.wants_consume[j] is None
        &&& self.attacks[j] is None
        &&& self.damages[j] is None
        &&& self.experiences[j] is None
        &&& self.lifetimes[j] is None
        &&& self.triggerables[j] is None
        &&& self.vendors[j] is None
    }

    /// Nothing is queued for or by entity `j`.
    pub open spec fn spec_row_quiet(&self, j: int) -> bool {
        &&& self.attacks[j] is None
        &&& self.damages[j] is None
        &&& self.experiences[j] is None
        &&& self.wants_pickup[j] is None
        &&& self.wants_consume[j] is None
    }

    /// Row `j` is the same in `self` and in `before`.
    pub open spec fn spec_row_same(&self, before: &World, j: int) -> bool {
        &&& self.alive[j] == before.alive[j]
        &&& self.names[j] == before.names[j]
        &&& self.positions[j] == before.positions[j]
        &&& self.other_level_positions[j] == before.other_level_positions[j]
        &&& self.renderables[j] == before.renderables[j]
        &&& self.players[j] == before.players[j]
        &&& self.monsters[j] == before.monsters[j]
        &&& self.blockers[j] == before.blockers[j]
        &&& self.hidden[j] == before.hidden[j]
        &&& self.magic_mappers[j] == before.magic_mappers[j]
        &&& self.viewsheds[j] == before.viewsheds[j]
        &&& self.stats[j] == before.stats[j]
        &&& self.inventories[j] == before.inventories[j]
        &&& self.items[j] == before.items[j]
        &&& self.potions[j] == before.potions[j]
        &&& self.equippables[j] == before.equippables[j]
        &&& self.equipped[j] == before.equipped[j]
        &&& self.melee_weapons[j] == before.melee_weapons[j]
        &&& self.ranged_weapons[j] == before.ranged_weapons[j]
        &&& self.magic_weapons[j] == before.magic_weapons[j]
        &&& self.armors[j] == before.armors[j]
        &&& self.spellbooks[j] == before.spellbooks[j]
        &&& self.backpacks[j] == before.backpacks[j]
        &&& self.wants_pickup[j] == before.wants_pickup[j]
        &&& self.wants_consume[j] == before.wants_consume[j]
        &&& self.attacks[j] == before.attacks[j]
        &&& self.damages[j] == before.damages[j]
        &&& self.experiences[j] == before.experiences[j]
        &&& self.lifetimes[j] == before.lifetimes[j]
        &&& self.triggerables[j] == before.triggerables[j]
        &&& self.vendors[j] == before.vendors[j]
    }

    /// Row `j` is the same in `self` and in `before`, but perhaps for where
    /// the entity stands.
    pub open spec fn spec_row_same_but_position(&self, before: &World, j: int) -> bool {
        &&& self.alive[j] == before.alive[j]
        &&& self.names[j] == before.names[j]
        &&& self.other_level_positions[j] == before.other_level_positions[j]
        &&& self.renderables[j] == before.renderables[j]
        &&& self.players[j] == before.players[j]
        &&& self.monsters[j] == before.monsters[j]
        &&& self.blockers[j] == before.blockers[j]
        &&& self.hidden[j] == before.hidden[j]
        &&& self.magic_mappers[j] == before.magic_mappers[j]
        &&& self.viewsheds[j] == before.viewsheds[j]
        &&& self.stats[j] == before.stats[j]
        &&& self.inventories[j] == before.inventories[j]
        &&& self.items[j] == before.items[j]
        &&& self.potions[j] == before.potions[j]
        &&& self.equippables[j] == before.equippables[j]
        &&& self.equipped[j] == before.equipped[j]
        &&& self.melee_weapons[j] == before.melee_weapons[j]
        &&& self.ranged_weapons[j] == before.ranged_weapons[j]
        &&& self.magic_weapons[j] == before.magic_weapons[j]
        &&& self.armors[j] == before.armors[j]
        &&& self.spellbooks[j] == before.spellbooks[j]
        &&& self.backpacks[j] == before.backpacks[j]
        &&& self.wants_pickup[j] == before.wants_pickup[j]
        &&& self.wants_consume[j] == before.wants_consume[j]
        &&& self.attacks[j] == before.attacks[j]
        &&& self.damages[j] == before.damages[j]
        &&& self.experiences[j] == before.experiences[j]
        &&& self.lifetimes[j] == before.lifetimes[j]
        &&& self.triggerables[j] == before.triggerables[j]
        &&& self.vendors[j] == before.vendors[j]
    }

    /// Row `j` is the same in `self` and in `before`, but perhaps for what
    /// the entity sells.
    pub open spec fn spec_row_same_but_wares(&self, before: &World, j: int) -> bool {
        &&& self.alive[j] == before.alive[j]
        &&& self.names[j] == before.names[j]
        &&& self.positions[j] == before.positions[j]
        &&& self.other_level_positions[j] == before.other_level_positions[j]
        &&& self.renderables[j] == before.renderables[j]
        &&& self.players[j] == before.players[j]
        &&& self.monsters[j] == before.monsters[j]
        &&& self.blockers[j] == before.blockers[j]
        &&& self.hidden[j] == before.hidden[j]
        &&& self.magic_mappers[j] == before.magic_mappers[j]
        &&& self.viewsheds[j] == before.viewsheds[j]
        &&& self.stats[j] == before.stats[j]
        &&& self.inventories[j] == before.inventories[j]
        &&& self.items[j] == before.items[j]
        &&& self.potions[j] == before.potions[j]
        &&& self.equippables[j] == before.equippables[j]
        &&& self.equipped[j] == before.equipped[j]
        &&& self.melee_weapons[j] == before.melee_weapons[j]
        &&& self.ranged_weapons[j] == before.ranged_weapons[j]
        &&& self.magic_weapons[j] == before.magic_weapons[j]
        &&& self.armors[j] == before.armors[j]
        &&& self.spellbooks[j] == before.spellbooks[j]
        &&& self.backpacks[j] == before.backpacks[j]
        &&& self.wants_pickup[j] == before.wants_pickup[j]
        &&& self.wants_consume[j] == before.wants_consume[j]
        &&& self.attacks[j] == before.attacks[j]
        &&& self.damages[j] == before.damages[j]
        &&& self.experiences[j] == before.experiences[j]
        &&& self.lifetimes[j] == before.lifetimes[j]
        &&& self.triggerables[j] == before.triggerables[j]
    }

    /// A store without entities.
    pub fn new() -> (world: World)
        ensures
            world.wf(),
            world.spec_len() == 0,
            world.player is None,
    {
        World {
            alive: Vec::new(),
            names: Vec::new(),
            positions: Vec::new(),
            other_level_positions: Vec::new(),
            renderables: Vec::new(),
            players: Vec::new(),
            monsters: Vec::new(),
            blockers: Vec::new(),
            hidden: Vec::new(),
            magic_mappers: Vec::new(),
            viewsheds: Vec::new(),
            stats: Vec::new(),
            inventories: Vec::new(),
            items: Vec::new(),
            potions: Vec::new(),
            equippables: Vec::new(),
            equipped: Vec::new(),
            melee_weapons: Vec::new(),
            ranged_weapons: Vec::new(),
            magic_weapons: Vec::new(),
            armors: Vec::new(),
            spellbooks: Vec::new(),
            backpacks: Vec::new(),
            wants_pickup: Vec::new(),
            wants_consume: Vec::new(),
            attacks: Vec::new(),
            damages: Vec::new(),
            experiences: Vec::new(),
            lifetimes: Vec::new(),
            triggerables: Vec::new(),
            vendors: Vec::new(),
            player: None,
        }
    }

    /// Number of rows.
    pub fn len(&self) -> (n: usize)
        ensures
            n == self.spec_len(),
    {
        self.alive.len()
    }

    /// Whether `e` is an entity that exists.
    pub fn is_alive(&self, e: Entity) -> (alive: bool)
        ensures
            alive == (e.id < self.alive.len() && self.alive[e.id as int]),
    {
        e.id < self.alive.len() && self.alive[e.id]
    }

    /// Makes an entity with nothing attached to it.
    pub fn create_entity(&mut self) -> (e: Entity)
        requires
            old(self).wf(),
        ensures
            final(self).wf(),
            final(self).spec_len() == old(self).spec_len() + 1,
            e.id == old(self).spec_len(),
            final(self).player == old(self).player,
            final(self).alive[e.id as int],
            final(self).names[e.id as int] is None,
            final(self).positions[e.id as int] is None,
            final(self).other_level_positions[e.id as int] is None,
            final(self).renderables[e.id as int] is None,
            !final(self).players[e.id as int],
            !final(self).monsters[e.id as int],
            !final(self).blockers[e.id as int],
            !final(self).hidden[e.id as int],
            !final(self).magic_mappers[e.id as int],
            final(self).viewsheds[e.id as int] is None,
            final(self).stats[e.id as int] is None,
            final(self).inventories[e.id as int] is None,
            final(self).items[e.id as int] is None,
            final(self).potions[e.id as int] is None,
            final(self).equippables[e.id as int] is None,
            final(self).equipped[e.id as int] is None,
            final(self).melee_weapons[e.id as int] is None,
            final(self).ranged_weapons[e.id as int] is None,
            final(self).magic_weapons[e.id as int] is None,
            final(self).armors[e.id as int] is None,
            final(self).spellbooks[e.id as int] is None,
            final(self).backpacks[e.id as int] is None,
            final(self).wants_pickup[e.id as int] is None,
            final(self).wants_consume[e.id as int] is None,
            final(self).attacks[e.id as int] is None,
            final(self).damages[e.id as int] is None,
            final(self).experiences[e.id as int] is None,
            final(self).lifetimes[e.id as int] is None,
            final(self).triggerables[e.id as int] is None,
            final(self).vendors[e.id as int] is None,
            forall|j: int| 0 <= j < old(self).spec_len() ==> #[trigger] final(self).spec_row_same(old(self), j),
    {
        let id: usize = self.alive.len();
        self.alive.push(true);
        self.names.push(None);
        self.positions.push(None);
        self.other_level_positions.push(None);
        self.renderables.push(None);
        self.players.push(false);
        self.monsters.push(false);
        self.blockers.push(false);
        self.hidden.push(false);
        self.magic_mappers.push(false);
        self.viewsheds.push(None);
        self.stats.push(None);
        self.inventories.push(None);
        self.items.push(None);
        self.potions.push(None);
        self.equippables.push(None);
        self.equipped.push(None);
        self.melee_weapons.push(None);
        self.ranged_weapons.push(None);
        self.magic_weapons.push(None);
        self.armors.push(None);
        self.spellbooks.push(None);
        self.backpacks.push(None);
        self.wants_pickup.push(None);
        self.wants_consume.push(None);
        self.attacks.push(None);
        self.damages.push(None);
        self.experiences.push(None);
        self.lifetimes.push(None);
        self.triggerables.push(None);
        self.vendors.push(None);
        Entity { id }
    }

    /// Removes entity `e`: nothing stays attached to it, and it no longer
    /// exists. Every other entity is untouched.
    pub fn delete_entity(&mut self, e: Entity)
        requires
            old(self).wf(),
            e.id < old(self).spec_len(),
        ensures
            final(self).wf(),
            final(self).spec_len() == old(self).spec_len(),
            final(self).player == old(self).player,
            final(self).spec_row_empty(e.id as int),
            forall|j: int|
                0 <= j < old(self).spec_len() && j != e.id ==> #[trigger] final(self).spec_row_same(old(self), j),
    {
        self.alive.set(e.id, false);
        self.names.set(e.id, None);
        self.positions.set(e.id, None);
        self.other_level_positions.set(e.id, None);
        self.renderables.set(e.id, None);
        self.players.set(e.id, false);
        self.monsters.set(e.id, false);
        self.blockers.set(e.id, false);
        self.hidden.set(e.id, false);
        self.magic_mappers.set(e.id, false);
        self.viewsheds.set(e.id, None);
        self.stats.set(e.id, None);
        self.inventories.set(e.id, None);
        self.items.set(e.id, None);
        self.potions.set(e.id, None);
        self.equippables.set(e.id, None);
        self.equipped.set(e.id, None);
        self.melee_weapons.set(e.id, None);
        self.ranged_weapons.set(e.id, None);
        self.magic_weapons.set(e.id, None);
        self.armors.set(e.id, None);
        self.spellbooks.set(e.id, None);
        self.backpacks.set(e.id, None);
        self.wants_pickup.set(e.id, None);
        self.wants_consume.set(e.id, None);
        self.attacks.set(e.id, None);
        self.damages.set(e.id, None);
        self.experiences.set(e.id, None);
        self.lifetimes.set(e.id, None);
        self.triggerables.set(e.id, None);
        self.vendors.set(e.id, None);
    }
}

} // verus!
