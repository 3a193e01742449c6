//! Whether a world and a map are fit for a tick.

use crate::component::{Entity, Spell};
use crate::map::GameMap;
use crate::sight::MAX_VIEW_RANGE;
use crate::system::damage_system::spec_attackers_valid;
use crate::system::inventory_system::{spec_consumptions_valid, spec_inventories_wf, spec_pickups_valid};
use crate::system::map_indexing_system::spec_positions_on_map;
use crate::system::melee_combat_system::{spec_arms_valid, spec_attacks_valid, spec_spells_valid};
use crate::system::trigger_system::spec_triggers_named;
use crate::system::visibility_system::{spec_content_in_range, spec_hidden_named, spec_viewsheds_valid};
use crate::tick::spec_ready;
use crate::world::World;
use vstd::prelude::*;

verus! {

/// What is attached to entity `e` is what a tick takes for granted: its
/// position is a tile of the map, its view has a range that can be
/// computed, its wishes and its attack name entities that have what is
/// asked of them, its inventory is well-formed, its dice can be rolled, and
/// it has a name where it is hidden or can go off.
pub open spec fn spec_row_ready(world: &World, map: &GameMap, e: int) -> bool {
    let n = world.spec_len();
    &&& world.positions[e] matches Some(p) ==> map.spec_in_bounds(p.x as int, p.y as int)
    &&& world.viewsheds[e] matches Some(v) ==> -MAX_VIEW_RANGE <= v.range <= MAX_VIEW_RANGE
    &&& world.hidden[e] ==> world.names[e] is Some
    &&& world.wants_pickup[e] matches Some(p) ==> p.item.id < n && world.names[p.item.id as int] is Some
    &&& world.wants_consume[e] matches Some(c) ==> c.item.id < n && world.names[c.item.id as int] is Some
    &&& world.inventories[e] matches Some(i) ==> i.wf()
    &&& world.attacks[e] matches Some(a) ==> a.target.id < n && world.stats[a.target.id as int] is Some
        && world.names[a.target.id as int] is Some
    &&& world.melee_weapons[e] matches Some(w) ==> w.damage.wf()
    &&& world.ranged_weapons[e] matches Some(w) ==> w.damage.wf()
    &&& world.spellbooks[e] matches Some(b) ==> spec_spells_valid(b.spells@)
    &&& world.damages[e] matches Some(d) ==> (d.attacker matches Some(a) ==> a.id < n)
    &&& world.triggerables[e] is Some ==> world.names[e] is Some
}

/// The player is an entity that has a name and stats.
pub open spec fn spec_player_ready(world: &World) -> bool {
    world.player matches Some(p) && p.id < world.spec_len() && world.names[p.id as int] is Some
        && world.stats[p.id as int] is Some
}

/// A world and a map are fit for a tick exactly if the tables and the
/// grids have their lengths, the player is there, the map lists entities
/// only, and every row is as a tick takes it.
pub proof fn lemma_ready_by_rows(world: &World, map: &GameMap)
    ensures
        spec_ready(world, map) <==> (world.wf() && map.wf() && spec_player_ready(world) && spec_content_in_range(
            map,
            world.spec_len(),
        ) && forall|e: int| 0 <= e < world.spec_len() ==> #[trigger] spec_row_ready(world, map, e)),
{
    if world.wf() && map.wf() && spec_player_ready(world) && spec_content_in_range(map, world.spec_len()) {
        if forall|e: int| 0 <= e < world.spec_len() ==> #[trigger] spec_row_ready(world, map, e) {
            assert forall|e: int| 0 <= e < world.positions@.len() implies ((
            #[trigger] world.positions@[e]) matches Some(p) ==> map.spec_in_bounds(p.x as int, p.y as int)) by {
                assert(spec_row_ready(world, map, e));
            }
            assert forall|e: int| 0 <= e < world.viewsheds@.len() implies ((
            #[trigger] world.viewsheds@[e]) matches Some(v) ==> -MAX_VIEW_RANGE <= v.range <= MAX_VIEW_RANGE) by {
                assert(spec_row_ready(world, map, e));
            }
            assert forall|o: int| 0 <= o < world.hidden@.len() && #[trigger] world.hidden@[o] implies world.names@[o] is Some by {
                assert(spec_row_ready(world, map, o));
            }
            assert forall|e: int| 0 <= e < world.wants_pickup@.len() implies ((
            #[trigger] world.wants_pickup@[e]) matches Some(p) ==> p.item.id < world.names@.len()
                && world.names@[p.item.id as int] is Some) by {
                assert(spec_row_ready(world, map, e));
            }
            assert forall|e: int| 0 <= e < world.wants_consume@.len() implies ((
            #[trigger] world.wants_consume@[e]) matches Some(c) ==> c.item.id < world.names@.len()
                && world.names@[c.item.id as int] is Some) by {
                assert(spec_row_ready(world, map, e));
            }
            assert forall|e: int| 0 <= e < world.inventories@.len() implies ((
            #[trigger] world.inventories@[e]) matches Some(i) ==> i.wf()) by {
                assert(spec_row_ready(world, map, e));
            }
            assert forall|e: int| 0 <= e < world.attacks@.len() implies ((
            #[trigger] world.attacks@[e]) matches Some(a) ==> a.target.id < world.attacks@.len()
                && world.stats@[a.target.id as int] is Some && world.names@[a.target.id as int] is Some) by {
                assert(spec_row_ready(world, map, e));
            }
            assert forall|j: int| 0 <= j < world.melee_weapons@.len() implies ((
            #[trigger] world.melee_weapons@[j]) matches Some(w) ==> w.damage.wf()) by {
                assert(spec_row_ready(world, map, j));
            }
            assert forall|j: int| 0 <= j < world.ranged_weapons@.len() implies ((
            #[trigger] world.ranged_weapons@[j]) matches Some(w) ==> w.damage.wf()) by {
                assert(spec_row_ready(world, map, j));
            }
            assert forall|j: int| 0 <= j < world.spellbooks@.len() implies ((
            #[trigger] world.spellbooks@[j]) matches Some(b) ==> spec_spells_valid(b.spells@)) by {
                assert(spec_row_ready(world, map, j));
            }
            assert forall|e: int| 0 <= e < world.damages@.len() implies ((
            #[trigger] world.damages@[e]) matches Some(d) ==> (d.attacker matches Some(a) ==> a.id
                < world.damages@.len())) by {
                assert(spec_row_ready(world, map, e));
            }
            assert forall|c: int|
                0 <= c < world.triggerables@.len() && (#[trigger] world.triggerables@[c]) is Some implies world.names@[c] is Some by {
                assert(spec_row_ready(world, map, c));
            }
            assert(spec_ready(world, map));
        }
        if spec_ready(world, map) {
            assert forall|e: int| 0 <= e < world.spec_len() implies #[trigger] spec_row_ready(world, map, e) by {
                let _ = world.positions@[e];
                let _ = world.viewsheds@[e];
                let _ = world.hidden@[e];
                let _ = world.wants_pickup@[e];
                let _ = world.wants_consume@[e];
                let _ = world.inventories@[e];
                let _ = world.attacks@[e];
                let _ = world.melee_weapons@[e];
                let _ = world.ranged_weapons@[e];
                let _ = world.spellbooks@[e];
                let _ = world.damages@[e];
                let _ = world.triggerables@[e];
            }
        }
    }
}

/// Whether every table has one row for each entity.
pub fn tables_fit(world: &World) -> (ok: bool)
    ensures
        ok == world.wf(),
{
    let n: usize = world.alive.len();
    world.names.len() == n && world.positions.len() == n && world.other_level_positions.len() == n
        && world.renderables.len() == n && world.players.len() == n && world.monsters.len() == n
        && world.blockers.len() == n && world.hidden.len() == n && world.magic_mappers.len() == n
        && world.viewsheds.len() == n && world.stats.len() == n && world.inventories.len() == n
        && world.items.len() == n && world.potions.len() == n && world.equippables.len() == n
        && world.equipped.len() == n && world.melee_weapons.len() == n && world.ranged_weapons.len() == n
        && world.magic_weapons.len() == n && world.armors.len() == n && world.spellbooks.len() == n
        && world.backpacks.len() == n && world.wants_pickup.len() == n && world.wants_consume.len() == n
        && world.attacks.len() == n && world.damages.len() == n && world.experiences.len() == n
        && world.lifetimes.len() == n && world.triggerables.len() == n && world.vendors.len() == n
}

/// Whether every occupant that the map lists is one of the first `n`
/// entities.
pub fn content_listed(map: &GameMap, n: usize) -> (ok: bool)
    ensures
        ok == spec_content_in_range(map, n as int),
{
    let mut t: usize = 0;
    while t < map.tile_content.len()
        invariant
            t <= map.tile_content.len(),
            forall|a: int, k: int|
                0 <= a < t && 0 <= k < map.tile_content[a]@.len() ==> (#[trigger] map.tile_content[a]@[k]).id < n,
        decreases map.tile_content.len() - t,
    {
        let cell: &Vec<Entity> = &map.tile_content[t];
        let mut k: usize = 0;
        while k < cell.len()
            invariant
                k <= cell.len(),
                t < map.tile_content.len(),
                *cell == map.tile_content[t as int],
                forall|j: int| 0 <= j < k ==> (#[trigger] cell@[j]).id < n,
            decreases cell.len() - k,
        {
            if cell[k].id >= n {
                assert(map.tile_content[t as int]@[k as int].id >= n);
                return false;
            }
            k += 1;
        }
        t += 1;
    }
    true
}

/// Whether the dice of every spell can be rolled.
pub fn spells_valid(spells: &Vec<Spell>) -> (ok: bool)
    ensures
        ok == spec_spells_valid(spells@),
{
    let mut k: usize = 0;
    while k < spells.len()
        invariant
            k <= spells.len(),
            forall|j: int| 0 <= j < k ==> (#[trigger] spells@[j]).damage.wf(),
        decreases spells.len() - k,
    {
        if !spells[k].damage.is_wf() {
            return false;
        }
        k += 1;
    }
    true
}

/// Whether a name is attached to the entity with the identifier `id`.
pub fn named(world: &World, id: usize) -> (ok: bool)
    requires
        world.wf(),
    ensures
        ok == (id < world.spec_len() && world.names[id as int] is Some),
{
    id < world.names.len() && world.names[id].is_some()
}

/// Whether what is attached to entity `e` is what a tick takes for
/// granted.
pub fn row_ready(world: &World, map: &GameMap, e: usize) -> (ok: bool)
    requires
        world.wf(),
        e < world.spec_len(),
    ensures
        ok == spec_row_ready(world, map, e as int),
{
    let n: usize = world.len();
    let placed: bool = match world.positions[e] {
        Some(p) => map.in_bounds(p.x, p.y),
        None => true,
    };
    let sighted: bool = match &world.viewsheds[e] {
        Some(v) => -MAX_VIEW_RANGE <= v.range && v.range <= MAX_VIEW_RANGE,
        None => true,
    };
    let known: bool = !(world.hidden[e] || world.triggerables[e].is_some()) || world.names[e].is_some();
    let picks: bool = match world.wants_pickup[e] {
        Some(p) => named(world, p.item.id),
        None => true,
    };
    let uses: bool = match world.wants_consume[e] {
        Some(c) => named(world, c.item.id),
        None => true,
    };
    let carries: bool = match &world.inventories[e] {
        Some(i) => i.is_wf(),
        None => true,
    };
    let attacks: bool = match world.attacks[e] {
        Some(a) => named(world, a.target.id) && world.stats[a.target.id].is_some(),
        None => true,
    };
    let melee: bool = match world.melee_weapons[e] {
        Some(w) => w.damage.is_wf(),
        None => true,
    };
    let ranged: bool = match world.ranged_weapons[e] {
        Some(w) => w.damage.is_wf(),
        None => true,
    };
    let spells: bool = match &world.spellbooks[e] {
        Some(b) => spells_valid(&b.spells),
        None => true,
    };
    let hurt: bool = match &world.damages[e] {
        Some(d) => match d.attacker {
            Some(a) => a.id < n,
            None => true,
        },
        None => true,
    };
    placed && sighted && known && picks && uses && carries && attacks && melee && ranged && spells && hurt
}

/// Whether the world and the map are fit for a tick.
pub fn ready(world: &World, map: &GameMap) -> (ok: bool)
    ensures
        ok == spec_ready(world, map),
{
    proof {
        lemma_ready_by_rows(world, map);
    }
    if !tables_fit(world) || !map.is_wf() {
        return false;
    }
    let n: usize = world.len();
    let player_there: bool = match world.player {
        Some(p) => named(world, p.id) && world.stats[p.id].is_some(),
        None => false,
    };
    if !player_there || !content_listed(map, n) {
        return false;
    }
    let mut e: usize = 0;
    while e < n
        invariant
            e <= n,
            n == world.spec_len(),
            world.wf(),
            forall|j: int| 0 <= j < e ==> #[trigger] spec_row_ready(world, map, j),
        decreases n - e,
    {
        if !row_ready(world, map, e) {
            return false;
        }
        e += 1;
    }
    true
}

} // verus!
