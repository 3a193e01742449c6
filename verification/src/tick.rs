//! One tick of the simulation: the systems in their fixed order, each on
//! the world that the one before it has left. The tick comes whole, and in
//! two halves with the pursuit between them, for a driver that searches
//! the monsters' routes on what the first half has left.

use crate::component::{Entity, Lifetime, Renderable};
use crate::geometry::Position;
use crate::logbook::{Logbook, Tint};
use crate::map::GameMap;
use crate::spawn::{spawn_particle, PARTICLE_LIFETIME_MS};
use crate::stage::{
    spec_aim_taken, spec_buried, spec_concluded, spec_concluded_through, spec_first_half_told, spec_fought, spec_hurt,
    spec_items_used, spec_listed, spec_looked, spec_magic_kept, spec_particles_made, spec_pursued, spec_ranged_kept,
    spec_sensed, spec_swept, spec_taught, spec_ticked, spec_trapped, Stages,
};
use crate::system::damage_system::{
    cleanup_dead_entities, is_game_over, spec_attackers_valid, spec_game_over, spec_reaped, DamageSystem,
};
use crate::system::experience_system::ExperienceSystem;
use crate::system::inventory_system::{
    spec_consumptions_valid, spec_inventories_wf, spec_mapped, spec_pickups_valid, InventorySystem,
};
use crate::system::map_indexing_system::{
    lemma_occupants_members, spec_indexed, spec_occupants, spec_positions_on_map, MapIndexingSystem,
};
use crate::system::melee_combat_system::{spec_arms_valid, spec_attacks_valid, MeleeCombatSystem};
use crate::system::monster_system::{MonsterSystem, Route};
use crate::system::particle_system::ParticleSystem;
use crate::system::ranged_combat_system::{take_aim, RangedCombatSystem};
use crate::system::trigger_system::{spec_triggers_named, TriggerOutcome, TriggerSystem};
use crate::system::visibility_system::{
    spec_content_in_range, spec_hidden_named, spec_player_sees, spec_recomputed, spec_viewsheds_valid, spec_watches,
    VisibilitySystem,
};
use crate::turn::RunState;
use crate::world::World;
use vstd::prelude::*;

verus! {

/// What a tick reports to the driver.
pub struct TickOutcome {
    /// A player's health is at zero or below.
    pub game_over: bool,
    /// Who reached a new level, in the order of the identifiers.
    pub promoted: Vec<Entity>,
    /// Who died and was removed, in the order of the identifiers.
    pub dead: Vec<Entity>,
}

/// The world and the map fit together, and everything that a system
/// takes for granted holds: positions are tiles of the map, the map lists
/// no occupant that is no entity, queued attacks and wishes name entities
/// that have what is asked of them, every dice expression can be rolled,
/// and the player has a name and stats.
pub open spec fn spec_ready(world: &World, map: &GameMap) -> bool {
    &&& world.wf()
    &&& map.wf()
    &&& spec_positions_on_map(world.positions@, map)
    &&& spec_viewsheds_valid(world.viewsheds@)
    &&& spec_content_in_range(map, world.spec_len())
    &&& spec_hidden_named(world.hidden@, world.names@)
    &&& spec_pickups_valid(world.wants_pickup@, world.names@)
    &&& spec_consumptions_valid(world.wants_consume@, world.names@)
    &&& spec_inventories_wf(world.inventories@)
    &&& spec_attacks_valid(world.attacks@, world.names@, world.stats@)
    &&& spec_arms_valid(world.melee_weapons@, world.ranged_weapons@, world.spellbooks@)
    &&& spec_attackers_valid(world.damages@)
    &&& spec_triggers_named(world.triggerables@, world.names@)
    &&& (world.player matches Some(p) && p.id < world.spec_len() && world.names[p.id as int] is Some
        && world.stats[p.id as int] is Some)
}

/// Nothing is left of what the second half of a tick takes up: no attack,
/// no damage, no experience.
pub open spec fn spec_undone(world: &World) -> bool {
    &&& forall|e: int| 0 <= e < world.attacks.len() ==> #[trigger] world.attacks[e] is None
    &&& forall|e: int| 0 <= e < world.damages.len() ==> #[trigger] world.damages[e] is None
    &&& forall|e: int| 0 <= e < world.experiences.len() ==> #[trigger] world.experiences[e] is None
}

/// No wish to pick an item up or to use one is left.
pub open spec fn spec_wishless(world: &World) -> bool {
    &&& forall|e: int| 0 <= e < world.wants_pickup.len() ==> #[trigger] world.wants_pickup[e] is None
    &&& forall|e: int| 0 <= e < world.wants_consume.len() ==> #[trigger] world.wants_consume[e] is None
}

/// Nothing is queued: no attack, no damage, no experience, no wish.
pub open spec fn spec_drained(world: &World) -> bool {
    spec_undone(world) && spec_wishless(world)
}

/// After the index has been rebuilt, every occupant that the map lists is
/// an entity of the tables.
pub proof fn lemma_indexed_in_range(map: &GameMap, positions: Seq<Option<Position>>, blockers: Seq<bool>)
    requires
        map.wf(),
        positions.len() <= usize::MAX,
        spec_indexed(map, positions, blockers),
    ensures
        spec_content_in_range(map, positions.len() as int),
{
    assert forall|t: int, k: int|
        0 <= t < map.tile_content.len() && 0 <= k < map.tile_content[t]@.len() implies (
    #[trigger] map.tile_content[t]@[k]).id < positions.len() by {
        let who = map.tile_content[t]@[k];
        assert(map.tile_content[t]@ == spec_occupants(positions, map.width as int, t, positions.len() as int));
        assert(map.tile_content[t]@.contains(who));
        lemma_occupants_members(positions, map.width as int, t, positions.len() as int, who);
    }
}

/// The first half of a tick, up to the pursuit: stale targets are dropped
/// and the player takes aim, every viewshed is recomputed, and items are
/// picked up and used.
///
/// The world is left ready for the second half, so that the routes of the
/// pursuit can be searched on what this half has made of it.
pub fn before_pursuit(world: &mut World, map: &mut GameMap, rng: &mut rltk::RandomNumberGenerator, log: &mut Logbook)
    requires
        spec_ready(old(world), old(map)),
    ensures
        spec_ready(final(world), final(map)),
        final(map).keeps_revealed(old(map)),
        spec_sensed(old(world), old(map), old(log), final(world), final(map), final(log)),
{
    let player: Entity = world.player.unwrap();
    let ghost n = world.spec_len();
    RangedCombatSystem {}.run(
        map,
        &world.alive,
        &world.positions,
        &world.equipped,
        &mut world.ranged_weapons,
        &mut world.magic_weapons,
    );
    assert(world.ranged_weapons@ =~= spec_ranged_kept(old(map), old(world)));
    assert(world.magic_weapons@ =~= spec_magic_kept(old(map), old(world)));
    take_aim(player, &world.equipped, &mut world.ranged_weapons, &world.monsters, &world.positions);
    assert(spec_arms_valid(world.melee_weapons@, world.ranged_weapons@, world.spellbooks@)) by {
        assert forall|j: int| 0 <= j < world.ranged_weapons@.len() implies ((
        #[trigger] world.ranged_weapons@[j]) matches Some(w) ==> w.damage.wf()) by {
            assert(old(world).ranged_weapons@[j] matches Some(w) ==> w.damage.wf());
            assert(spec_ranged_kept(old(map), old(world))[j] matches Some(w) ==> w.damage.wf());
        }
    }
    assert(spec_aim_taken(old(world), old(map), world));
    VisibilitySystem {}.run(
        map,
        rng,
        &world.players,
        &world.names,
        &mut world.viewsheds,
        &world.positions,
        &mut world.hidden,
        log,
    );
    let ghost map_seen = *map;
    let ghost seen_log = *log;
    InventorySystem {}.run(
        player,
        &mut world.wants_pickup,
        &mut world.wants_consume,
        &mut world.positions,
        &world.names,
        &mut world.stats,
        &mut world.backpacks,
        &mut world.inventories,
        map,
        &world.potions,
        &world.magic_mappers,
        &world.equippables,
        &mut world.equipped,
        log,
    );
    proof {
        assert(map.keeps_revealed(old(map))) by {
            assert(map_seen.keeps_revealed(old(map)));
            assert(map.keeps_revealed(&map_seen));
        }
        assert(spec_positions_on_map(world.positions@, map));
        assert(spec_attacks_valid(world.attacks@, world.names@, world.stats@));
        assert(spec_looked(old(world), old(map), world, map));
        assert(spec_items_used(old(world), world));
        assert(spec_first_half_told(seen_log, old(world), old(map), old(log), world, log));
    }
}

/// The second half of a tick, from the pursuit on: pursuit, spatial
/// index, triggers, combat, damage, levelling, and the sweep of what has
/// run its time; then what went off or ran out is removed, the blows are
/// shown, and the dead are cleared away.
///
/// `routes` holds, for every monster that sees the player, the path that
/// was found for it; `now_ms` is the wall-clock time.
///
/// Every pass is stated by what it makes of the world that the pass before
/// it has left (`spec_concluded`). Whatever happens: the terrain stays, no
/// revealed tile is hidden again, nothing stays queued, and the log only
/// grows.
pub fn after_pursuit(
    world: &mut World,
    map: &mut GameMap,
    rng: &mut rltk::RandomNumberGenerator,
    log: &mut Logbook,
    runstate: RunState,
    routes: &Vec<Option<Route>>,
    now_ms: u128,
) -> (outcome: TickOutcome)
    requires
        spec_ready(old(world), old(map)),
        routes.len() == old(world).spec_len(),
    ensures
        final(world).wf(),
        final(map).wf(),
        final(map).same_terrain(old(map)),
        final(map).revealed_tiles@ == old(map).revealed_tiles@,
        old(world).spec_len() <= final(world).spec_len(),
        final(world).player == old(world).player,
        spec_wishless(old(world)) ==> spec_wishless(final(world)),
        spec_undone(final(world)),
        forall|e: int|
            0 <= e < old(world).spec_len() && final(world).alive[e] ==> #[trigger] final(world).viewsheds[e] == old(
                world,
            ).viewsheds[e],
        final(log).extends(old(log)),
        outcome.game_over == spec_game_over(final(world)),
        spec_concluded(
            old(world),
            old(map),
            old(log),
            runstate,
            routes@,
            now_ms,
            final(world),
            final(map),
            final(log),
            outcome.game_over,
            outcome.promoted@,
            outcome.dead@,
        ),
{
    let player: Entity = world.player.unwrap();
    let ghost n = world.spec_len();
    match world.positions[player.id] {
        Some(player_position) => {
            MonsterSystem {}.run(
                runstate,
                &world.viewsheds,
                &mut world.positions,
                &world.monsters,
                &mut world.attacks,
                player_position,
                player,
                map,
                routes,
            );
        },
        None => {},
    }
    let ghost moved = *world;
    assert(spec_pursued(old(world), old(map), runstate, routes@, &moved));
    assert(spec_attacks_valid(world.attacks@, world.names@, world.stats@));
    MapIndexingSystem {}.run(&world.positions, &world.blockers, map);
    let ghost indexed = *map;
    proof {
        lemma_indexed_in_range(map, world.positions@, world.blockers@);
    }
    let sprung: TriggerOutcome = TriggerSystem {}.run(
        map,
        &world.positions,
        &world.names,
        &world.stats,
        &world.triggerables,
        &mut world.hidden,
        &mut world.damages,
        log,
    );
    let ghost trapped = *world;
    let ghost trapped_log = *log;
    assert(spec_trapped(&moved, &indexed, old(log), &trapped, &trapped_log, sprung.removed@, sprung.particles@));
    assert(spec_attackers_valid(world.damages@));
    let blows: Vec<Position> = MeleeCombatSystem {}.run(
        rng,
        &mut world.attacks,
        &world.names,
        &mut world.stats,
        &mut world.damages,
        &world.equipped,
        &world.melee_weapons,
        &world.ranged_weapons,
        &world.spellbooks,
        &world.armors,
        &world.positions,
        log,
    );
    let ghost fought = *world;
    let ghost fought_log = *log;
    assert(spec_fought(&trapped, &trapped_log, &fought, &fought_log, blows@));
    DamageSystem {}.run(&mut world.stats, &mut world.damages, &world.positions, &mut world.experiences, map);
    let ghost hurt = *world;
    assert(spec_hurt(&fought, &indexed, &hurt, map));
    let promoted: Vec<Entity> = ExperienceSystem {}.run(&world.names, &mut world.stats, &mut world.experiences, log);
    let ghost taught = *world;
    let ghost taught_log = *log;
    assert(spec_taught(&hurt, &fought_log, &taught, &taught_log, promoted@));
    let expired: Vec<Entity> = ParticleSystem {}.run(&world.lifetimes, now_ms);
    assert(spec_undone(world));
    settle(world, &sprung.removed, &expired);
    let ghost settled = *world;
    assert(spec_swept(&taught, sprung.removed@, expired@, now_ms as int, &settled));
    show(world, &sprung.particles, '!', Tint::LightRed, now_ms);
    let ghost sparked = *world;
    show(world, &blows, '\\', Tint::White, now_ms);
    let game_over: bool = is_game_over(world);
    let ghost shown = *world;
    proof {
        let places = sprung.particles@ + blows@;
        assert forall|j: int| 0 <= j < settled.spec_len() implies #[trigger] shown.spec_row_same(&settled, j) by {
            assert(sparked.spec_row_same(&settled, j));
            assert(shown.spec_row_same(&sparked, j));
        }
        assert forall|k: int| 0 <= k < places.len() implies #[trigger] shown.positions[settled.spec_len() + k]
            == Some(places[k]) by {
            if k < sprung.particles@.len() {
                assert(sparked.positions[settled.spec_len() + k] == Some(sprung.particles@[k]));
                assert(shown.spec_row_same(&sparked, settled.spec_len() + k));
            } else {
                assert(shown.positions[sparked.spec_len() + (k - sprung.particles@.len())] == Some(
                    blows@[k - sprung.particles@.len()],
                ));
            }
        }
        assert forall|j: int|
            settled.spec_len() <= j < settled.spec_len() + sprung.particles@.len() implies #[trigger] spec_shows(
            &shown,
            sprung.particles@,
            settled.spec_len(),
            j,
            '!',
            Tint::LightRed,
            now_ms,
        ) by {
            assert(spec_shows(&sparked, sprung.particles@, settled.spec_len(), j, '!', Tint::LightRed, now_ms));
            assert(shown.spec_row_same(&sparked, j));
        }
        assert(spec_particles_made(&settled, sprung.particles@, blows@, now_ms, &shown));
    }
    let dead: Vec<Entity> = cleanup_dead_entities(world, log);
    proof {
        assert(spec_buried(&shown, &taught_log, world, log, dead@));
        assert forall|e: int| 0 <= e < old(world).spec_len() && world.alive[e] implies #[trigger] world.viewsheds[e]
            == old(world).viewsheds[e] by {
            assert(world.spec_row_empty(e) || world.spec_row_same(&shown, e));
            assert(shown.spec_row_same(&settled, e));
            assert(settled.spec_row_empty(e) || settled.spec_row_same(&taught, e));
            assert(taught.viewsheds@ == old(world).viewsheds@);
        }
        assert forall|e: int| 0 <= e < world.spec_len() implies #[trigger] world.attacks[e] is None by {
            if spec_reaped(&shown, e) {
                assert(world.spec_row_empty(e));
            } else {
                assert(world.spec_row_same(&shown, e));
            }
        }
        assert forall|e: int| 0 <= e < world.spec_len() implies #[trigger] world.damages[e] is None by {
            if spec_reaped(&shown, e) {
                assert(world.spec_row_empty(e));
            } else {
                assert(world.spec_row_same(&shown, e));
            }
        }
        assert forall|e: int| 0 <= e < world.spec_len() implies #[trigger] world.experiences[e] is None by {
            if spec_reaped(&shown, e) {
                assert(world.spec_row_empty(e));
            } else {
                assert(world.spec_row_same(&shown, e));
            }
        }
        if spec_wishless(old(world)) {
            assert forall|e: int| 0 <= e < world.spec_len() implies #[trigger] world.wants_pickup[e] is None by {
                if spec_reaped(&shown, e) {
                    assert(world.spec_row_empty(e));
                } else {
                    assert(world.spec_row_same(&shown, e));
                }
            }
            assert forall|e: int| 0 <= e < world.spec_len() implies #[trigger] world.wants_consume[e] is None by {
                if spec_reaped(&shown, e) {
                    assert(world.spec_row_empty(e));
                } else {
                    assert(world.spec_row_same(&shown, e));
                }
            }
        }
        assert(spec_game_over(&shown) == spec_game_over(world)) by {
            if spec_game_over(&shown) {
                let e = choose|e: int|
                    0 <= e < shown.spec_len() && #[trigger] shown.players[e] && (shown.stats[e] matches Some(s)
                        && s.hp.current <= 0);
                if spec_reaped(&shown, e) {
                    assert(world.spec_row_empty(e));
                } else {
                    assert(world.spec_row_same(&shown, e));
                }
            }
            if spec_game_over(world) {
                let e = choose|e: int|
                    0 <= e < world.spec_len() && #[trigger] world.players[e] && (world.stats[e] matches Some(s)
                        && s.hp.current <= 0);
                if spec_reaped(&shown, e) {
                    assert(world.spec_row_empty(e));
                } else {
                    assert(world.spec_row_same(&shown, e));
                }
            }
        }
        let stages = Stages {
            moved,
            indexed,
            sprung: trapped,
            sprung_log: trapped_log,
            removed: sprung.removed@,
            sparks: sprung.particles@,
            fought,
            fought_log,
            blows: blows@,
            hurt,
            taught,
            taught_log,
            expired: expired@,
            settled,
            shown,
        };
        assert(spec_concluded_through(
            stages,
            old(world),
            old(map),
            old(log),
            runstate,
            routes@,
            now_ms,
            world,
            map,
            log,
            game_over,
            promoted@,
            dead@,
        ));
    }
    TickOutcome { game_over, promoted, dead }
}

/// Runs the systems of one tick in their order: visibility, with the
/// looking after of targets, inventory, pursuit, spatial index, triggers,
/// combat, damage, levelling, and the sweep of what has run its time; then
/// what went off or ran out is removed, the blows are shown, and the dead
/// are cleared away.
///
/// `routes` holds, for every monster that sees the player, the path that
/// was found for it; `now_ms` is the wall-clock time. Routes that are to
/// be searched on what the first half of the tick has left are handed to
/// `after_pursuit`, once `before_pursuit` has run.
///
/// What the tick makes of the world is stated pass by pass
/// (`spec_ticked`). Whatever happens in the tick: the terrain stays, no
/// revealed tile is hidden again, nothing stays queued, and the log only
/// grows.
pub fn tick(
    world: &mut World,
    map: &mut GameMap,
    rng: &mut rltk::RandomNumberGenerator,
    log: &mut Logbook,
    runstate: RunState,
    routes: &Vec<Option<Route>>,
    now_ms: u128,
) -> (outcome: TickOutcome)
    requires
        spec_ready(old(world), old(map)),
        routes.len() == old(world).spec_len(),
    ensures
        final(world).wf(),
        final(map).wf(),
        final(map).same_terrain(old(map)),
        final(map).keeps_revealed(old(map)),
        old(world).spec_len() <= final(world).spec_len(),
        final(world).player == old(world).player,
        spec_drained(final(world)),
        final(log).extends(old(log)),
        outcome.game_over == spec_game_over(final(world)),
        forall|t: int|
            0 <= t < final(map).revealed_tiles.len() ==> (#[trigger] final(map).revealed_tiles[t] <==> (old(
                map,
            ).revealed_tiles[t] || spec_mapped(
                old(world).wants_consume@,
                old(world).stats@,
                old(world).magic_mappers@,
                old(world).spec_len(),
            ) || exists|e: int|
                #[trigger] spec_player_sees(
                    old(map),
                    old(world).players@,
                    old(world).viewsheds@,
                    old(world).positions@,
                    e,
                    t,
                ))),
        forall|e: int|
            0 <= e < old(world).spec_len() && final(world).alive[e] ==> (if spec_watches(
                old(world).viewsheds@,
                old(world).positions@,
                e,
            ) {
                (#[trigger] final(world).viewsheds[e]) matches Some(v) && spec_recomputed(
                    old(map),
                    old(world).positions[e].unwrap(),
                    old(world).viewsheds[e].unwrap(),
                    v,
                )
            } else {
                final(world).viewsheds[e] == old(world).viewsheds[e]
            }),
        spec_ticked(
            old(world),
            old(map),
            old(log),
            runstate,
            routes@,
            now_ms,
            final(world),
            final(map),
            final(log),
            outcome.game_over,
            outcome.promoted@,
            outcome.dead@,
        ),
{
    before_pursuit(world, map, rng, log);
    let ghost mid = (*world, *map, *log);
    let outcome: TickOutcome = after_pursuit(world, map, rng, log, runstate, routes, now_ms);
    proof {
        assert(spec_sensed(old(world), old(map), old(log), &mid.0, &mid.1, &mid.2));
        assert(spec_concluded(
            &mid.0,
            &mid.1,
            &mid.2,
            runstate,
            routes@,
            now_ms,
            world,
            map,
            log,
            outcome.game_over,
            outcome.promoted@,
            outcome.dead@,
        ));
    }
    outcome
}

/// Removes what went off and what has run its time: the rows of the
/// entities in the two lists are emptied, and every other row stays as it
/// is.
pub fn settle(world: &mut World, sprung: &Vec<Entity>, expired: &Vec<Entity>)
    requires
        old(world).wf(),
        forall|k: int| 0 <= k < sprung@.len() ==> (#[trigger] sprung@[k]).id < old(world).spec_len(),
        forall|k: int| 0 <= k < expired@.len() ==> (#[trigger] expired@[k]).id < old(world).spec_len(),
    ensures
        final(world).wf(),
        final(world).spec_len() == old(world).spec_len(),
        final(world).player == old(world).player,
        forall|j: int| 0 <= j < old(world).spec_len() && (spec_listed(sprung@, sprung@.len() as int, j) || spec_listed(expired@, expired@.len() as int, j)) ==> #[trigger] final(world).spec_row_empty(j),
 forall|j: int| 0 <= j < old(world).spec_len() && !(spec_listed(sprung@, sprung@.len() as int, j) || spec_listed(expired@, expired@.len() as int, j)) ==> #[trigger] final(world).spec_row_same(old(world), j),
        spec_undone(old(world)) ==> spec_undone(final(world)),
        spec_wishless(old(world)) ==> spec_wishless(final(world)),
{
    let mut k: usize = 0;
    while k < sprung.len()
        invariant
            k <= sprung.len(),
            world.wf(),
            world.spec_len() == old(world).spec_len(),
            world.player == old(world).player,
            forall|i: int| 0 <= i < sprung@.len() ==> (#[trigger] sprung@[i]).id < old(world).spec_len(),
            forall|j: int| 0 <= j < old(world).spec_len() && (spec_listed(sprung@, k as int, j)) ==> #[trigger] world.spec_row_empty(j),
 forall|j: int| 0 <= j < old(world).spec_len() && !(spec_listed(sprung@, k as int, j)) ==> #[trigger] world.spec_row_same(old(world), j),
        decreases sprung.len() - k,
    {
        let ghost before = *world;
        world.delete_entity(sprung[k]);
        proof {
            assert forall|j: int| 0 <= j < old(world).spec_len() && (spec_listed(sprung@, k + 1, j)) implies #[trigger] world.spec_row_empty(j) by {
                if j != sprung@[k as int].id {
                    assert(world.spec_row_same(&before, j));
                    assert(spec_listed(sprung@, k + 1, j) == spec_listed(sprung@, k as int, j));
                    assert(before.spec_row_empty(j));
                    assert(world.spec_row_empty(j));
                } else {
                    assert(world.spec_row_empty(sprung@[k as int].id as int));
                }
            }
            assert forall|j: int| 0 <= j < old(world).spec_len() && !(spec_listed(sprung@, k + 1, j)) implies #[trigger] world.spec_row_same(old(world), j) by {
                if j != sprung@[k as int].id {
                    assert(world.spec_row_same(&before, j));
                    assert(spec_listed(sprung@, k + 1, j) == spec_listed(sprung@, k as int, j));
                    assert(before.spec_row_same(old(world), j));
                    assert(world.spec_row_same(old(world), j));
                } else {
                    assert(spec_listed(sprung@, k + 1, j));
                }
            }
        }
        k += 1;
    }
    let ghost cleared = *world;
    let mut m: usize = 0;
    while m < expired.len()
        invariant
            m <= expired.len(),
            k == sprung.len(),
            world.wf(),
            world.spec_len() == old(world).spec_len(),
            world.player == old(world).player,
            forall|i: int| 0 <= i < expired@.len() ==> (#[trigger] expired@[i]).id < old(world).spec_len(),
            forall|j: int| 0 <= j < old(world).spec_len() && (spec_listed(sprung@, k as int, j) || spec_listed(expired@, m as int, j)) ==> #[trigger] world.spec_row_empty(j),
 forall|j: int| 0 <= j < old(world).spec_len() && !(spec_listed(sprung@, k as int, j) || spec_listed(expired@, m as int, j)) ==> #[trigger] world.spec_row_same(old(world), j),
        decreases expired.len() - m,
    {
        let ghost before = *world;
        world.delete_entity(expired[m]);
        proof {
            assert forall|j: int| 0 <= j < old(world).spec_len() && (spec_listed(sprung@, k as int, j) || spec_listed(expired@, m + 1, j)) implies #[trigger] world.spec_row_empty(j) by {
                if j != expired@[m as int].id {
                    assert(world.spec_row_same(&before, j));
                    assert(spec_listed(expired@, m + 1, j) == spec_listed(expired@, m as int, j));
                    assert(before.spec_row_empty(j));
                    assert(world.spec_row_empty(j));
                } else {
                    assert(world.spec_row_empty(expired@[m as int].id as int));
                }
            }
            assert forall|j: int| 0 <= j < old(world).spec_len() && !(spec_listed(sprung@, k as int, j) || spec_listed(expired@, m + 1, j)) implies #[trigger] world.spec_row_same(old(world), j) by {
                if j != expired@[m as int].id {
                    assert(world.spec_row_same(&before, j));
                    assert(spec_listed(expired@, m + 1, j) == spec_listed(expired@, m as int, j));
                    assert(before.spec_row_same(old(world), j));
                    assert(world.spec_row_same(old(world), j));
                } else {
                    assert(spec_listed(expired@, m + 1, j));
                }
            }
        }
        m += 1;
    }
    proof {
        if spec_undone(old(world)) {
            assert forall|e: int| 0 <= e < world.spec_len() implies #[trigger] world.attacks[e] is None by {
                assert(world.spec_row_empty(e) || world.spec_row_same(old(world), e));
            }
            assert forall|e: int| 0 <= e < world.spec_len() implies #[trigger] world.damages[e] is None by {
                assert(world.spec_row_empty(e) || world.spec_row_same(old(world), e));
            }
            assert forall|e: int| 0 <= e < world.spec_len() implies #[trigger] world.experiences[e] is None by {
                assert(world.spec_row_empty(e) || world.spec_row_same(old(world), e));
            }
        }
        if spec_wishless(old(world)) {
            assert forall|e: int| 0 <= e < world.spec_len() implies #[trigger] world.wants_pickup[e] is None by {
                assert(world.spec_row_empty(e) || world.spec_row_same(old(world), e));
            }
            assert forall|e: int| 0 <= e < world.spec_len() implies #[trigger] world.wants_consume[e] is None by {
                assert(world.spec_row_empty(e) || world.spec_row_same(old(world), e));
            }
        }
    }
}

/// Row `j` of `world` is the particle for the place `places[j - first]`:
/// it exists, stands there, is drawn as `glyph` in `color`, lives for
/// `PARTICLE_LIFETIME_MS` from `now_ms` on, and is nothing else.
pub open spec fn spec_shows(
    world: &World,
    places: Seq<Position>,
    first: int,
    j: int,
    glyph: char,
    color: Tint,
    now_ms: u128,
) -> bool {
    &&& world.alive[j]
    &&& world.positions[j] == Some(places[j - first])
    &&& world.renderables[j] == Some((Renderable { glyph, fg: color, bg: Tint::Gray, index: 0 }))
    &&& world.lifetimes[j] == Some((Lifetime { created_at: now_ms, lifetime_ms: PARTICLE_LIFETIME_MS }))
    &&& world.names[j] is None
    &&& world.stats[j] is None
    &&& !world.blockers[j]
    &&& !world.players[j]
    &&& world.spec_row_quiet(j)
}

/// Makes a particle at each of the places, in their order, in new rows
/// behind those that are there.
pub fn show(world: &mut World, places: &Vec<Position>, glyph: char, color: Tint, now_ms: u128)
    requires
        old(world).wf(),
    ensures
        final(world).wf(),
        final(world).spec_len() == old(world).spec_len() + places@.len(),
        final(world).player == old(world).player,
        forall|j: int| 0 <= j < old(world).spec_len() ==> #[trigger] final(world).spec_row_same(old(world), j),
        forall|k: int|
            0 <= k < places@.len() ==> #[trigger] final(world).positions[old(world).spec_len() + k] == Some(
                places@[k],
            ),
        forall|j: int|
            old(world).spec_len() <= j < final(world).spec_len() ==> #[trigger] spec_shows(
                final(world),
                places@,
                old(world).spec_len(),
                j,
                glyph,
                color,
                now_ms,
            ),
        spec_undone(old(world)) ==> spec_undone(final(world)),
        spec_wishless(old(world)) ==> spec_wishless(final(world)),
{
    let mut k: usize = 0;
    while k < places.len()
        invariant
            k <= places.len(),
            world.wf(),
            world.spec_len() == old(world).spec_len() + k,
            world.player == old(world).player,
            forall|j: int| 0 <= j < old(world).spec_len() ==> #[trigger] world.spec_row_same(old(world), j),
            forall|i: int|
                0 <= i < k ==> #[trigger] world.positions[old(world).spec_len() + i] == Some(places@[i]),
            forall|j: int|
                old(world).spec_len() <= j < world.spec_len() ==> #[trigger] spec_shows(
                    world,
                    places@,
                    old(world).spec_len(),
                    j,
                    glyph,
                    color,
                    now_ms,
                ),
            spec_undone(old(world)) ==> spec_undone(world),
            spec_wishless(old(world)) ==> spec_wishless(world),
        decreases places.len() - k,
    {
        let ghost before = *world;
        let made: Entity = spawn_particle(world, places[k], glyph, color, Tint::Gray, now_ms);
        proof {
            assert forall|j: int| 0 <= j < old(world).spec_len() implies #[trigger] world.spec_row_same(
                old(world),
                j,
            ) by {
                assert(world.spec_row_same(&before, j));
                assert(before.spec_row_same(old(world), j));
            }
            assert forall|j: int| old(world).spec_len() <= j < world.spec_len() implies #[trigger] spec_shows(
                world,
                places@,
                old(world).spec_len(),
                j,
                glyph,
                color,
                now_ms,
            ) by {
                if j < before.spec_len() {
                    assert(spec_shows(&before, places@, old(world).spec_len(), j, glyph, color, now_ms));
                    assert(world.spec_row_same(&before, j));
                }
            }
            assert forall|i: int| 0 <= i < k + 1 implies #[trigger] world.positions[old(world).spec_len() + i]
                == Some(places@[i]) by {
                if i < k {
                    assert(world.spec_row_same(&before, old(world).spec_len() + i));
                }
            }
            if spec_undone(old(world)) {
                let fresh = made.id as int;
                assert(world.spec_row_quiet(fresh));
                assert forall|e: int| 0 <= e < world.spec_len() implies #[trigger] world.attacks[e] is None by {
                    if e != fresh {
                        assert(world.spec_row_same(&before, e));
                    }
                }
                assert forall|e: int| 0 <= e < world.spec_len() implies #[trigger] world.damages[e] is None by {
                    if e != fresh {
                        assert(world.spec_row_same(&before, e));
                    }
                }
                assert forall|e: int| 0 <= e < world.spec_len() implies #[trigger] world.experiences[e] is None by {
                    if e != fresh {
                        assert(world.spec_row_same(&before, e));
                    }
                }
            }
            if spec_wishless(old(world)) {
                let fresh = made.id as int;
                assert(world.spec_row_quiet(fresh));
                assert forall|e: int| 0 <= e < world.spec_len() implies #[trigger] world.wants_pickup[e] is None by {
                    if e != fresh {
                        assert(world.spec_row_same(&before, e));
                    }
                }
                assert forall|e: int| 0 <= e < world.spec_len() implies #[trigger] world.wants_consume[e] is None by {
                    if e != fresh {
                        assert(world.spec_row_same(&before, e));
                    }
                }
            }
        }
        k += 1;
    }
}

} // verus!
