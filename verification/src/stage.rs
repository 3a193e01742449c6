//! What a tick makes of the world, stated pass by pass: each predicate
//! relates the world before a pass to the world after it.

use crate::combat::{spec_damage_view, spec_experience_view};
use crate::component::{Entity, InBackpack, MagicWeapon, RangedWeapon};
use crate::geometry::{spec_adjacent, Position};
use crate::logbook::{spec_log_grew_by, Logbook, Tint};
use crate::map::GameMap;
use crate::system::damage_system::{
    spec_awarded, spec_awards, spec_damaged, spec_game_over, spec_obituaries, spec_reaped, spec_wounded,
};
use crate::system::experience_system::{spec_levels_said, spec_promoted, spec_stats_after};
use crate::system::inventory_system::{
    spec_collect_said, spec_collector, spec_consume_said, spec_inventory_gathered, spec_inventory_used,
    spec_inventory_view, spec_mapped, spec_stats_used, spec_worn,
};
use crate::system::map_indexing_system::{spec_indexed, spec_stands_on};
use crate::system::melee_combat_system::{spec_resolved, Fray};
use crate::system::monster_system::{spec_advance, spec_pursues, spec_strike, Route};
use crate::system::particle_system::spec_expires;
use crate::system::ranged_combat_system::{spec_kept_target, spec_took_aim};
use crate::system::trigger_system::{
    spec_company, spec_events, spec_events_told, spec_sprung, spec_sprung_amounts, spec_struck, spec_walks,
};
use crate::system::visibility_system::{
    spec_all_spotted, spec_player_sees, spec_recomputed, spec_spotted_by, spec_watches,
};
use crate::turn::RunState;
use crate::tick::spec_shows;
use crate::world::World;
use vstd::prelude::*;

verus! {

/// The tables that a pass may write to: those marked are left out of what
/// `spec_rest_same` asks to be the same.
pub struct Touched {
    pub positions: bool,
    pub hidden: bool,
    pub viewsheds: bool,
    pub stats: bool,
    pub inventories: bool,
    pub equipped: bool,
    pub ranged_weapons: bool,
    pub magic_weapons: bool,
    pub backpacks: bool,
    pub wants_pickup: bool,
    pub wants_consume: bool,
    pub attacks: bool,
    pub damages: bool,
    pub experiences: bool,
}

/// No table is marked.
pub open spec fn spec_untouched() -> Touched {
    Touched {
        positions: false,
        hidden: false,
        viewsheds: false,
        stats: false,
        inventories: false,
        equipped: false,
        ranged_weapons: false,
        magic_weapons: false,
        backpacks: false,
        wants_pickup: false,
        wants_consume: false,
        attacks: false,
        damages: false,
        experiences: false,
    }
}

/// The tables that no pass writes to are the same in both worlds, and so
/// is the player.
pub open spec fn spec_fixtures_same(after: &World, before: &World) -> bool {
    &&& after.alive@ == before.alive@
    &&& after.names@ == before.names@
    &&& after.other_level_positions@ == before.other_level_positions@
    &&& after.renderables@ == before.renderables@
    &&& after.players@ == before.players@
    &&& after.monsters@ == before.monsters@
    &&& after.blockers@ == before.blockers@
    &&& after.magic_mappers@ == before.magic_mappers@
    &&& after.items@ == before.items@
    &&& after.potions@ == before.potions@
    &&& after.equippables@ == before.equippables@
    &&& after.melee_weapons@ == before.melee_weapons@
    &&& after.armors@ == before.armors@
    &&& after.spellbooks@ == before.spellbooks@
    &&& after.lifetimes@ == before.lifetimes@
    &&& after.triggerables@ == before.triggerables@
    &&& after.vendors@ == before.vendors@
    &&& after.player == before.player
}

/// Every table that is not marked in `touched` is the same in both worlds.
pub open spec fn spec_rest_same(after: &World, before: &World, touched: Touched) -> bool {
    &&& spec_fixtures_same(after, before)
    &&& touched.positions || after.positions@ == before.positions@
    &&& touched.hidden || after.hidden@ == before.hidden@
    &&& touched.viewsheds || after.viewsheds@ == before.viewsheds@
    &&& touched.stats || after.stats@ == before.stats@
    &&& touched.inventories || after.inventories@ == before.inventories@
    &&& touched.equipped || after.equipped@ == before.equipped@
    &&& touched.ranged_weapons || after.ranged_weapons@ == before.ranged_weapons@
    &&& touched.magic_weapons || after.magic_weapons@ == before.magic_weapons@
    &&& touched.backpacks || after.backpacks@ == before.backpacks@
    &&& touched.wants_pickup || after.wants_pickup@ == before.wants_pickup@
    &&& touched.wants_consume || after.wants_consume@ == before.wants_consume@
    &&& touched.attacks || after.attacks@ == before.attacks@
    &&& touched.damages || after.damages@ == before.damages@
    &&& touched.experiences || after.experiences@ == before.experiences@
}

/// Of the map only the revealed tiles may differ.
pub open spec fn spec_map_same_but_revealed(after: &GameMap, before: &GameMap) -> bool {
    &&& after.same_terrain(before)
    &&& after.blocked_tiles@ == before.blocked_tiles@
    &&& after.tile_content@ == before.tile_content@
    &&& after.bloodstains@ == before.bloodstains@
    &&& after.revealed_tiles.len() == before.revealed_tiles.len()
}

/// The ranged weapons once every stale target has been dropped.
pub open spec fn spec_ranged_kept(map: &GameMap, world: &World) -> Seq<Option<RangedWeapon>> {
    Seq::new(
        world.ranged_weapons@.len(),
        |j: int|
            match world.ranged_weapons[j] {
                Some(held) => Some(
                    RangedWeapon {
                        target: spec_kept_target(
                            map,
                            world.alive@,
                            world.positions@,
                            world.equipped[j],
                            held.range as int,
                            held.target,
                        ),
                        ..held
                    },
                ),
                None => None,
            },
    )
}

/// The magic weapons once every stale target has been dropped.
pub open spec fn spec_magic_kept(map: &GameMap, world: &World) -> Seq<Option<MagicWeapon>> {
    Seq::new(
        world.magic_weapons@.len(),
        |j: int|
            match world.magic_weapons[j] {
                Some(held) => Some(
                    MagicWeapon {
                        target: spec_kept_target(
                            map,
                            world.alive@,
                            world.positions@,
                            world.equipped[j],
                            held.range as int,
                            held.target,
                        ),
                        ..held
                    },
                ),
                None => None,
            },
    )
}

/// The weapons have been looked after: stale targets are dropped, and then
/// the player takes aim with what is wielded and has no target.
pub open spec fn spec_aim_taken(before: &World, map: &GameMap, after: &World) -> bool {
    let player = before.player.unwrap();
    &&& after.magic_weapons@ == spec_magic_kept(map, before)
    &&& after.ranged_weapons@.len() == before.ranged_weapons@.len()
    &&& forall|j: int|
        0 <= j < before.ranged_weapons@.len() ==> #[trigger] after.ranged_weapons[j] == spec_took_aim(
            before.equipped@,
            spec_ranged_kept(map, before),
            before.monsters@,
            before.positions@,
            player,
            before.positions[player.id as int],
            j,
        )
}

/// Every viewshed with a position has been recomputed, the tiles in a
/// player's view or on a map that was read are revealed and no others are,
/// and a hidden marker is gone only from what stands in a player's view.
pub open spec fn spec_looked(before: &World, map_before: &GameMap, after: &World, map_after: &GameMap) -> bool {
    let n = before.spec_len();
    &&& spec_map_same_but_revealed(map_after, map_before)
    &&& forall|t: int|
        0 <= t < map_after.revealed_tiles.len() ==> (#[trigger] map_after.revealed_tiles[t] <==> (
        map_before.revealed_tiles[t] || spec_mapped(before.wants_consume@, before.stats@, before.magic_mappers@, n)
            || exists|e: int|
            #[trigger] spec_player_sees(map_before, before.players@, before.viewsheds@, before.positions@, e, t)))
    &&& after.viewsheds@.len() == n
    &&& forall|e: int|
        0 <= e < n ==> (if spec_watches(before.viewsheds@, before.positions@, e) {
            (#[trigger] after.viewsheds[e]) matches Some(v) && spec_recomputed(
                map_before,
                before.positions[e].unwrap(),
                before.viewsheds[e].unwrap(),
                v,
            )
        } else {
            after.viewsheds[e] == before.viewsheds[e]
        })
    &&& after.hidden@.len() == n
    &&& forall|o: int| 0 <= o < n && #[trigger] after.hidden[o] ==> before.hidden[o]
    &&& forall|o: int|
        0 <= o < n && before.hidden[o] && !#[trigger] after.hidden[o] ==> exists|e: int|
            #[trigger] spec_spotted_by(map_before, before.players@, after.viewsheds@, e, Entity { id: o as usize })
}

/// Every wish to pick up or to use an item has been carried out: what was
/// picked up has left the floor for its collector's pack, potions have
/// healed, what can be worn is worn, and no wish is left.
pub open spec fn spec_items_used(before: &World, after: &World) -> bool {
    let n = before.spec_len();
    &&& after.wants_pickup@.len() == n
    &&& after.wants_consume@.len() == n
    &&& after.positions@.len() == n
    &&& after.backpacks@.len() == n
    &&& after.stats@.len() == n
    &&& after.inventories@.len() == n
    &&& forall|e: int| 0 <= e < n ==> #[trigger] after.wants_pickup[e] is None
    &&& forall|e: int| 0 <= e < n ==> #[trigger] after.wants_consume[e] is None
    &&& forall|x: int|
        0 <= x < n ==> #[trigger] after.positions[x] == (if spec_collector(
            before.wants_pickup@,
            before.names@,
            Entity { id: x as usize },
            n,
        ) is Some {
            None
        } else {
            before.positions[x]
        })
    &&& forall|x: int|
        0 <= x < n ==> #[trigger] after.backpacks[x] == (match spec_collector(
            before.wants_pickup@,
            before.names@,
            Entity { id: x as usize },
            n,
        ) {
            Some(c) => Some(InBackpack { owner: c }),
            None => before.backpacks[x],
        })
    &&& forall|e: int|
        0 <= e < n ==> #[trigger] after.stats[e] == spec_stats_used(
            before.wants_consume@,
            before.stats@,
            before.potions@,
            e,
        )
    &&& after.equipped@ == spec_worn(
        before.equipped@,
        before.names@,
        before.wants_consume@,
        before.stats@,
        before.equippables@,
        n,
    )
    &&& forall|e: int|
        0 <= e < n ==> spec_inventory_view(#[trigger] after.inventories[e]) == spec_inventory_used(
            before.wants_consume@,
            before.stats@,
            before.potions@,
            before.names@,
            spec_inventory_gathered(before.wants_pickup@, before.names@, before.inventories[e], e),
            e,
        )
}

/// With `seen_log` as the log once everything has looked around: the
/// players have looked over the tiles in their view, as
/// `spec_all_spotted` says of the hidden markers and the log, and then the
/// log has grown by what the pickups and the uses of items tell.
pub open spec fn spec_first_half_told(
    seen_log: Logbook,
    before: &World,
    map_before: &GameMap,
    log_before: &Logbook,
    after: &World,
    log_after: &Logbook,
) -> bool {
    let n = before.spec_len();
    let player = before.player.unwrap();
    &&& spec_all_spotted(
        map_before,
        before.players@,
        before.viewsheds@,
        before.positions@,
        after.viewsheds@,
        before.names@,
        before.hidden@,
        log_before,
        after.hidden@,
        &seen_log,
    )
    &&& spec_log_grew_by(
        &seen_log,
        log_after,
        spec_collect_said(before.wants_pickup@, before.names@, player, n) + spec_consume_said(
            before.equipped@,
            before.names@,
            before.wants_consume@,
            before.stats@,
            before.potions@,
            before.equippables@,
            before.magic_mappers@,
            player,
            n,
        ),
    )
}

/// The first half of a tick has made `after` of `before`: targets are
/// looked after, everything has looked around, and items are picked up
/// and used. Nothing that is queued for the second half is touched.
pub open spec fn spec_sensed(
    before: &World,
    map_before: &GameMap,
    log_before: &Logbook,
    after: &World,
    map_after: &GameMap,
    log_after: &Logbook,
) -> bool {
    &&& after.spec_len() == before.spec_len()
    &&& spec_fixtures_same(after, before)
    &&& after.attacks@ == before.attacks@
    &&& after.damages@ == before.damages@
    &&& after.experiences@ == before.experiences@
    &&& spec_aim_taken(before, map_before, after)
    &&& spec_looked(before, map_before, after, map_after)
    &&& spec_items_used(before, after)
    &&& log_after.extends(log_before)
    &&& exists|seen_log: Logbook| #[trigger]
        spec_first_half_told(seen_log, before, map_before, log_before, after, log_after)
}

/// The states that the second half of a tick goes through.
pub struct Stages {
    /// After the pursuit.
    pub moved: World,
    /// The map once the spatial index has been rebuilt.
    pub indexed: GameMap,
    /// After the triggers: the world, the log, what went off and has to
    /// go, and where that is shown.
    pub sprung: World,
    pub sprung_log: Logbook,
    pub removed: Seq<Entity>,
    pub sparks: Seq<Position>,
    /// After combat: the world, the log, and where the blows are shown.
    pub fought: World,
    pub fought_log: Logbook,
    pub blows: Seq<Position>,
    /// After the damage has been applied.
    pub hurt: World,
    /// After the experience has been awarded.
    pub taught: World,
    pub taught_log: Logbook,
    /// What has run its time.
    pub expired: Seq<Entity>,
    /// Once what went off and what ran out has been removed.
    pub settled: World,
    /// Once the particles have been made; the dead are still there.
    pub shown: World,
}

/// The pursuit has made `after` of `before`: in the monsters' turn, and
/// where the player has a position, every monster that sees the player has
/// advanced along its route and strikes where it then stands next to the
/// player.
pub open spec fn spec_pursued(
    before: &World,
    map: &GameMap,
    runstate: RunState,
    routes: Seq<Option<Route>>,
    after: &World,
) -> bool {
    let n = before.spec_len();
    let player = before.player.unwrap();
    &&& spec_rest_same(after, before, (Touched { positions: true, attacks: true, ..spec_untouched() }))
    &&& after.positions@.len() == n
    &&& after.attacks@.len() == n
    &&& match before.positions[player.id as int] {
        Some(at) => if runstate.spec_permits_pursuit() {
            &&& forall|e: int|
                0 <= e < n ==> #[trigger] after.positions[e] == (if spec_pursues(
                    before.monsters@,
                    before.viewsheds@,
                    before.positions@,
                    at,
                    e,
                ) {
                    Some(spec_advance(map, before.positions[e].unwrap(), at, routes[e]))
                } else {
                    before.positions[e]
                })
            &&& forall|e: int|
                0 <= e < n ==> #[trigger] after.attacks[e] == (if spec_pursues(
                    before.monsters@,
                    before.viewsheds@,
                    before.positions@,
                    at,
                    e,
                ) && spec_adjacent(
                    after.positions[e].unwrap().x as int,
                    after.positions[e].unwrap().y as int,
                    at.x as int,
                    at.y as int,
                ) {
                    Some(spec_strike(player))
                } else {
                    before.attacks[e]
                })
        } else {
            after.positions@ == before.positions@ && after.attacks@ == before.attacks@
        },
        None => after.positions@ == before.positions@ && after.attacks@ == before.attacks@,
    }
}

/// The spatial index of `after` has been rebuilt for `world`; terrain,
/// revealed tiles and bloodstains are those of `before`.
pub open spec fn spec_reindexed(world: &World, before: &GameMap, after: &GameMap) -> bool {
    &&& after.same_terrain(before)
    &&& after.revealed_tiles@ == before.revealed_tiles@
    &&& after.bloodstains@ == before.bloodstains@
    &&& spec_indexed(after, world.positions@, world.blockers@)
}

/// The triggers have gone off: whoever walks on a tile with a trigger has
/// the trigger's damage pending, what went off is no longer hidden,
/// `removed` lists it, `sparks` lists where it went off, and the log tells
/// of it.
pub open spec fn spec_trapped(
    before: &World,
    map: &GameMap,
    log_before: &Logbook,
    after: &World,
    log_after: &Logbook,
    removed: Seq<Entity>,
    sparks: Seq<Position>,
) -> bool {
    let n = before.spec_len();
    &&& spec_rest_same(after, before, (Touched { hidden: true, damages: true, ..spec_untouched() }))
    &&& after.hidden@.len() == n
    &&& after.damages@.len() == n
    &&& forall|e: int|
        0 <= e < n ==> spec_damage_view(#[trigger] after.damages[e]) == (if spec_walks(
            before.positions@,
            before.names@,
            before.stats@,
            e,
        ) {
            spec_struck(
                spec_damage_view(before.damages[e]),
                spec_sprung_amounts(
                    before.triggerables@,
                    spec_company(map, before.positions@, e),
                    spec_company(map, before.positions@, e).len() as int,
                ),
            )
        } else {
            spec_damage_view(before.damages[e])
        })
    &&& forall|c: int|
        0 <= c < n ==> #[trigger] after.hidden[c] == (before.hidden[c] && !spec_sprung(
            map,
            before.positions@,
            before.names@,
            before.stats@,
            before.triggerables@,
            c,
        ))
    &&& forall|k: int|
        0 <= k < removed.len() ==> spec_sprung(
            map,
            before.positions@,
            before.names@,
            before.stats@,
            before.triggerables@,
            (#[trigger] removed[k]).id as int,
        )
    &&& forall|c: int|
        #[trigger] spec_sprung(map, before.positions@, before.names@, before.stats@, before.triggerables@, c)
            ==> removed.contains(Entity { id: c as usize })
    &&& spec_events_told(
        spec_events(map, before.positions@, before.names@, before.stats@, before.triggerables@, n),
        removed,
        sparks,
        log_before,
        log_after,
    )
}

/// The queued attacks have been resolved, with rolls that the dice can
/// give, and none is left.
pub open spec fn spec_fought(
    before: &World,
    log_before: &Logbook,
    after: &World,
    log_after: &Logbook,
    blows: Seq<Position>,
) -> bool {
    let n = before.spec_len();
    &&& spec_rest_same(after, before, (Touched { attacks: true, stats: true, damages: true, ..spec_untouched() }))
    &&& after.attacks@.len() == n
    &&& forall|e: int| 0 <= e < n ==> #[trigger] after.attacks[e] is None
    &&& spec_resolved(
        (Fray {
            attacks: before.attacks@,
            names: before.names@,
            stats: before.stats@,
            equipped: before.equipped@,
            melee: before.melee_weapons@,
            ranged: before.ranged_weapons@,
            books: before.spellbooks@,
            armors: before.armors@,
        }),
        after.stats@,
        before.damages@,
        after.damages@,
        before.positions@,
        blows,
        log_before,
        log_after,
    )
}

/// The pending damage has been taken off the victims' health and is
/// cleared, those who felled a victim have their award pending, and blood
/// stains the tiles of those who were hurt.
pub open spec fn spec_hurt(before: &World, map_before: &GameMap, after: &World, map_after: &GameMap) -> bool {
    let n = before.spec_len();
    &&& spec_rest_same(
        after,
        before,
        (Touched { stats: true, damages: true, experiences: true, ..spec_untouched() }),
    )
    &&& after.stats@.len() == n
    &&& after.damages@.len() == n
    &&& after.experiences@.len() == n
    &&& forall|e: int| 0 <= e < n ==> #[trigger] after.stats[e] == spec_wounded(before.stats[e], before.damages[e])
    &&& forall|e: int| 0 <= e < n ==> #[trigger] after.damages[e] is None
    &&& forall|a: int|
        0 <= a < n ==> spec_experience_view(#[trigger] after.experiences[a]) == spec_awarded(
            spec_experience_view(before.experiences[a]),
            spec_awards(before.stats@, before.damages@, Entity { id: a as usize }, n),
        )
    &&& map_after.same_terrain(map_before)
    &&& map_after.revealed_tiles@ == map_before.revealed_tiles@
    &&& map_after.blocked_tiles@ == map_before.blocked_tiles@
    &&& map_after.tile_content@ == map_before.tile_content@
    &&& forall|t: usize|
        (#[trigger] map_after.bloodstains@.contains(t) <==> (map_before.bloodstains@.contains(t) || exists|e: int|
            #[trigger] spec_damaged(before.stats@, before.damages@, e) && spec_stands_on(
                before.positions@,
                e,
                map_before.width as int,
                t as int,
            )))
}

/// The pending experience has been awarded and is cleared; `promoted`
/// lists who reached a new level, and the log tells of each that has a
/// name.
pub open spec fn spec_taught(
    before: &World,
    log_before: &Logbook,
    after: &World,
    log_after: &Logbook,
    promoted: Seq<Entity>,
) -> bool {
    let n = before.spec_len();
    &&& spec_rest_same(after, before, (Touched { stats: true, experiences: true, ..spec_untouched() }))
    &&& after.stats@.len() == n
    &&& after.experiences@.len() == n
    &&& forall|e: int|
        0 <= e < n ==> #[trigger] after.stats[e] == spec_stats_after(before.stats@, before.experiences@, e)
    &&& forall|e: int| 0 <= e < n ==> #[trigger] after.experiences[e] is None
    &&& promoted == spec_promoted(before.stats@, before.experiences@, n)
    &&& spec_log_grew_by(log_before, log_after, spec_levels_said(before.names@, before.stats@, before.experiences@, n))
}

/// Entity `j` is listed in `list`.
pub open spec fn spec_listed(list: Seq<Entity>, upto: int, j: int) -> bool {
    exists|i: int| 0 <= i < upto && i < list.len() && (#[trigger] list[i]).id == j
}

/// What went off and what has run its time at `now_ms` has been removed:
/// those rows are empty, and every other row is as it was.
pub open spec fn spec_swept(
    before: &World,
    removed: Seq<Entity>,
    expired: Seq<Entity>,
    now_ms: int,
    after: &World,
) -> bool {
    let n = before.spec_len();
    &&& after.spec_len() == n
    &&& after.player == before.player
    &&& forall|k: int| 0 <= k < expired.len() ==> spec_expires(before.lifetimes@, now_ms, (#[trigger] expired[k]).id as int)
    &&& forall|e: int| #[trigger] spec_expires(before.lifetimes@, now_ms, e) ==> expired.contains(Entity { id: e as usize })
    &&& forall|j: int|
        0 <= j < n && (spec_listed(removed, removed.len() as int, j) || spec_listed(
            expired,
            expired.len() as int,
            j,
        )) ==> #[trigger] after.spec_row_empty(j)
    &&& forall|j: int|
        0 <= j < n && !(spec_listed(removed, removed.len() as int, j) || spec_listed(
            expired,
            expired.len() as int,
            j,
        )) ==> #[trigger] after.spec_row_same(before, j)
}

/// A particle has been made for everything that went off and then for
/// every blow, in new rows behind those of `before`, which stay as they
/// are.
pub open spec fn spec_particles_made(
    before: &World,
    sparks: Seq<Position>,
    blows: Seq<Position>,
    now_ms: u128,
    after: &World,
) -> bool {
    let n = before.spec_len();
    &&& after.spec_len() == n + sparks.len() + blows.len()
    &&& after.player == before.player
    &&& forall|j: int| 0 <= j < n ==> #[trigger] after.spec_row_same(before, j)
    &&& forall|j: int|
        n <= j < n + sparks.len() ==> #[trigger] spec_shows(after, sparks, n, j, '!', Tint::LightRed, now_ms)
    &&& forall|j: int|
        n + sparks.len() <= j < after.spec_len() ==> #[trigger] spec_shows(
            after,
            blows,
            n + sparks.len(),
            j,
            '\\',
            Tint::White,
            now_ms,
        )
}

/// The dead have been cleared away: the rows of `dead` are empty, every
/// other row is as it was, `dead` lists exactly those who had no health
/// left and were no player, and the log tells of the end of each that had
/// a name.
pub open spec fn spec_buried(
    before: &World,
    log_before: &Logbook,
    after: &World,
    log_after: &Logbook,
    dead: Seq<Entity>,
) -> bool {
    let n = before.spec_len();
    &&& after.spec_len() == n
    &&& after.player == before.player
    &&& forall|j: int| 0 <= j < n && spec_reaped(before, j) ==> #[trigger] after.spec_row_empty(j)
    &&& forall|j: int| 0 <= j < n && !spec_reaped(before, j) ==> #[trigger] after.spec_row_same(before, j)
    &&& forall|a: int, b: int| 0 <= a < b < dead.len() ==> dead[a].id < dead[b].id
    &&& forall|k: int| 0 <= k < dead.len() ==> spec_reaped(before, (#[trigger] dead[k]).id as int)
    &&& forall|j: int| #[trigger] spec_reaped(before, j) ==> dead.contains(Entity { id: j as usize })
    &&& spec_log_grew_by(log_before, log_after, spec_obituaries(before, n))
}

/// The second half of a tick has gone through the states `s`.
pub open spec fn spec_concluded_through(
    s: Stages,
    before: &World,
    map_before: &GameMap,
    log_before: &Logbook,
    runstate: RunState,
    routes: Seq<Option<Route>>,
    now_ms: u128,
    after: &World,
    map_after: &GameMap,
    log_after: &Logbook,
    game_over: bool,
    promoted: Seq<Entity>,
    dead: Seq<Entity>,
) -> bool {
    &&& spec_pursued(before, map_before, runstate, routes, &s.moved)
    &&& spec_reindexed(&s.moved, map_before, &s.indexed)
    &&& spec_trapped(&s.moved, &s.indexed, log_before, &s.sprung, &s.sprung_log, s.removed, s.sparks)
    &&& spec_fought(&s.sprung, &s.sprung_log, &s.fought, &s.fought_log, s.blows)
    &&& spec_hurt(&s.fought, &s.indexed, &s.hurt, map_after)
    &&& spec_taught(&s.hurt, &s.fought_log, &s.taught, &s.taught_log, promoted)
    &&& spec_swept(&s.taught, s.removed, s.expired, now_ms as int, &s.settled)
    &&& spec_particles_made(&s.settled, s.sparks, s.blows, now_ms, &s.shown)
    &&& game_over == spec_game_over(&s.shown)
    &&& spec_buried(&s.shown, &s.taught_log, after, log_after, dead)
}

/// The second half of a tick has made `after` of `before`: pursuit,
/// spatial index, triggers, combat, damage, levelling, the sweep of what
/// went off or ran out, the particles, and the clearing away of the dead,
/// each on what the one before it has left.
pub open spec fn spec_concluded(
    before: &World,
    map_before: &GameMap,
    log_before: &Logbook,
    runstate: RunState,
    routes: Seq<Option<Route>>,
    now_ms: u128,
    after: &World,
    map_after: &GameMap,
    log_after: &Logbook,
    game_over: bool,
    promoted: Seq<Entity>,
    dead: Seq<Entity>,
) -> bool {
    exists|s: Stages|
        #[trigger] spec_concluded_through(
            s,
            before,
            map_before,
            log_before,
            runstate,
            routes,
            now_ms,
            after,
            map_after,
            log_after,
            game_over,
            promoted,
            dead,
        )
}

/// A whole tick has made `after` of `before`: its first half, and then its
/// second half on what the first has left.
pub open spec fn spec_ticked(
    before: &World,
    map_before: &GameMap,
    log_before: &Logbook,
    runstate: RunState,
    routes: Seq<Option<Route>>,
    now_ms: u128,
    after: &World,
    map_after: &GameMap,
    log_after: &Logbook,
    game_over: bool,
    promoted: Seq<Entity>,
    dead: Seq<Entity>,
) -> bool {
    exists|mid: (World, GameMap, Logbook)|
        #[trigger] spec_sensed(before, map_before, log_before, &mid.0, &mid.1, &mid.2) && spec_concluded(
            &mid.0,
            &mid.1,
            &mid.2,
            runstate,
            routes,
            now_ms,
            after,
            map_after,
            log_after,
            game_over,
            promoted,
            dead,
        )
}

} // verus!
