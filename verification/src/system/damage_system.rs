//! Applies the damage queued this tick: takes it from health, stains the
//! ground, and awards experience for every kill.

use crate::combat::spec_experience_view;
use crate::component::{clamp, spec_clamp, spec_sum, sum, Damage, Entity, Experience, Pool, Stats, Table};
use crate::geometry::Position;
use crate::logbook::{
    lemma_log_grew_once_more, spec_line_text, spec_log_grew_by, LogFragment, Logbook, Logger, Tint,
};
use crate::map::GameMap;
use crate::world::World;
use crate::system::map_indexing_system::{spec_positions_on_map, spec_stands_on};
use vstd::prelude::*;

verus! {

/// Experience awarded for a kill, per level of the victim.
pub const EXPERIENCE_PER_LEVEL: i32 = 100;

/// Entity `e` has both stats and pending damage.
pub open spec fn spec_damaged(stats: Seq<Option<Stats>>, damages: Seq<Option<Damage>>, e: int) -> bool {
    0 <= e < stats.len() && e < damages.len() && stats[e] is Some && damages[e] is Some
}

/// The health that is left once the pending amounts have been taken off.
pub open spec fn spec_health_left(stats: Stats, damage: Damage) -> int {
    spec_clamp(stats.hp.current - spec_sum(damage.amount@))
}

/// `stats` after the pending damage, if any, has been applied.
pub open spec fn spec_wounded(stats: Option<Stats>, damage: Option<Damage>) -> Option<Stats> {
    match (stats, damage) {
        (Some(s), Some(d)) => Some(
            Stats { hp: Pool { current: spec_health_left(s, d) as i32, max: s.hp.max }, ..s },
        ),
        _ => stats,
    }
}

/// The damage pending against `v` brings its health to zero or below, and
/// `a` is recorded as the attacker.
pub open spec fn spec_kills(stats: Seq<Option<Stats>>, damages: Seq<Option<Damage>>, a: Entity, v: int) -> bool {
    spec_damaged(stats, damages, v) && spec_health_left(stats[v].unwrap(), damages[v].unwrap()) <= 0
        && damages[v].unwrap().attacker == Some(a)
}

/// What a kill of `victim` is worth.
pub open spec fn spec_bounty(victim: Stats) -> int {
    spec_clamp(victim.level * EXPERIENCE_PER_LEVEL)
}

/// The awards that `a` earns for its kills among the first `n` entities, in
/// the order of the victims' identifiers.
pub open spec fn spec_awards(stats: Seq<Option<Stats>>, damages: Seq<Option<Damage>>, a: Entity, n: int) -> Seq<
    i32,
>
    decreases n,
{
    if n <= 0 {
        Seq::empty()
    } else {
        let rest = spec_awards(stats, damages, a, n - 1);
        if spec_kills(stats, damages, a, n - 1) {
            rest.push(spec_bounty(stats[n - 1].unwrap()) as i32)
        } else {
            rest
        }
    }
}

/// A queue of experience with `awards` added at its end.
pub open spec fn spec_awarded(pending: Option<Seq<i32>>, awards: Seq<i32>) -> Option<Seq<i32>> {
    match pending {
        Some(p) => Some(p + awards),
        None => if awards.len() == 0 {
            None
        } else {
            Some(awards)
        },
    }
}

/// Every recorded attacker is an entity of the tables.
pub open spec fn spec_attackers_valid(damages: Seq<Option<Damage>>) -> bool {
    forall|e: int|
        0 <= e < damages.len() ==> ((#[trigger] damages[e]) matches Some(d) ==> (d.attacker matches Some(a)
            ==> a.id < damages.len()))
}

pub struct DamageSystem {}

impl DamageSystem {
    /// Applies and clears the pending damage.
    ///
    /// Every entity with stats and pending damage loses the sum of the
    /// pending amounts from its current health, and the tile it stands on,
    /// if it has a position, is stained for good. Where that brings the
    /// health to zero or below and an attacker is recorded, the attacker is
    /// awarded `EXPERIENCE_PER_LEVEL` per level of the victim.
    pub fn run(
        &self,
        stats: &mut Table<Stats>,
        damages: &mut Table<Damage>,
        positions: &Table<Position>,
        experiences: &mut Table<Experience>,
        map: &mut GameMap,
    )
        requires
            old(map).wf(),
            old(stats).len() == positions.len(),
            old(damages).len() == positions.len(),
            old(experiences).len() == positions.len(),
            spec_positions_on_map(positions@, old(map)),
            spec_attackers_valid(old(damages)@),
        ensures
            final(map).wf(),
            final(map).same_terrain(old(map)),
            final(map).revealed_tiles@ == old(map).revealed_tiles@,
            final(map).blocked_tiles@ == old(map).blocked_tiles@,
            final(map).tile_content@ == old(map).tile_content@,
            final(stats).len() == old(stats).len(),
            final(damages).len() == old(damages).len(),
            final(experiences).len() == old(experiences).len(),
            forall|e: int|
                0 <= e < old(stats).len() ==> #[trigger] final(stats)[e] == spec_wounded(
                    old(stats)[e],
                    old(damages)[e],
                ),
            forall|e: int| 0 <= e < final(damages).len() ==> #[trigger] final(damages)[e] is None,
            forall|a: int|
                0 <= a < old(experiences).len() ==> spec_experience_view(#[trigger] final(experiences)[a])
                    == spec_awarded(
                    spec_experience_view(old(experiences)[a]),
                    spec_awards(old(stats)@, old(damages)@, Entity { id: a as usize }, old(stats).len() as int),
                ),
            forall|t: usize|
                (#[trigger] final(map).bloodstains@.contains(t) <==> (old(map).bloodstains@.contains(t) || exists|e: int|
                    #[trigger] spec_damaged(old(stats)@, old(damages)@, e) && spec_stands_on(
                        positions@,
                        e,
                        old(map).width as int,
                        t as int,
                    ))),
    {
        let n: usize = positions.len();
        let ghost w = map.width as int;
        let mut i: usize = 0;
        while i < n
            invariant
                i <= n,
                n == positions.len(),
                stats.len() == n,
                damages.len() == n,
                experiences.len() == n,
                old(stats).len() == n,
                old(experiences).len() == n,
                w == map.width,
                damages@ == old(damages)@,
                map.wf(),
                map.same_terrain(old(map)),
                map.revealed_tiles@ == old(map).revealed_tiles@,
                map.blocked_tiles@ == old(map).blocked_tiles@,
                map.tile_content@ == old(map).tile_content@,
                spec_positions_on_map(positions@, map),
                spec_attackers_valid(damages@),
                forall|e: int|
                    0 <= e < n ==> #[trigger] stats[e] == (if e < i {
                        spec_wounded(old(stats)[e], old(damages)[e])
                    } else {
                        old(stats)[e]
                    }),
                forall|a: int|
                    0 <= a < n ==> spec_experience_view(#[trigger] experiences[a]) == spec_awarded(
                        spec_experience_view(old(experiences)[a]),
                        spec_awards(old(stats)@, old(damages)@, Entity { id: a as usize }, i as int),
                    ),
                forall|t: usize|
                    (#[trigger] map.bloodstains@.contains(t) <==> (old(map).bloodstains@.contains(t) || exists|e: int|
                        e < i && #[trigger] spec_damaged(old(stats)@, old(damages)@, e) && spec_stands_on(
                            positions@,
                            e,
                            w,
                            t as int,
                        ))),
            decreases n - i,
        {
            let ghost stains_before = map.bloodstains@;
            let ghost exp_before = experiences@;
            let own: Option<Stats> = stats[i];
            match (own, &damages[i]) {
                (Some(s), Some(d)) => {
                    assert(spec_damaged(old(stats)@, old(damages)@, i as int));
                    let total: i128 = sum(&d.amount);
                    let left: i32 = clamp(s.hp.current as i128 - total);
                    stats.set(i, Some(Stats { hp: Pool { current: left, max: s.hp.max }, ..s }));
                    if left <= 0 {
                        match d.attacker {
                            Some(attacker) => {
                                let bounty: i32 = clamp(s.level as i128 * EXPERIENCE_PER_LEVEL as i128);
                                Experience::new(experiences, attacker, bounty);
                                assert(spec_kills(old(stats)@, old(damages)@, attacker, i as int));
                            },
                            None => {},
                        }
                    }
                    match positions[i] {
                        Some(p) => {
                            let index: usize = map.xy_idx(p.x, p.y);
                            let _ = map.bloodstains.insert(index);
                            assert(spec_stands_on(positions@, i as int, w, index as int));
                        },
                        None => {},
                    }
                },
                _ => {},
            }
            proof {
                assert forall|a: int| 0 <= a < n implies spec_experience_view(#[trigger] experiences[a])
                    == spec_awarded(
                    spec_experience_view(old(experiences)[a]),
                    spec_awards(old(stats)@, old(damages)@, Entity { id: a as usize }, i + 1),
                ) by {
                    let who = Entity { id: a as usize };
                    let earlier = spec_awards(old(stats)@, old(damages)@, who, i as int);
                    assert(spec_experience_view(exp_before[a]) == spec_awarded(
                        spec_experience_view(old(experiences)[a]),
                        earlier,
                    ));
                    if spec_kills(old(stats)@, old(damages)@, who, i as int) {
                        let bounty = spec_bounty(old(stats)[i as int].unwrap()) as i32;
                        match spec_experience_view(old(experiences)[a]) {
                            Some(p) => {
                                assert((p + earlier).push(bounty) =~= p + earlier.push(bounty));
                            },
                            None => {
                                assert(seq![bounty] =~= Seq::<i32>::empty().push(bounty));
                                if earlier.len() == 0 {
                                    assert(earlier =~= Seq::<i32>::empty());
                                }
                            },
                        }
                    }
                }
                assert forall|t: usize| (#[trigger] map.bloodstains@.contains(t)
                    <==> (old(map).bloodstains@.contains(t) || exists|e: int|
                    e < i + 1 && #[trigger] spec_damaged(old(stats)@, old(damages)@, e) && spec_stands_on(
                        positions@,
                        e,
                        w,
                        t as int,
                    ))) by {
                    if stains_before.contains(t) {
                        if !old(map).bloodstains@.contains(t) {
                            let e = choose|e: int|
                                e < i && #[trigger] spec_damaged(old(stats)@, old(damages)@, e)
                                    && spec_stands_on(positions@, e, w, t as int);
                            assert(e < i + 1 && spec_damaged(old(stats)@, old(damages)@, e) && spec_stands_on(
                                positions@,
                                e,
                                w,
                                t as int,
                            ));
                        }
                    } else if map.bloodstains@.contains(t) {
                        assert(spec_damaged(old(stats)@, old(damages)@, i as int) && spec_stands_on(
                            positions@,
                            i as int,
                            w,
                            t as int,
                        ));
                    } else {
                        assert forall|e: int|
                            e < i + 1 && #[trigger] spec_damaged(
                                old(stats)@,
                                old(damages)@,
                                e,
                            ) implies !spec_stands_on(positions@, e, w, t as int) by {
                            if e < i {
                            }
                        }
                    }
                }
            }
            i += 1;
        }
        let mut j: usize = 0;
        while j < n
            invariant
                j <= n,
                damages.len() == n,
                forall|e: int| 0 <= e < j ==> #[trigger] damages[e] is None,
            decreases n - j,
        {
            damages.set(j, None);
            j += 1;
        }
        proof {
            assert forall|t: usize| (#[trigger] map.bloodstains@.contains(t) <==> (
            old(map).bloodstains@.contains(t) || exists|e: int|
                #[trigger] spec_damaged(old(stats)@, old(damages)@, e) && spec_stands_on(
                    positions@,
                    e,
                    w,
                    t as int,
                ))) by {
                if exists|e: int|
                    #[trigger] spec_damaged(old(stats)@, old(damages)@, e) && spec_stands_on(
                        positions@,
                        e,
                        w,
                        t as int,
                    ) {
                    let e = choose|e: int|
                        #[trigger] spec_damaged(old(stats)@, old(damages)@, e) && spec_stands_on(
                            positions@,
                            e,
                            w,
                            t as int,
                        );
                    assert(e < i);
                }
            }
        }
    }
}

/// A victim whose pending damage reaches its current health is left with no
/// health, and the recorded attacker's award for it is the victim's level
/// times `EXPERIENCE_PER_LEVEL`.
pub proof fn lemma_kill_is_rewarded(victim: Stats, damage: Damage)
    requires
        spec_sum(damage.amount@) >= victim.hp.current,
        0 <= victim.level <= 1000,
    ensures
        spec_health_left(victim, damage) <= 0,
        spec_bounty(victim) == victim.level * 100,
{
    crate::component::lemma_sum_bounds(damage.amount@);
}

/// Entity `e` has stats, and its health is at zero or below.
pub open spec fn spec_doomed(world: &World, e: int) -> bool {
    0 <= e < world.spec_len() && (world.stats[e] matches Some(s) && s.hp.current <= 0)
}

/// The line that announces the end of the entity called `name`.
pub open spec fn spec_obituary(name: Seq<char>) -> Seq<char> {
    name + " has died."@
}

/// The lines that announce the doomed among the first `upto` entities: one
/// for each that has a name, in the order of the identifiers.
pub open spec fn spec_obituaries(world: &World, upto: int) -> Seq<Seq<char>>
    decreases upto,
{
    if upto <= 0 {
        Seq::empty()
    } else {
        let said = spec_obituaries(world, upto - 1);
        match world.names[upto - 1] {
            Some(name) if spec_doomed(world, upto - 1) => said.push(spec_obituary(name.name@)),
            _ => said,
        }
    }
}

/// Entity `e` is doomed and is no player: the cleanup removes it.
pub open spec fn spec_reaped(world: &World, e: int) -> bool {
    spec_doomed(world, e) && !world.players[e]
}

/// A player's health is at zero or below.
pub open spec fn spec_game_over(world: &World) -> bool {
    exists|e: int| 0 <= e < world.spec_len() && #[trigger] world.players[e] && (world.stats[e] matches Some(s)
        && s.hp.current <= 0)
}

/// Removes every entity whose health is at zero or below from the world,
/// unless it is a player: a player's end is for `is_game_over` to report.
/// Each such entity that has a name is announced, players too. Returns what
/// was removed, in the order of the identifiers.
pub fn cleanup_dead_entities(world: &mut World, log: &mut Logbook) -> (dead: Vec<Entity>)
    requires
        old(world).wf(),
    ensures
        final(world).wf(),
        final(world).spec_len() == old(world).spec_len(),
        final(world).player == old(world).player,
        forall|j: int|
            0 <= j < old(world).spec_len() && spec_reaped(old(world), j) ==> #[trigger] final(world).spec_row_empty(
                j,
            ),
        forall|j: int|
            0 <= j < old(world).spec_len() && !spec_reaped(old(world), j) ==> #[trigger] final(world).spec_row_same(old(world), j),
        forall|a: int, b: int| 0 <= a < b < dead@.len() ==> dead@[a].id < dead@[b].id,
        forall|k: int| 0 <= k < dead@.len() ==> spec_reaped(old(world), (#[trigger] dead@[k]).id as int),
        forall|j: int| #[trigger] spec_reaped(old(world), j) ==> dead@.contains(Entity { id: j as usize }),
        spec_log_grew_by(old(log), final(log), spec_obituaries(old(world), old(world).spec_len() as int)),
{
    let n: usize = world.len();
    let mut dead: Vec<Entity> = Vec::new();
    let mut i: usize = 0;
    while i < n
        invariant
            i <= n,
            n == world.spec_len(),
            n == old(world).spec_len(),
            world.wf(),
            world.player == old(world).player,
            forall|j: int| 0 <= j < i && spec_reaped(old(world), j) ==> #[trigger] world.spec_row_empty(j),
            forall|j: int|
                0 <= j < n && !(j < i && spec_reaped(old(world), j)) ==> #[trigger] world.spec_row_same(
                    old(world),
                    j,
                ),
            forall|a: int, b: int| 0 <= a < b < dead@.len() ==> dead@[a].id < dead@[b].id,
            forall|k: int|
                0 <= k < dead@.len() ==> spec_reaped(old(world), (#[trigger] dead@[k]).id as int) && dead@[k].id < i,
            forall|j: int|
                j < i && #[trigger] spec_reaped(old(world), j) ==> dead@.contains(Entity { id: j as usize }),
            spec_log_grew_by(old(log), log, spec_obituaries(old(world), i as int)),
        decreases n - i,
    {
        let ghost before = *world;
        let ghost dead_before = dead@;
        assert(world.spec_row_same(old(world), i as int));
        let who: Entity = Entity { id: i };
        let mut gone: bool = false;
        match world.stats[i] {
            Some(s) => {
                if s.hp.current <= 0 {
                    match &world.names[i] {
                        Some(name) => {
                            let is_player: bool = match world.player {
                                Some(p) => p == who,
                                None => false,
                            };
                            let color: Tint = if world.monsters[i] {
                                Tint::Red
                            } else if is_player {
                                Tint::Green
                            } else {
                                Tint::Gray
                            };
                            let line: Logger = Logger::new().with_color(color).append(name.name.as_str()).append(
                                " ",
                            ).with_color(Tint::White).append("has died.");
                            proof {
                                reveal_strlit(" ");
                                reveal_strlit("has died.");
                                reveal_strlit(" has died.");
                                assert(spec_line_text(Seq::<LogFragment>::empty()) =~= Seq::<char>::empty());
                                assert(spec_line_text(line.fragments@) =~= spec_obituary(name.name@));
                            }
                            let ghost log_before = *log;
                            let ghost fragments = line.fragments;
                            line.log(log);
                            proof {
                                lemma_log_grew_once_more(
                                    old(log),
                                    &log_before,
                                    log,
                                    spec_obituaries(old(world), i as int),
                                    fragments,
                                );
                            }
                        },
                        None => {},
                    }
                    gone = !world.players[i];
                }
            },
            None => {},
        }
        assert(spec_log_grew_by(old(log), log, spec_obituaries(old(world), i + 1)));
        assert(gone == spec_reaped(old(world), i as int));
        if gone {
            world.delete_entity(who);
            dead.push(who);
            assert(dead@[dead_before.len() as int] == who);
        }
        proof {
            assert forall|j: int| 0 <= j < i + 1 && spec_reaped(old(world), j) implies #[trigger] world.spec_row_empty(
                j,
            ) by {
                if j != i {
                    assert(before.spec_row_empty(j));
                    if gone {
                        assert(world.spec_row_same(&before, j));
                    }
                }
            }
            assert forall|j: int|
                0 <= j < n && !(j < i + 1 && spec_reaped(old(world), j)) implies #[trigger] world.spec_row_same(
                old(world),
                j,
            ) by {
                assert(before.spec_row_same(old(world), j));
                if gone {
                    assert(world.spec_row_same(&before, j));
                }
            }
            assert forall|j: int| j < i + 1 && #[trigger] spec_reaped(old(world), j) implies dead@.contains(
                Entity { id: j as usize },
            ) by {
                if j < i {
                    let k = choose|k: int| 0 <= k < dead_before.len() && dead_before[k] == Entity { id: j as usize };
                    assert(dead@[k] == Entity { id: j as usize });
                }
            }
        }
        i += 1;
    }
    dead
}

/// Whether a player's health is at zero or below.
pub fn is_game_over(world: &World) -> (over: bool)
    requires
        world.wf(),
    ensures
        over == spec_game_over(world),
{
    let mut i: usize = 0;
    while i < world.len()
        invariant
            i <= world.spec_len(),
            world.wf(),
            forall|e: int|
                0 <= e < i ==> !(#[trigger] world.players[e] && (world.stats[e] matches Some(s) && s.hp.current
                    <= 0)),
        decreases world.spec_len() - i,
    {
        if world.players[i] {
            match world.stats[i] {
                Some(s) => {
                    if s.hp.current <= 0 {
                        return true;
                    }
                },
                None => {},
            }
        }
        i += 1;
    }
    false
}

} // verus!
