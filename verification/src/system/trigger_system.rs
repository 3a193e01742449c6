//! Traps and other things that go off when a creature stands on them.

use crate::combat::spec_damage_view;
use crate::component::{Damage, Entity, Flags, Name, Stats, Table, Triggerable};
use crate::geometry::Position;
use crate::logbook::{decimal, spec_decimal, spec_line_text, LogFragment, Logbook, Logger, Tint};
use crate::map::GameMap;
use crate::system::map_indexing_system::spec_positions_on_map;
use crate::system::visibility_system::spec_content_in_range;
use vstd::prelude::*;

verus! {

/// Entity `e` walks: it has a position, a name and stats.
pub open spec fn spec_walks(
    positions: Seq<Option<Position>>,
    names: Seq<Option<Name>>,
    stats: Seq<Option<Stats>>,
    e: int,
) -> bool {
    0 <= e < positions.len() && e < names.len() && e < stats.len() && positions[e] is Some && names[e] is Some
        && stats[e] is Some
}

/// Every triggerable entity has a name.
pub open spec fn spec_triggers_named(triggerables: Seq<Option<Triggerable>>, names: Seq<Option<Name>>) -> bool {
    forall|c: int| 0 <= c < triggerables.len() && (#[trigger] triggerables[c]) is Some ==> names[c] is Some
}

/// The damage that the first `m` of the occupants deal to whoever stands
/// with them, in their order: one amount for each that is triggerable.
pub open spec fn spec_sprung_amounts(triggerables: Seq<Option<Triggerable>>, occupants: Seq<Entity>, m: int) -> Seq<
    i32,
>
    decreases m,
{
    if m <= 0 {
        Seq::empty()
    } else {
        let rest = spec_sprung_amounts(triggerables, occupants, m - 1);
        match triggerables[occupants[m - 1].id as int] {
            Some(t) => rest.push(t.damage),
            None => rest,
        }
    }
}

/// What is pending against a victim once `amounts` have been queued with
/// no attacker named.
pub open spec fn spec_struck(pending: Option<(Seq<i32>, Option<Entity>)>, amounts: Seq<i32>) -> Option<
    (Seq<i32>, Option<Entity>),
> {
    match pending {
        Some(p) => Some((p.0 + amounts, p.1)),
        None => if amounts.len() == 0 {
            None
        } else {
            Some((amounts, None))
        },
    }
}

/// The occupants listed on the tile where entity `e` stands.
pub open spec fn spec_company(map: &GameMap, positions: Seq<Option<Position>>, e: int) -> Seq<Entity> {
    map.tile_content[map.spec_idx(positions[e].unwrap().x as int, positions[e].unwrap().y as int)]@
}

/// Entity `c` is triggerable and listed on the tile of a walker.
pub open spec fn spec_sprung(
    map: &GameMap,
    positions: Seq<Option<Position>>,
    names: Seq<Option<Name>>,
    stats: Seq<Option<Stats>>,
    triggerables: Seq<Option<Triggerable>>,
    c: int,
) -> bool {
    0 <= c < triggerables.len() && triggerables[c] is Some && exists|e: int|
        #[trigger] spec_walks(positions, names, stats, e) && spec_company(map, positions, e).contains(
            Entity { id: c as usize },
        )
}

pub open spec fn spec_trigger_text(walker: Seq<char>, trigger: Seq<char>, damage: int) -> Seq<char> {
    walker + " "@ + "triggered "@ + trigger + ", "@ + "dealing "@ + spec_decimal(damage) + " damage!"@
}

/// What goes off under the walker `e` among the first `m` occupants of its
/// tile: for each that is triggerable, the occupant, the walker's place,
/// and the line that tells of it, in the order in which the map lists them.
pub open spec fn spec_tile_events(
    positions: Seq<Option<Position>>,
    names: Seq<Option<Name>>,
    triggerables: Seq<Option<Triggerable>>,
    company: Seq<Entity>,
    e: int,
    m: int,
) -> Seq<(Entity, Position, Seq<char>)>
    decreases m,
{
    if m <= 0 {
        Seq::empty()
    } else {
        let rest = spec_tile_events(positions, names, triggerables, company, e, m - 1);
        let c = company[m - 1];
        match triggerables[c.id as int] {
            Some(t) => rest.push(
                (
                    c,
                    positions[e].unwrap(),
                    spec_trigger_text(names[e].unwrap().name@, names[c.id as int].unwrap().name@, t.damage as int),
                ),
            ),
            None => rest,
        }
    }
}

/// What goes off under the first `n` entities, walker by walker in the
/// order of the identifiers.
pub open spec fn spec_events(
    map: &GameMap,
    positions: Seq<Option<Position>>,
    names: Seq<Option<Name>>,
    stats: Seq<Option<Stats>>,
    triggerables: Seq<Option<Triggerable>>,
    n: int,
) -> Seq<(Entity, Position, Seq<char>)>
    decreases n,
{
    if n <= 0 {
        Seq::empty()
    } else {
        let rest = spec_events(map, positions, names, stats, triggerables, n - 1);
        if spec_walks(positions, names, stats, n - 1) {
            rest + spec_tile_events(
                positions,
                names,
                triggerables,
                spec_company(map, positions, n - 1),
                n - 1,
                spec_company(map, positions, n - 1).len() as int,
            )
        } else {
            rest
        }
    }
}

/// The pass has reported `events`: each with what went off in `removed`,
/// its place in `particles`, and its line added to the log, in their
/// order.
pub open spec fn spec_events_told(
    events: Seq<(Entity, Position, Seq<char>)>,
    removed: Seq<Entity>,
    particles: Seq<Position>,
    log_before: &Logbook,
    log_after: &Logbook,
) -> bool {
    &&& removed.len() == events.len()
    &&& particles.len() == events.len()
    &&& log_after.extends(log_before)
    &&& log_after.entries@.len() == log_before.entries@.len() + events.len()
    &&& forall|k: int|
        0 <= k < events.len() ==> removed[k] == (#[trigger] events[k]).0 && particles[k] == events[k].1
            && spec_line_text(log_after.entries@[log_before.entries@.len() + k]@) == events[k].2
}

/// What a pass over the triggers leaves for the driver to do.
pub struct TriggerOutcome {
    /// Where something went off, once for each time.
    pub particles: Vec<Position>,
    /// What went off and has to be removed, once for each time.
    pub removed: Vec<Entity>,
}

pub struct TriggerSystem {}

impl TriggerSystem {
    /// Springs every triggerable entity that the map lists on the tile of a
    /// creature with a position, a name and stats: its damage is queued
    /// against the creature with no attacker named, it is no longer hidden,
    /// and it is reported for removal.
    pub fn run(
        &self,
        map: &GameMap,
        positions: &Table<Position>,
        names: &Table<Name>,
        stats: &Table<Stats>,
        triggerables: &Table<Triggerable>,
        hidden: &mut Flags,
        damages: &mut Table<Damage>,
        log: &mut Logbook,
    ) -> (outcome: TriggerOutcome)
        requires
            map.wf(),
            positions.len() == names.len(),
            stats.len() == names.len(),
            triggerables.len() == names.len(),
            old(hidden).len() == names.len(),
            old(damages).len() == names.len(),
            spec_positions_on_map(positions@, map),
            spec_content_in_range(map, names.len() as int),
            spec_triggers_named(triggerables@, names@),
        ensures
            final(hidden).len() == old(hidden).len(),
            final(damages).len() == old(damages).len(),
            forall|e: int|
                0 <= e < old(damages).len() ==> spec_damage_view(#[trigger] final(damages)[e]) == (if spec_walks(
                    positions@,
                    names@,
                    stats@,
                    e,
                ) {
                    spec_struck(
                        spec_damage_view(old(damages)[e]),
                        spec_sprung_amounts(
                            triggerables@,
                            spec_company(map, positions@, e),
                            spec_company(map, positions@, e).len() as int,
                        ),
                    )
                } else {
                    spec_damage_view(old(damages)[e])
                }),
            forall|c: int|
                0 <= c < old(hidden).len() ==> #[trigger] final(hidden)[c] == (old(hidden)[c] && !spec_sprung(
                    map,
                    positions@,
                    names@,
                    stats@,
                    triggerables@,
                    c,
                )),
            forall|k: int|
                0 <= k < outcome.removed@.len() ==> spec_sprung(
                    map,
                    positions@,
                    names@,
                    stats@,
                    triggerables@,
                    (#[trigger] outcome.removed@[k]).id as int,
                ),
            forall|c: int|
                #[trigger] spec_sprung(map, positions@, names@, stats@, triggerables@, c)
                    ==> outcome.removed@.contains(Entity { id: c as usize }),
            outcome.particles@.len() == outcome.removed@.len(),
            final(log).extends(old(log)),
            spec_events_told(
                spec_events(map, positions@, names@, stats@, triggerables@, names.len() as int),
                outcome.removed@,
                outcome.particles@,
                old(log),
                final(log),
            ),
    {
        let n: usize = names.len();
        let mut particles: Vec<Position> = Vec::new();
        let mut removed: Vec<Entity> = Vec::new();
        let mut i: usize = 0;
        while i < n
            invariant
                i <= n,
                n == names.len(),
                map.wf(),
                positions.len() == n,
                stats.len() == n,
                triggerables.len() == n,
                hidden.len() == n,
                damages.len() == n,
                old(hidden).len() == n,
                old(damages).len() == n,
                spec_positions_on_map(positions@, map),
                spec_content_in_range(map, n as int),
                spec_triggers_named(triggerables@, names@),
                forall|e: int|
                    0 <= e < n ==> spec_damage_view(#[trigger] damages[e]) == (if e < i && spec_walks(
                        positions@,
                        names@,
                        stats@,
                        e,
                    ) {
                        spec_struck(
                            spec_damage_view(old(damages)[e]),
                            spec_sprung_amounts(
                                triggerables@,
                                spec_company(map, positions@, e),
                                spec_company(map, positions@, e).len() as int,
                            ),
                        )
                    } else {
                        spec_damage_view(old(damages)[e])
                    }),
                forall|c: int|
                    0 <= c < n ==> #[trigger] hidden[c] == (old(hidden)[c] && !(triggerables[c] is Some
                        && exists|e: int|
                        e < i && #[trigger] spec_walks(positions@, names@, stats@, e) && spec_company(
                            map,
                            positions@,
                            e,
                        ).contains(Entity { id: c as usize }))),
                forall|k: int|
                    0 <= k < removed@.len() ==> spec_sprung(
                        map,
                        positions@,
                        names@,
                        stats@,
                        triggerables@,
                        (#[trigger] removed@[k]).id as int,
                    ),
                forall|c: int, e: int|
                    0 <= c < n && triggerables[c] is Some && e < i && #[trigger] spec_walks(
                        positions@,
                        names@,
                        stats@,
                        e,
                    ) && #[trigger] spec_company(map, positions@, e).contains(Entity { id: c as usize })
                        ==> removed@.contains(Entity { id: c as usize }),
                particles@.len() == removed@.len(),
                log.extends(old(log)),
                spec_events_told(
                    spec_events(map, positions@, names@, stats@, triggerables@, i as int),
                    removed@,
                    particles@,
                    old(log),
                    log,
                ),
            decreases n - i,
        {
            match (positions[i], &names[i], &stats[i]) {
                (Some(position), Some(name), Some(_)) => {
                    assert(spec_walks(positions@, names@, stats@, i as int));
                    let index: usize = map.xy_idx(position.x, position.y);
                    let ghost company = map.tile_content[index as int]@;
                    assert(company == spec_company(map, positions@, i as int));
                    let ghost pending = spec_damage_view(damages[i as int]);
                    let mut m: usize = 0;
                    while m < map.tile_content[index].len()
                        invariant
                            i < n,
                            n == names.len(),
                            index < map.tile_content.len(),
                            company == map.tile_content[index as int]@,
                            company == spec_company(map, positions@, i as int),
                            m <= company.len(),
                            position == positions[i as int].unwrap(),
                            spec_walks(positions@, names@, stats@, i as int),
                            map.wf(),
                            positions.len() == n,
                            stats.len() == n,
                            triggerables.len() == n,
                            hidden.len() == n,
                            damages.len() == n,
                            old(hidden).len() == n,
                            old(damages).len() == n,
                            spec_content_in_range(map, n as int),
                            spec_triggers_named(triggerables@, names@),
                            pending == spec_damage_view(old(damages)[i as int]),
                            spec_damage_view(damages[i as int]) == spec_struck(
                                pending,
                                spec_sprung_amounts(triggerables@, company, m as int),
                            ),
                            forall|e: int|
                                0 <= e < n && e != i ==> spec_damage_view(#[trigger] damages[e]) == (if e < i
                                    && spec_walks(positions@, names@, stats@, e) {
                                    spec_struck(
                                        spec_damage_view(old(damages)[e]),
                                        spec_sprung_amounts(
                                            triggerables@,
                                            spec_company(map, positions@, e),
                                            spec_company(map, positions@, e).len() as int,
                                        ),
                                    )
                                } else {
                                    spec_damage_view(old(damages)[e])
                                }),
                            forall|c: int|
                                0 <= c < n ==> #[trigger] hidden[c] == (old(hidden)[c] && !(triggerables[c] is Some
                                    && ((exists|e: int|
                                    e < i && #[trigger] spec_walks(positions@, names@, stats@, e) && spec_company(
                                        map,
                                        positions@,
                                        e,
                                    ).contains(Entity { id: c as usize })) || exists|j: int|
                                    0 <= j < m && #[trigger] company[j] == (Entity { id: c as usize })))),
                            forall|k: int|
                                0 <= k < removed@.len() ==> spec_sprung(
                                    map,
                                    positions@,
                                    names@,
                                    stats@,
                                    triggerables@,
                                    (#[trigger] removed@[k]).id as int,
                                ),
                            forall|c: int, e: int|
                                0 <= c < n && triggerables[c] is Some && e < i && #[trigger] spec_walks(
                                    positions@,
                                    names@,
                                    stats@,
                                    e,
                                ) && #[trigger] spec_company(map, positions@, e).contains(
                                    Entity { id: c as usize },
                                ) ==> removed@.contains(Entity { id: c as usize }),
                            forall|j: int|
                                0 <= j < m && triggerables[(#[trigger] company[j]).id as int] is Some
                                    ==> removed@.contains(company[j]),
                            particles@.len() == removed@.len(),
                            log.extends(old(log)),
                            names[i as int] == Some(*name),
                            spec_events_told(
                                spec_events(map, positions@, names@, stats@, triggerables@, i as int)
                                    + spec_tile_events(positions@, names@, triggerables@, company, i as int, m as int),
                                removed@,
                                particles@,
                                old(log),
                                log,
                            ),
                        decreases company.len() - m,
                    {
                        let ghost hidden_before = hidden@;
                        let ghost removed_before = removed@;
                        let ghost damage_before = damages@;
                        let ghost particles_before = particles@;
                        let ghost log_before = *log;
                        let ghost told = spec_events(map, positions@, names@, stats@, triggerables@, i as int)
                            + spec_tile_events(positions@, names@, triggerables@, company, i as int, m as int);
                        let colocated: Entity = map.tile_content[index][m];
                        assert(company[m as int] == colocated);
                        assert(colocated.id < n);
                        match triggerables[colocated.id] {
                            Some(trigger) => {
                                let trigger_name: &Name = names[colocated.id].as_ref().unwrap();
                                let amount: String = decimal(trigger.damage);
                                let line: Logger = Logger::new().with_color(Tint::Blue).append(
                                    name.name.as_str(),
                                ).append(" ").with_color(Tint::White).append("triggered ").with_color(
                                    Tint::Blue,
                                ).append(trigger_name.name.as_str()).append(", ").with_color(Tint::White).append(
                                    "dealing ",
                                ).with_color(Tint::Red).append(amount.as_str()).append(" damage!");
                                assert(spec_line_text(line.fragments@) =~= spec_trigger_text(
                                    name.name@,
                                    trigger_name.name@,
                                    trigger.damage as int,
                                )) by {
                                    assert(spec_line_text(Seq::<LogFragment>::empty()) =~= Seq::<char>::empty());
                                }
                                let ghost fragments = line.fragments;
                                line.log(log);
                                Damage::new_damage(damages, None, Entity { id: i }, trigger.damage);
                                hidden.set(colocated.id, false);
                                particles.push(position);
                                removed.push(colocated);
                                proof {
                                    assert(company.contains(colocated));
                                    assert(spec_sprung(
                                        map,
                                        positions@,
                                        names@,
                                        stats@,
                                        triggerables@,
                                        colocated.id as int,
                                    ));
                                    assert(removed@[removed_before.len() as int] == colocated);
                                    let event = (
                                        colocated,
                                        position,
                                        spec_trigger_text(name.name@, trigger_name.name@, trigger.damage as int),
                                    );
                                    let told_now = spec_events(
                                        map,
                                        positions@,
                                        names@,
                                        stats@,
                                        triggerables@,
                                        i as int,
                                    ) + spec_tile_events(positions@, names@, triggerables@, company, i as int, m + 1);
                                    assert(told_now =~= told.push(event));
                                    assert forall|k: int| 0 <= k < told_now.len() implies removed@[k] == (
                                    #[trigger] told_now[k]).0 && particles@[k] == told_now[k].1 && spec_line_text(
                                        log.entries@[old(log).entries@.len() + k]@,
                                    ) == told_now[k].2 by {
                                        if k < told.len() {
                                            assert(told_now[k] == told[k]);
                                            assert(removed@[k] == removed_before[k]);
                                            assert(particles@[k] == particles_before[k]);
                                            assert(log.entries@[old(log).entries@.len() + k]
                                                == log_before.entries@[old(log).entries@.len() + k]);
                                        } else {
                                            assert(log.entries@[old(log).entries@.len() + k] == fragments);
                                        }
                                    }
                                    assert(spec_events_told(told_now, removed@, particles@, old(log), log));
                                    assert forall|k: int| 0 <= k < removed@.len() implies spec_sprung(
                                        map,
                                        positions@,
                                        names@,
                                        stats@,
                                        triggerables@,
                                        (#[trigger] removed@[k]).id as int,
                                    ) by {
                                        if k < removed_before.len() {
                                            assert(removed@[k] == removed_before[k]);
                                        }
                                    }
                                    assert forall|x: Entity| removed_before.contains(x) implies removed@.contains(
                                        x,
                                    ) by {
                                        let k = choose|k: int| 0 <= k < removed_before.len() && removed_before[k] == x;
                                        assert(removed@[k] == x);
                                    }
                                    let earlier = spec_sprung_amounts(triggerables@, company, m as int);
                                    match pending {
                                        Some(p) => {
                                            assert((p.0 + earlier).push(trigger.damage) =~= p.0 + earlier.push(
                                                trigger.damage,
                                            ));
                                        },
                                        None => {
                                            if earlier.len() == 0 {
                                                assert(seq![trigger.damage] =~= earlier.push(trigger.damage));
                                            }
                                        },
                                    }
                                }
                            },
                            None => {},
                        }
                        proof {
                            assert forall|c: int| 0 <= c < n implies #[trigger] hidden[c] == (old(hidden)[c] && !(
                            triggerables[c] is Some && ((exists|e: int|
                                e < i && #[trigger] spec_walks(positions@, names@, stats@, e) && spec_company(
                                    map,
                                    positions@,
                                    e,
                                ).contains(Entity { id: c as usize })) || exists|j: int|
                                0 <= j < m + 1 && #[trigger] company[j] == (Entity { id: c as usize })))) by {
                                let who = Entity { id: c as usize };
                                if exists|j: int| 0 <= j < m && #[trigger] company[j] == who {
                                    let j = choose|j: int| 0 <= j < m && #[trigger] company[j] == who;
                                    assert(0 <= j < m + 1 && company[j] == who);
                                }
                                if c == colocated.id {
                                    assert(company[m as int] == who);
                                }
                                if exists|j: int| 0 <= j < m + 1 && #[trigger] company[j] == who {
                                    let j = choose|j: int| 0 <= j < m + 1 && #[trigger] company[j] == who;
                                    if j < m {
                                        assert(0 <= j < m && company[j] == who);
                                    } else {
                                        assert(c == colocated.id);
                                    }
                                }
                            }
                            assert forall|j: int|
                                0 <= j < m + 1 && triggerables[(#[trigger] company[j]).id as int] is Some implies removed@.contains(
                                company[j],
                            ) by {
                                if j < m {
                                    assert(removed_before.contains(company[j]));
                                    let k = choose|k: int|
                                        0 <= k < removed_before.len() && removed_before[k] == company[j];
                                    assert(removed@[k] == company[j]);
                                } else {
                                    assert(removed@[removed_before.len() as int] == colocated);
                                }
                            }
                            assert forall|c: int, e: int|
                                0 <= c < n && triggerables[c] is Some && e < i && #[trigger] spec_walks(
                                    positions@,
                                    names@,
                                    stats@,
                                    e,
                                ) && #[trigger] spec_company(map, positions@, e).contains(
                                    Entity { id: c as usize },
                                ) implies removed@.contains(Entity { id: c as usize }) by {
                                let who = Entity { id: c as usize };
                                assert(removed_before.contains(who));
                                let k = choose|k: int| 0 <= k < removed_before.len() && removed_before[k] == who;
                                assert(removed@[k] == who);
                            }
                        }
                        m += 1;
                    }
                    proof {
                        assert forall|c: int| 0 <= c < n implies #[trigger] hidden[c] == (old(hidden)[c] && !(
                        triggerables[c] is Some && exists|e: int|
                            e < i + 1 && #[trigger] spec_walks(positions@, names@, stats@, e) && spec_company(
                                map,
                                positions@,
                                e,
                            ).contains(Entity { id: c as usize }))) by {
                            let who = Entity { id: c as usize };
                            if exists|e: int|
                                e < i && #[trigger] spec_walks(positions@, names@, stats@, e) && spec_company(
                                    map,
                                    positions@,
                                    e,
                                ).contains(who) {
                                let e = choose|e: int|
                                    e < i && #[trigger] spec_walks(positions@, names@, stats@, e) && spec_company(
                                        map,
                                        positions@,
                                        e,
                                    ).contains(who);
                                assert(e < i + 1 && spec_walks(positions@, names@, stats@, e) && spec_company(
                                    map,
                                    positions@,
                                    e,
                                ).contains(who));
                            }
                            if exists|j: int| 0 <= j < m && #[trigger] company[j] == who {
                                assert(company.contains(who));
                                assert(spec_walks(positions@, names@, stats@, i as int) && spec_company(
                                    map,
                                    positions@,
                                    i as int,
                                ).contains(who));
                            }
                            if exists|e: int|
                                e < i + 1 && #[trigger] spec_walks(positions@, names@, stats@, e) && spec_company(
                                    map,
                                    positions@,
                                    e,
                                ).contains(who) {
                                let e = choose|e: int|
                                    e < i + 1 && #[trigger] spec_walks(positions@, names@, stats@, e)
                                        && spec_company(map, positions@, e).contains(who);
                                if e == i {
                                    let j = choose|j: int| 0 <= j < company.len() && company[j] == who;
                                    assert(0 <= j < m && company[j] == who);
                                } else {
                                    assert(e < i && spec_walks(positions@, names@, stats@, e) && spec_company(
                                        map,
                                        positions@,
                                        e,
                                    ).contains(who));
                                }
                            }
                        }
                        assert forall|c: int, e: int|
                            0 <= c < n && triggerables[c] is Some && e < i + 1 && #[trigger] spec_walks(
                                positions@,
                                names@,
                                stats@,
                                e,
                            ) && #[trigger] spec_company(map, positions@, e).contains(
                                Entity { id: c as usize },
                            ) implies removed@.contains(Entity { id: c as usize }) by {
                            let who = Entity { id: c as usize };
                            if e == i {
                                let j = choose|j: int| 0 <= j < company.len() && company[j] == who;
                                assert(triggerables[company[j].id as int] is Some);
                            }
                        }
                    }
                },
                _ => {
                    proof {
                        assert(!spec_walks(positions@, names@, stats@, i as int));
                        assert forall|c: int| 0 <= c < n implies #[trigger] hidden[c] == (old(hidden)[c] && !(
                        triggerables[c] is Some && exists|e: int|
                            e < i + 1 && #[trigger] spec_walks(positions@, names@, stats@, e) && spec_company(
                                map,
                                positions@,
                                e,
                            ).contains(Entity { id: c as usize }))) by {
                            let who = Entity { id: c as usize };
                            if exists|e: int|
                                e < i && #[trigger] spec_walks(positions@, names@, stats@, e) && spec_company(
                                    map,
                                    positions@,
                                    e,
                                ).contains(who) {
                                let e = choose|e: int|
                                    e < i && #[trigger] spec_walks(positions@, names@, stats@, e) && spec_company(
                                        map,
                                        positions@,
                                        e,
                                    ).contains(who);
                                assert(e < i + 1 && spec_walks(positions@, names@, stats@, e) && spec_company(
                                    map,
                                    positions@,
                                    e,
                                ).contains(who));
                            }
                            if exists|e: int|
                                e < i + 1 && #[trigger] spec_walks(positions@, names@, stats@, e) && spec_company(
                                    map,
                                    positions@,
                                    e,
                                ).contains(who) {
                                let e = choose|e: int|
                                    e < i + 1 && #[trigger] spec_walks(positions@, names@, stats@, e)
                                        && spec_company(map, positions@, e).contains(who);
                                assert(e < i && spec_walks(positions@, names@, stats@, e) && spec_company(
                                    map,
                                    positions@,
                                    e,
                                ).contains(who));
                            }
                        }
                    }
                },
            }
            i += 1;
        }
        proof {
            assert forall|c: int| 0 <= c < n implies #[trigger] hidden[c] == (old(hidden)[c] && !spec_sprung(
                map,
                positions@,
                names@,
                stats@,
                triggerables@,
                c,
            )) by {
                let who = Entity { id: c as usize };
                if spec_sprung(map, positions@, names@, stats@, triggerables@, c) {
                    let e = choose|e: int|
                        #[trigger] spec_walks(positions@, names@, stats@, e) && spec_company(
                            map,
                            positions@,
                            e,
                        ).contains(who);
                    assert(e < i && spec_walks(positions@, names@, stats@, e) && spec_company(
                        map,
                        positions@,
                        e,
                    ).contains(who));
                }
            }
            assert forall|c: int|
                #[trigger] spec_sprung(map, positions@, names@, stats@, triggerables@, c) implies removed@.contains(
                Entity { id: c as usize },
            ) by {
                let who = Entity { id: c as usize };
                let e = choose|e: int|
                    #[trigger] spec_walks(positions@, names@, stats@, e) && spec_company(map, positions@, e).contains(
                        who,
                    );
                assert(e < i);
            }
        }
        TriggerOutcome { particles, removed }
    }
}

} // verus!
