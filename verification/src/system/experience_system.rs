//! Awards the experience queued this tick and rolls characters over to
//! the next level.

use crate::combat::{attribute_modifier, spec_attribute_modifier};
use crate::component::{clamp, spec_clamp, spec_sum, sum, Entity, Experience, Name, Pool, Stats, Table};
use crate::logbook::{
    decimal, lemma_log_grew_once_more, spec_decimal, spec_line_text, spec_log_grew_by, LogFragment, Logbook, Logger,
    Tint,
};
use vstd::prelude::*;

verus! {

/// Experience that each level adds to the next threshold.
pub const EXPERIENCE_PER_THRESHOLD: i32 = 1000;

/// The threshold that follows `threshold` for a character that has reached
/// `level`: the level times `EXPERIENCE_PER_THRESHOLD`, and at least
/// `EXPERIENCE_PER_THRESHOLD` more than before, as far as the machine's
/// numbers go.
pub open spec fn spec_next_threshold(threshold: int, level: int) -> int {
    if level * EXPERIENCE_PER_THRESHOLD >= threshold + EXPERIENCE_PER_THRESHOLD {
        spec_clamp(level * EXPERIENCE_PER_THRESHOLD)
    } else {
        spec_clamp(threshold + EXPERIENCE_PER_THRESHOLD)
    }
}

/// What a level adds to a pool's maximum, from the attribute that feeds the
/// pool: the attribute's modifier, and never less than one.
pub open spec fn spec_pool_gain(attribute: int) -> int {
    if spec_attribute_modifier(attribute) < 1 {
        1
    } else {
        spec_attribute_modifier(attribute)
    }
}

/// Whether `gained` brings the character to its experience threshold.
pub open spec fn spec_levels_up(stats: Stats, gained: int) -> bool {
    spec_clamp(stats.exp.current + gained) >= stats.exp.max
}

/// The character once `gained` experience has been added.
///
/// Below the threshold only the current experience changes. At or above it
/// the level rises by one, the experience beyond the threshold is carried
/// over, the next threshold is `spec_next_threshold` of the old one and
/// the new level, and health and mana get a higher maximum and are filled
/// up to it.
pub open spec fn spec_experienced(stats: Stats, gained: int) -> Stats {
    let total = spec_clamp(stats.exp.current + gained);
    if total >= stats.exp.max {
        let level = spec_clamp(stats.level + 1);
        let health = spec_clamp(stats.hp.max + spec_pool_gain(stats.constitution as int));
        let mana = spec_clamp(stats.mp.max + spec_pool_gain(stats.intelligence as int));
        Stats {
            exp: Pool {
                current: spec_clamp(total - stats.exp.max) as i32,
                max: spec_next_threshold(stats.exp.max as int, level) as i32,
            },
            level: level as i32,
            hp: Pool { current: health as i32, max: health as i32 },
            mp: Pool { current: mana as i32, max: mana as i32 },
            ..stats
        }
    } else {
        Stats { exp: Pool { current: total as i32, max: stats.exp.max }, ..stats }
    }
}

/// Entity `e` is awarded experience this tick: it has stats and pending
/// experience.
pub open spec fn spec_learns(stats: Seq<Option<Stats>>, experiences: Seq<Option<Experience>>, e: int) -> bool {
    0 <= e < stats.len() && e < experiences.len() && stats[e] is Some && experiences[e] is Some
}

/// Entity `e` reaches a new level this tick.
pub open spec fn spec_rises(stats: Seq<Option<Stats>>, experiences: Seq<Option<Experience>>, e: int) -> bool {
    spec_learns(stats, experiences, e) && spec_levels_up(stats[e].unwrap(), spec_sum(experiences[e].unwrap().amount@))
}

/// The stats of entity `e` after the pass.
pub open spec fn spec_stats_after(stats: Seq<Option<Stats>>, experiences: Seq<Option<Experience>>, e: int) -> Option<
    Stats,
> {
    if spec_learns(stats, experiences, e) {
        Some(spec_experienced(stats[e].unwrap(), spec_sum(experiences[e].unwrap().amount@)))
    } else {
        stats[e]
    }
}

/// The entities among the first `n` that reach a new level, in the order of
/// their identifiers.
pub open spec fn spec_promoted(stats: Seq<Option<Stats>>, experiences: Seq<Option<Experience>>, n: int) -> Seq<Entity>
    decreases n,
{
    if n <= 0 {
        Seq::empty()
    } else {
        let rest = spec_promoted(stats, experiences, n - 1);
        if spec_rises(stats, experiences, n - 1) {
            rest.push(Entity { id: (n - 1) as usize })
        } else {
            rest
        }
    }
}

/// The lines that tell of the new levels among the first `n` entities: one
/// for each entity that reaches a new level and has a name, in the order of
/// the identifiers.
pub open spec fn spec_levels_said(
    names: Seq<Option<Name>>,
    stats: Seq<Option<Stats>>,
    experiences: Seq<Option<Experience>>,
    n: int,
) -> Seq<Seq<char>>
    decreases n,
{
    if n <= 0 {
        Seq::empty()
    } else {
        let rest = spec_levels_said(names, stats, experiences, n - 1);
        match names[n - 1] {
            Some(name) if spec_rises(stats, experiences, n - 1) => rest.push(
                spec_level_text(name.name@, spec_stats_after(stats, experiences, n - 1).unwrap().level as int),
            ),
            _ => rest,
        }
    }
}

pub open spec fn spec_level_text(name: Seq<char>, level: int) -> Seq<char> {
    name + " has increased in experience to Level "@ + spec_decimal(level) + "!"@
}

/// What a level adds to a pool's maximum.
pub fn pool_gain(attribute: i32) -> (gain: i32)
    ensures
        gain == spec_pool_gain(attribute as int),
{
    let m: i32 = attribute_modifier(attribute);
    if m < 1 {
        1
    } else {
        m
    }
}

/// The threshold that follows `threshold` at `level`.
pub fn next_threshold(threshold: i32, level: i32) -> (next: i32)
    ensures
        next == spec_next_threshold(threshold as int, level as int),
        next >= threshold,
        threshold < i32::MAX ==> next > threshold,
{
    assert(-0x8000_0000 * 1000 <= level * EXPERIENCE_PER_THRESHOLD <= 0x7fff_ffff * 1000) by (nonlinear_arith)
        requires
            -0x8000_0000 <= level <= 0x7fff_ffff,
            EXPERIENCE_PER_THRESHOLD == 1000,
    ;
    let by_level: i128 = level as i128 * EXPERIENCE_PER_THRESHOLD as i128;
    let by_step: i128 = threshold as i128 + EXPERIENCE_PER_THRESHOLD as i128;
    if by_level >= by_step {
        clamp(by_level)
    } else {
        clamp(by_step)
    }
}

/// The character once `gained` experience has been added.
pub fn experienced(stats: Stats, gained: i128) -> (after: Stats)
    requires
        -0x8000_0000_0000_0000_0000_0000 <= gained <= 0x8000_0000_0000_0000_0000_0000,
    ensures
        after == spec_experienced(stats, gained as int),
{
    let total: i32 = clamp(stats.exp.current as i128 + gained);
    if total >= stats.exp.max {
        let level: i32 = clamp(stats.level as i128 + 1);
        let health: i32 = clamp(stats.hp.max as i128 + pool_gain(stats.constitution) as i128);
        let mana: i32 = clamp(stats.mp.max as i128 + pool_gain(stats.intelligence) as i128);
        Stats {
            exp: Pool {
                current: clamp(total as i128 - stats.exp.max as i128),
                max: next_threshold(stats.exp.max, level),
            },
            level,
            hp: Pool { current: health, max: health },
            mp: Pool { current: mana, max: mana },
            ..stats
        }
    } else {
        Stats { exp: Pool { current: total, max: stats.exp.max }, ..stats }
    }
}

/// After a level-up the experience carried over is what was accumulated
/// beyond the threshold, and it is never negative. The sum that is carried
/// stops at the largest `i32`: what was gained beyond that is lost.
pub proof fn lemma_experience_carried(stats: Stats, gained: int)
    requires
        spec_levels_up(stats, gained),
    ensures
        spec_experienced(stats, gained).exp.current >= 0,
        spec_experienced(stats, gained).level == spec_clamp(stats.level + 1),
        (stats.exp.max >= 0 && stats.exp.current + gained <= i32::MAX) ==> spec_experienced(
            stats,
            gained,
        ).exp.current == stats.exp.current + gained - stats.exp.max,
        (stats.exp.max >= 0 && stats.exp.current + gained > i32::MAX) ==> spec_experienced(
            stats,
            gained,
        ).exp.current == i32::MAX - stats.exp.max,
        stats.exp.max < 0 ==> spec_experienced(stats, gained).exp.current == spec_clamp(
            spec_clamp(stats.exp.current + gained) - stats.exp.max,
        ),
{
}

/// A level-up never lowers the threshold, and raises it wherever a higher
/// one can be written.
pub proof fn lemma_threshold_rises(stats: Stats, gained: int)
    requires
        spec_levels_up(stats, gained),
    ensures
        spec_experienced(stats, gained).exp.max >= stats.exp.max,
        stats.exp.max < i32::MAX ==> spec_experienced(stats, gained).exp.max > stats.exp.max,
        stats.exp.max <= i32::MAX - EXPERIENCE_PER_THRESHOLD ==> spec_experienced(stats, gained).exp.max
            >= stats.exp.max + EXPERIENCE_PER_THRESHOLD,
{
}

pub struct ExperienceSystem {}

impl ExperienceSystem {
    /// Adds the pending experience of every entity with stats to its
    /// current experience, levels up those that reach their threshold, and
    /// clears the queue. Returns the entities that reached a new level, for
    /// whatever follows a level-up; each that has a name gets a line in
    /// the log.
    pub fn run(
        &self,
        names: &Table<Name>,
        stats: &mut Table<Stats>,
        experiences: &mut Table<Experience>,
        log: &mut Logbook,
    ) -> (promoted: Vec<Entity>)
        requires
            old(stats).len() == names.len(),
            old(experiences).len() == names.len(),
        ensures
            final(stats).len() == old(stats).len(),
            final(experiences).len() == old(experiences).len(),
            forall|e: int|
                0 <= e < old(stats).len() ==> #[trigger] final(stats)[e] == spec_stats_after(
                    old(stats)@,
                    old(experiences)@,
                    e,
                ),
            forall|e: int| 0 <= e < final(experiences).len() ==> #[trigger] final(experiences)[e] is None,
            promoted@ == spec_promoted(old(stats)@, old(experiences)@, names.len() as int),
            spec_log_grew_by(
                old(log),
                final(log),
                spec_levels_said(names@, old(stats)@, old(experiences)@, names.len() as int),
            ),
    {
        let n: usize = names.len();
        let mut promoted: Vec<Entity> = Vec::new();
        let mut i: usize = 0;
        while i < n
            invariant
                i <= n,
                n == names.len(),
                stats.len() == n,
                experiences.len() == n,
                old(stats).len() == n,
                experiences@ == old(experiences)@,
                forall|e: int|
                    0 <= e < n ==> #[trigger] stats[e] == (if e < i {
                        spec_stats_after(old(stats)@, old(experiences)@, e)
                    } else {
                        old(stats)[e]
                    }),
                promoted@ == spec_promoted(old(stats)@, old(experiences)@, i as int),
                spec_log_grew_by(old(log), log, spec_levels_said(names@, old(stats)@, old(experiences)@, i as int)),
            decreases n - i,
        {
            let own: Option<Stats> = stats[i];
            match (own, &experiences[i]) {
                (Some(s), Some(x)) => {
                    assert(spec_learns(old(stats)@, old(experiences)@, i as int));
                    let gained: i128 = sum(&x.amount);
                    let after: Stats = experienced(s, gained);
                    stats.set(i, Some(after));
                    if clamp(s.exp.current as i128 + gained) >= s.exp.max {
                        assert(spec_levels_up(s, gained as int));
                        match &names[i] {
                            Some(name) => {
                                let level: String = decimal(after.level);
                                let line: Logger = Logger::new().with_color(Tint::Yellow).append(
                                    name.name.as_str(),
                                ).append(" has increased in experience to Level ").append(level.as_str()).append(
                                    "!",
                                );
                                assert(spec_line_text(line.fragments@) =~= spec_level_text(
                                    name.name@,
                                    after.level as int,
                                )) by {
                                    assert(spec_line_text(Seq::<LogFragment>::empty()) =~= Seq::<char>::empty());
                                }
                                let ghost log_before = *log;
                                let ghost fragments = line.fragments;
                                line.log(log);
                                proof {
                                    lemma_log_grew_once_more(
                                        old(log),
                                        &log_before,
                                        log,
                                        spec_levels_said(names@, old(stats)@, old(experiences)@, i as int),
                                        fragments,
                                    );
                                }
                            },
                            None => {},
                        }
                        promoted.push(Entity { id: i });
                    } else {
                        assert(!spec_levels_up(s, gained as int));
                    }
                },
                _ => {},
            }
            assert(spec_log_grew_by(
                old(log),
                log,
                spec_levels_said(names@, old(stats)@, old(experiences)@, i + 1),
            ));
            i += 1;
        }
        let mut j: usize = 0;
        while j < n
            invariant
                j <= n,
                experiences.len() == n,
                forall|e: int| 0 <= e < j ==> #[trigger] experiences[e] is None,
            decreases n - j,
        {
            experiences.set(j, None);
            j += 1;
        }
        promoted
    }
}

} // verus!
