//! Targeting for ranged and magic weapons: who can be aimed at, whom the
//! next request for a target picks, and when a stored target is dropped.

use crate::component::{Entity, EquipmentSlot, Equipped, Flags, MagicWeapon, RangedWeapon, Table};
use crate::geometry::{spec_within_range, within_range, Position};
use crate::map::{lemma_idx_in_range, GameMap};
use crate::sight::{has_line_of_sight, spec_line_of_sight};
use crate::system::map_indexing_system::spec_positions_on_map;
use vstd::prelude::*;

verus! {

/// Entity `e` is a monster that can be aimed at from `origin` with a weapon
/// that reaches `range`: it has a position on the map at most `range` away,
/// and the straight line to it crosses passable tiles only.
pub open spec fn spec_can_aim_at(
    map: &GameMap,
    monsters: Seq<bool>,
    positions: Seq<Option<Position>>,
    origin: Position,
    range: int,
    e: int,
) -> bool {
    0 <= e < monsters.len() && e < positions.len() && monsters[e] && (positions[e] matches Some(p)
        && map.spec_in_bounds(p.x as int, p.y as int) && spec_within_range(
        origin.x as int,
        origin.y as int,
        p.x as int,
        p.y as int,
        range,
    ) && spec_line_of_sight(map, origin.x as int, origin.y as int, p.x as int, p.y as int))
}

/// `a` comes before `b` in the order of targets: by tile index, and on one
/// tile by identifier.
pub open spec fn spec_target_before(a: (usize, Entity), b: (usize, Entity)) -> bool {
    a.0 < b.0 || (a.0 == b.0 && a.1.id < b.1.id)
}

/// `list` is what can be aimed at, each target once with the index of its
/// tile, in the order of targets.
pub open spec fn spec_targets(
    map: &GameMap,
    monsters: Seq<bool>,
    positions: Seq<Option<Position>>,
    origin: Position,
    range: int,
    list: Seq<(usize, Entity)>,
) -> bool {
    &&& forall|a: int, b: int| 0 <= a < b < list.len() ==> spec_target_before(list[a], list[b])
    &&& forall|k: int|
        0 <= k < list.len() ==> spec_can_aim_at(map, monsters, positions, origin, range, (#[trigger] list[k]).1.id as int)
            && list[k].0 == map.spec_idx(
            positions[list[k].1.id as int].unwrap().x as int,
            positions[list[k].1.id as int].unwrap().y as int,
        )
    &&& forall|e: int|
        #[trigger] spec_can_aim_at(map, monsters, positions, origin, range, e) ==> exists|k: int|
            0 <= k < list.len() && (#[trigger] list[k]).1.id == e
}

/// The place of `target` among the candidates, if it is one of them.
pub open spec fn spec_place(candidates: Seq<(usize, Entity)>, target: Entity, n: int) -> Option<int>
    decreases n,
{
    if n <= 0 {
        None
    } else {
        match spec_place(candidates, target, n - 1) {
            Some(k) => Some(k),
            None => if candidates[n - 1].1 == target {
                Some(n - 1)
            } else {
                None
            },
        }
    }
}

/// The target after a request to cycle: the candidate after the current
/// target, the first after the last; the first candidate where there is no
/// current target or it is no candidate; the current target, untouched,
/// where there is no candidate at all.
pub open spec fn spec_cycle(candidates: Seq<(usize, Entity)>, current: Option<Entity>) -> Option<Entity> {
    if candidates.len() == 0 {
        current
    } else {
        match current {
            Some(t) => match spec_place(candidates, t, candidates.len() as int) {
                Some(k) => if k + 1 < candidates.len() {
                    Some(candidates[k + 1].1)
                } else {
                    Some(candidates[0].1)
                },
                None => Some(candidates[0].1),
            },
            None => Some(candidates[0].1),
        }
    }
}

/// Item `j` is a ranged weapon that `owner` wields in the weapon slot.
pub open spec fn spec_aims_with(
    equipped: Seq<Option<Equipped>>,
    ranged: Seq<Option<RangedWeapon>>,
    owner: Entity,
    j: int,
) -> bool {
    0 <= j < equipped.len() && j < ranged.len() && ranged[j] is Some && (equipped[j] matches Some(q) && q.owner
        == owner && q.slot == EquipmentSlot::Weapon)
}

/// A stored target is stale: it is no entity that lives, or, from where
/// the weapon's wearer stands, it has no position, is out of range or out
/// of sight.
pub open spec fn spec_stale(
    map: &GameMap,
    alive: Seq<bool>,
    positions: Seq<Option<Position>>,
    wearer: Option<Equipped>,
    range: int,
    target: Entity,
) -> bool {
    ||| target.id >= alive.len()
    ||| !alive[target.id as int]
    ||| (wearer matches Some(q) && q.owner.id < positions.len() && (positions[q.owner.id as int] matches Some(
        from,
    ) && (match positions[target.id as int] {
        Some(at) => !spec_within_range(from.x as int, from.y as int, at.x as int, at.y as int, range)
            || !spec_line_of_sight(map, from.x as int, from.y as int, at.x as int, at.y as int),
        None => true,
    })))
}

/// The target that a weapon keeps: its stored target unless that is stale.
pub open spec fn spec_kept_target(
    map: &GameMap,
    alive: Seq<bool>,
    positions: Seq<Option<Position>>,
    wearer: Option<Equipped>,
    range: int,
    target: Option<Entity>,
) -> Option<Entity> {
    match target {
        Some(t) => if spec_stale(map, alive, positions, wearer, range, t) {
            None
        } else {
            Some(t)
        },
        None => None,
    }
}

/// The ranged weapon that `player` wields in the weapon slot: the one with
/// the lowest identifier, if there are several.
pub fn get_player_ranged_weapon_entity(
    equipped: &Table<Equipped>,
    ranged_weapons: &Table<RangedWeapon>,
    player: Entity,
) -> (weapon: Option<Entity>)
    requires
        equipped.len() == ranged_weapons.len(),
    ensures
        match weapon {
            Some(w) => spec_aims_with(equipped@, ranged_weapons@, player, w.id as int) && forall|j: int|
                0 <= j < w.id ==> !spec_aims_with(equipped@, ranged_weapons@, player, j),
            None => forall|j: int| !spec_aims_with(equipped@, ranged_weapons@, player, j),
        },
{
    let mut j: usize = 0;
    while j < equipped.len()
        invariant
            j <= equipped.len(),
            equipped.len() == ranged_weapons.len(),
            forall|k: int| 0 <= k < j ==> !spec_aims_with(equipped@, ranged_weapons@, player, k),
        decreases equipped.len() - j,
    {
        match (&equipped[j], &ranged_weapons[j]) {
            (Some(q), Some(_)) => {
                if q.slot == EquipmentSlot::Weapon && q.owner == player {
                    return Some(Entity { id: j });
                }
            },
            _ => {},
        }
        j += 1;
    }
    None
}

/// Whether the monster `e` can be aimed at from `origin`.
pub fn can_aim_at(
    map: &GameMap,
    monsters: &Flags,
    positions: &Table<Position>,
    origin: Position,
    range: i32,
    e: usize,
) -> (ok: bool)
    requires
        map.wf(),
        map.spec_in_bounds(origin.x as int, origin.y as int),
        monsters.len() == positions.len(),
        e < monsters.len(),
    ensures
        ok == spec_can_aim_at(map, monsters@, positions@, origin, range as int, e as int),
{
    if !monsters[e] {
        return false;
    }
    match positions[e] {
        Some(p) => map.in_bounds(p.x, p.y) && within_range(origin, p, range) && has_line_of_sight(map, origin, p),
        None => false,
    }
}

/// The target after a request to cycle among `candidates`.
pub fn cycle_target(candidates: &Vec<(usize, Entity)>, current: Option<Entity>) -> (next: Option<Entity>)
    ensures
        next == spec_cycle(candidates@, current),
{
    if candidates.len() == 0 {
        return current;
    }
    match current {
        Some(t) => {
            let mut k: usize = 0;
            while k < candidates.len()
                invariant
                    k <= candidates.len(),
                    candidates.len() > 0,
                    current == Some(t),
                    spec_place(candidates@, t, k as int) is None,
                decreases candidates.len() - k,
            {
                if candidates[k].1 == t {
                    proof {
                        assert(spec_place(candidates@, t, k + 1) == Some(k as int));
                        lemma_place_stays(candidates@, t, k + 1, candidates@.len() as int);
                    }
                    if k + 1 < candidates.len() {
                        return Some(candidates[k + 1].1);
                    } else {
                        return Some(candidates[0].1);
                    }
                }
                k += 1;
            }
            Some(candidates[0].1)
        },
        None => Some(candidates[0].1),
    }
}

/// Once the target has been found among the first `a` candidates, it is
/// found at the same place among the first `b`.
pub proof fn lemma_place_stays(candidates: Seq<(usize, Entity)>, target: Entity, a: int, b: int)
    requires
        0 <= a <= b,
        spec_place(candidates, target, a) is Some,
    ensures
        spec_place(candidates, target, b) == spec_place(candidates, target, a),
    decreases b - a,
{
    if a < b {
        lemma_place_stays(candidates, target, a, b - 1);
    }
}

/// The index of the tile on which entity `e` stands, where it has a
/// position.
pub open spec fn spec_tile_of(map: &GameMap, positions: Seq<Option<Position>>, e: int) -> int {
    map.spec_idx(positions[e].unwrap().x as int, positions[e].unwrap().y as int)
}

/// What can be aimed at from `origin` with a weapon that reaches `range`:
/// every monster in range and in line of sight, with the index of its tile,
/// in the order of the tile indices and, on one tile, of the identifiers.
pub fn eligible_targets(
    map: &GameMap,
    monsters: &Flags,
    positions: &Table<Position>,
    origin: Position,
    range: i32,
) -> (list: Vec<(usize, Entity)>)
    requires
        map.wf(),
        map.spec_in_bounds(origin.x as int, origin.y as int),
        monsters.len() == positions.len(),
    ensures
        spec_targets(map, monsters@, positions@, origin, range as int, list@),
{
    let n: usize = monsters.len();
    let tiles: usize = map.tiles.len();
    let ghost w = map.width as int;
    let ghost h = map.height as int;
    let mut list: Vec<(usize, Entity)> = Vec::new();
    let mut t: usize = 0;
    while t < tiles
        invariant
            t <= tiles,
            tiles == map.tiles.len(),
            n == monsters.len(),
            n == positions.len(),
            w == map.width,
            h == map.height,
            map.wf(),
            map.spec_in_bounds(origin.x as int, origin.y as int),
            forall|a: int, b: int| 0 <= a < b < list@.len() ==> spec_target_before(list@[a], list@[b]),
            forall|k: int|
                0 <= k < list@.len() ==> spec_can_aim_at(
                    map,
                    monsters@,
                    positions@,
                    origin,
                    range as int,
                    (#[trigger] list@[k]).1.id as int,
                ) && list@[k].0 == spec_tile_of(map, positions@, list@[k].1.id as int) && list@[k].0 < t,
            forall|e: int|
                #[trigger] spec_can_aim_at(map, monsters@, positions@, origin, range as int, e) && spec_tile_of(
                    map,
                    positions@,
                    e,
                ) < t ==> exists|k: int| 0 <= k < list@.len() && (#[trigger] list@[k]).1.id == e,
        decreases tiles - t,
    {
        let mut e: usize = 0;
        while e < n
            invariant
                e <= n,
                t < tiles,
                tiles == map.tiles.len(),
                n == monsters.len(),
                n == positions.len(),
                w == map.width,
                h == map.height,
                map.wf(),
                map.spec_in_bounds(origin.x as int, origin.y as int),
                forall|a: int, b: int| 0 <= a < b < list@.len() ==> spec_target_before(list@[a], list@[b]),
                forall|k: int|
                    0 <= k < list@.len() ==> spec_can_aim_at(
                        map,
                        monsters@,
                        positions@,
                        origin,
                        range as int,
                        (#[trigger] list@[k]).1.id as int,
                    ) && list@[k].0 == spec_tile_of(map, positions@, list@[k].1.id as int) && (list@[k].0 < t
                        || (list@[k].0 == t && list@[k].1.id < e)),
                forall|o: int|
                    #[trigger] spec_can_aim_at(map, monsters@, positions@, origin, range as int, o) && (
                    spec_tile_of(map, positions@, o) < t || (spec_tile_of(map, positions@, o) == t && o < e))
                        ==> exists|k: int| 0 <= k < list@.len() && (#[trigger] list@[k]).1.id == o,
            decreases n - e,
        {
            let ghost before = list@;
            let mut here: bool = false;
            match positions[e] {
                Some(p) => {
                    if map.in_bounds(p.x, p.y) {
                        let index: usize = map.xy_idx(p.x, p.y);
                        if index == t {
                            here = can_aim_at(map, monsters, positions, origin, range, e);
                        }
                    }
                },
                None => {},
            }
            if here {
                list.push((t, Entity { id: e }));
                assert(list@[before.len() as int] == (t, Entity { id: e }));
            }
            proof {
                assert forall|o: int|
                    #[trigger] spec_can_aim_at(map, monsters@, positions@, origin, range as int, o) && (
                    spec_tile_of(map, positions@, o) < t || (spec_tile_of(map, positions@, o) == t && o < e
                        + 1)) implies exists|k: int| 0 <= k < list@.len() && (#[trigger] list@[k]).1.id == o by {
                    if o == e && spec_tile_of(map, positions@, o) == t {
                        assert(here);
                        assert(list@[before.len() as int].1.id == o);
                    } else {
                        let k = choose|k: int| 0 <= k < before.len() && (#[trigger] before[k]).1.id == o;
                        assert(list@[k].1.id == o);
                    }
                }
            }
            e += 1;
        }
        t += 1;
    }
    proof {
        assert forall|e: int|
            #[trigger] spec_can_aim_at(map, monsters@, positions@, origin, range as int, e) implies exists|k: int|
            0 <= k < list@.len() && (#[trigger] list@[k]).1.id == e by {
            let p = positions@[e].unwrap();
            lemma_idx_in_range(p.x as int, p.y as int, w, h);
        }
    }
    list
}

/// Item `j` is the ranged weapon with the lowest identifier among those
/// that `owner` wields in the weapon slot.
pub open spec fn spec_first_aimed(
    equipped: Seq<Option<Equipped>>,
    ranged: Seq<Option<RangedWeapon>>,
    owner: Entity,
    j: int,
) -> bool {
    spec_aims_with(equipped, ranged, owner, j) && forall|k: int|
        0 <= k < j ==> !spec_aims_with(equipped, ranged, owner, k)
}

/// `after` is the target once the wearer of a weapon that reaches `range`
/// and is aimed at `before` has asked for the next target: the target that
/// `spec_cycle` picks among what can be aimed at from where the wearer
/// stands, or `before` where the wearer has no position on the map.
pub open spec fn spec_aimed(
    map: &GameMap,
    monsters: Seq<bool>,
    positions: Seq<Option<Position>>,
    wearer: Entity,
    range: int,
    before: Option<Entity>,
    after: Option<Entity>,
) -> bool {
    if wearer.id < positions.len() && (positions[wearer.id as int] matches Some(from) && map.spec_in_bounds(
        from.x as int,
        from.y as int,
    )) {
        exists|list: Seq<(usize, Entity)>|
            #[trigger] spec_targets(map, monsters, positions, positions[wearer.id as int].unwrap(), range, list)
                && after == spec_cycle(list, before)
    } else {
        after == before
    }
}

/// `after` is the weapon `before` once its wearer has asked for the next
/// target: the same weapon, aimed anew.
pub open spec fn spec_retargeted(
    map: &GameMap,
    monsters: Seq<bool>,
    positions: Seq<Option<Position>>,
    wearer: Entity,
    before: RangedWeapon,
    after: RangedWeapon,
) -> bool {
    &&& after.damage == before.damage
    &&& after.damage_type == before.damage_type
    &&& after.range == before.range
    &&& spec_aimed(map, monsters, positions, wearer, before.range as int, before.target, after.target)
}

/// Item `j` is a magic weapon that `owner` wields in the weapon slot.
pub open spec fn spec_channels_with(
    equipped: Seq<Option<Equipped>>,
    magic: Seq<Option<MagicWeapon>>,
    owner: Entity,
    j: int,
) -> bool {
    0 <= j < equipped.len() && j < magic.len() && magic[j] is Some && (equipped[j] matches Some(q) && q.owner
        == owner && q.slot == EquipmentSlot::Weapon)
}

/// Item `j` is the magic weapon with the lowest identifier among those
/// that `owner` wields in the weapon slot.
pub open spec fn spec_first_channelled(
    equipped: Seq<Option<Equipped>>,
    magic: Seq<Option<MagicWeapon>>,
    owner: Entity,
    j: int,
) -> bool {
    spec_channels_with(equipped, magic, owner, j) && forall|k: int|
        0 <= k < j ==> !spec_channels_with(equipped, magic, owner, k)
}

/// The magic weapon that `player` wields in the weapon slot: the one with
/// the lowest identifier, if there are several.
pub fn get_player_magic_weapon_entity(
    equipped: &Table<Equipped>,
    magic_weapons: &Table<MagicWeapon>,
    player: Entity,
) -> (weapon: Option<Entity>)
    requires
        equipped.len() == magic_weapons.len(),
    ensures
        match weapon {
            Some(w) => spec_first_channelled(equipped@, magic_weapons@, player, w.id as int),
            None => forall|j: int| !spec_channels_with(equipped@, magic_weapons@, player, j),
        },
{
    let mut j: usize = 0;
    while j < equipped.len()
        invariant
            j <= equipped.len(),
            equipped.len() == magic_weapons.len(),
            forall|k: int| 0 <= k < j ==> !spec_channels_with(equipped@, magic_weapons@, player, k),
        decreases equipped.len() - j,
    {
        match (&equipped[j], &magic_weapons[j]) {
            (Some(q), Some(_)) => {
                if q.slot == EquipmentSlot::Weapon && q.owner == player {
                    return Some(Entity { id: j });
                }
            },
            _ => {},
        }
        j += 1;
    }
    None
}

/// The target after the wearer of a weapon that reaches `range` and is
/// aimed at `current` has asked for the next target.
pub fn next_target(
    map: &GameMap,
    monsters: &Flags,
    positions: &Table<Position>,
    wearer: Entity,
    range: i32,
    current: Option<Entity>,
) -> (next: Option<Entity>)
    requires
        map.wf(),
        monsters.len() == positions.len(),
    ensures
        spec_aimed(map, monsters@, positions@, wearer, range as int, current, next),
{
    if wearer.id < positions.len() {
        match positions[wearer.id] {
            Some(from) => {
                if map.in_bounds(from.x, from.y) {
                    let candidates: Vec<(usize, Entity)> = eligible_targets(map, monsters, positions, from, range);
                    let next: Option<Entity> = cycle_target(&candidates, current);
                    assert(spec_targets(
                        map,
                        monsters@,
                        positions@,
                        positions[wearer.id as int].unwrap(),
                        range as int,
                        candidates@,
                    ) && next == spec_cycle(candidates@, current));
                    return next;
                }
            },
            None => {},
        }
    }
    current
}

/// The player asks for the next target: the ranged weapon wielded in the
/// weapon slot is aimed at the candidate after its current target, as
/// `spec_cycle` says. Nothing changes where the player wields no ranged
/// weapon, has no position on the map, or nothing can be aimed at.
pub fn try_cycle_targeting(
    map: &GameMap,
    player: Entity,
    equipped: &Table<Equipped>,
    ranged_weapons: &mut Table<RangedWeapon>,
    monsters: &Flags,
    positions: &Table<Position>,
)
    requires
        map.wf(),
        equipped.len() == monsters.len(),
        old(ranged_weapons).len() == monsters.len(),
        positions.len() == monsters.len(),
    ensures
        final(ranged_weapons).len() == old(ranged_weapons).len(),
        forall|j: int|
            0 <= j < old(ranged_weapons).len() ==> (if spec_first_aimed(
                equipped@,
                old(ranged_weapons)@,
                player,
                j,
            ) {
                (#[trigger] final(ranged_weapons)[j]) is Some && spec_retargeted(
                    map,
                    monsters@,
                    positions@,
                    player,
                    old(ranged_weapons)[j].unwrap(),
                    final(ranged_weapons)[j].unwrap(),
                )
            } else {
                final(ranged_weapons)[j] == old(ranged_weapons)[j]
            }),
{
    match get_player_ranged_weapon_entity(equipped, ranged_weapons, player) {
        Some(weapon) => {
            let held: RangedWeapon = ranged_weapons[weapon.id].unwrap();
            let next: Option<Entity> = next_target(map, monsters, positions, player, held.range, held.target);
            ranged_weapons.set(weapon.id, Some(RangedWeapon { target: next, ..held }));
        },
        None => {},
    }
}

/// The player asks for the next target of magic: the magic weapon wielded
/// in the weapon slot is aimed as `spec_aimed` says. Nothing changes where
/// the player wields no magic weapon.
pub fn try_cycle_magic_targeting(
    map: &GameMap,
    player: Entity,
    equipped: &Table<Equipped>,
    magic_weapons: &mut Table<MagicWeapon>,
    monsters: &Flags,
    positions: &Table<Position>,
)
    requires
        map.wf(),
        equipped.len() == monsters.len(),
        old(magic_weapons).len() == monsters.len(),
        positions.len() == monsters.len(),
    ensures
        final(magic_weapons).len() == old(magic_weapons).len(),
        forall|j: int|
            0 <= j < old(magic_weapons).len() ==> (if spec_first_channelled(
                equipped@,
                old(magic_weapons)@,
                player,
                j,
            ) {
                (#[trigger] final(magic_weapons)[j]) matches Some(after) && after.range == old(magic_weapons)[j].unwrap().range && spec_aimed(
                    map,
                    monsters@,
                    positions@,
                    player,
                    after.range as int,
                    old(magic_weapons)[j].unwrap().target,
                    after.target,
                )
            } else {
                final(magic_weapons)[j] == old(magic_weapons)[j]
            }),
{
    match get_player_magic_weapon_entity(equipped, magic_weapons, player) {
        Some(weapon) => {
            let held: MagicWeapon = magic_weapons[weapon.id].unwrap();
            let next: Option<Entity> = next_target(map, monsters, positions, player, held.range, held.target);
            magic_weapons.set(weapon.id, Some(MagicWeapon { target: next, ..held }));
        },
        None => {},
    }
}

/// Whether a stored target has to be dropped.
pub fn is_stale(
    map: &GameMap,
    alive: &Flags,
    positions: &Table<Position>,
    wearer: Option<Equipped>,
    range: i32,
    target: Entity,
) -> (stale: bool)
    requires
        map.wf(),
        alive.len() == positions.len(),
        spec_positions_on_map(positions@, map),
    ensures
        stale == spec_stale(map, alive@, positions@, wearer, range as int, target),
{
    if target.id >= alive.len() {
        return true;
    }
    if !alive[target.id] {
        return true;
    }
    match wearer {
        Some(q) => {
            if q.owner.id < positions.len() {
                match positions[q.owner.id] {
                    Some(from) => {
                        match positions[target.id] {
                            Some(at) => !within_range(from, at, range) || !has_line_of_sight(map, from, at),
                            None => true,
                        }
                    },
                    None => false,
                }
            } else {
                false
            }
        },
        None => false,
    }
}

/// The last of the first `upto` entities that is a monster standing at
/// most `range` from `from`.
pub open spec fn spec_last_in_range(
    monsters: Seq<bool>,
    positions: Seq<Option<Position>>,
    from: Position,
    range: int,
    upto: int,
) -> Option<Entity>
    decreases upto,
{
    if upto <= 0 {
        None
    } else if monsters[upto - 1] && (positions[upto - 1] matches Some(at) && spec_within_range(
        from.x as int,
        from.y as int,
        at.x as int,
        at.y as int,
        range,
    )) {
        Some(Entity { id: (upto - 1) as usize })
    } else {
        spec_last_in_range(monsters, positions, from, range, upto - 1)
    }
}

/// The weapon in row `j` once `player`, standing at `from`, has taken aim:
/// a ranged weapon that the player wields in the weapon slot and that has
/// no target is aimed at the last monster in its range, if there is one.
/// Anything else stays as it is.
pub open spec fn spec_took_aim(
    equipped: Seq<Option<Equipped>>,
    ranged_weapons: Seq<Option<RangedWeapon>>,
    monsters: Seq<bool>,
    positions: Seq<Option<Position>>,
    player: Entity,
    from: Option<Position>,
    j: int,
) -> Option<RangedWeapon> {
    match (ranged_weapons[j], equipped[j], from) {
        (Some(held), Some(q), Some(at)) => if q.owner == player && q.slot == EquipmentSlot::Weapon
            && held.target is None {
            match spec_last_in_range(monsters, positions, at, held.range as int, monsters.len() as int) {
                Some(t) => Some(RangedWeapon { target: Some(t), ..held }),
                None => Some(held),
            }
        } else {
            Some(held)
        },
        _ => ranged_weapons[j],
    }
}

/// The last monster that stands at most `range` from `from`.
pub fn last_in_range(monsters: &Flags, positions: &Table<Position>, from: Position, range: i32) -> (found: Option<
    Entity,
>)
    requires
        positions.len() == monsters.len(),
    ensures
        found == spec_last_in_range(monsters@, positions@, from, range as int, monsters.len() as int),
{
    let mut found: Option<Entity> = None;
    let mut i: usize = 0;
    while i < monsters.len()
        invariant
            i <= monsters.len(),
            positions.len() == monsters.len(),
            found == spec_last_in_range(monsters@, positions@, from, range as int, i as int),
        decreases monsters.len() - i,
    {
        if monsters[i] {
            match positions[i] {
                Some(at) => {
                    if within_range(from, at, range) {
                        found = Some(Entity { id: i });
                    }
                },
                None => {},
            }
        }
        i += 1;
    }
    found
}

/// The player takes aim: every ranged weapon that the player wields in the
/// weapon slot and that has no target is aimed at the last monster in its
/// range, whether it can be seen or not. Nothing changes for a player
/// without a position.
pub fn take_aim(
    player: Entity,
    equipped: &Table<Equipped>,
    ranged_weapons: &mut Table<RangedWeapon>,
    monsters: &Flags,
    positions: &Table<Position>,
)
    requires
        equipped.len() == monsters.len(),
        old(ranged_weapons).len() == monsters.len(),
        positions.len() == monsters.len(),
        player.id < monsters.len(),
    ensures
        final(ranged_weapons).len() == old(ranged_weapons).len(),
        forall|j: int|
            0 <= j < old(ranged_weapons).len() ==> #[trigger] final(ranged_weapons)[j] == spec_took_aim(
                equipped@,
                old(ranged_weapons)@,
                monsters@,
                positions@,
                player,
                positions[player.id as int],
                j,
            ),
{
    let from: Position = match positions[player.id] {
        Some(at) => at,
        None => {
            return ;
        },
    };
    let n: usize = monsters.len();
    let mut j: usize = 0;
    while j < n
        invariant
            j <= n,
            n == monsters.len(),
            equipped.len() == n,
            ranged_weapons.len() == n,
            old(ranged_weapons).len() == n,
            positions.len() == n,
            positions[player.id as int] == Some(from),
            forall|k: int|
                0 <= k < n ==> #[trigger] ranged_weapons[k] == (if k < j {
                    spec_took_aim(equipped@, old(ranged_weapons)@, monsters@, positions@, player, Some(from), k)
                } else {
                    old(ranged_weapons)[k]
                }),
        decreases n - j,
    {
        match (ranged_weapons[j], equipped[j]) {
            (Some(held), Some(q)) => {
                if q.owner == player && q.slot == EquipmentSlot::Weapon && held.target.is_none() {
                    match last_in_range(monsters, positions, from, held.range) {
                        Some(t) => {
                            ranged_weapons.set(j, Some(RangedWeapon { target: Some(t), ..held }));
                        },
                        None => {},
                    }
                }
            },
            _ => {},
        }
        j += 1;
    }
}

pub struct RangedCombatSystem {}

impl RangedCombatSystem {
    /// Drops every stored target of a ranged or magic weapon that is stale:
    /// no longer alive, or, seen from the weapon's wearer, without a
    /// position, out of range or out of sight. Every other target stays.
    pub fn run(
        &self,
        map: &GameMap,
        alive: &Flags,
        positions: &Table<Position>,
        equipped: &Table<Equipped>,
        ranged_weapons: &mut Table<RangedWeapon>,
        magic_weapons: &mut Table<MagicWeapon>,
    )
        requires
            map.wf(),
            alive.len() == positions.len(),
            equipped.len() == positions.len(),
            old(ranged_weapons).len() == positions.len(),
            old(magic_weapons).len() == positions.len(),
            spec_positions_on_map(positions@, map),
        ensures
            final(ranged_weapons).len() == old(ranged_weapons).len(),
            final(magic_weapons).len() == old(magic_weapons).len(),
            forall|j: int|
                0 <= j < old(ranged_weapons).len() ==> #[trigger] final(ranged_weapons)[j] == (match old(ranged_weapons)[j] {
                    Some(held) => Some(
                        RangedWeapon {
                            target: spec_kept_target(
                                map,
                                alive@,
                                positions@,
                                equipped[j],
                                held.range as int,
                                held.target,
                            ),
                            ..held
                        },
                    ),
                    None => None,
                }),
            forall|j: int|
                0 <= j < old(magic_weapons).len() ==> #[trigger] final(magic_weapons)[j] == (match old(magic_weapons)[j] {
                    Some(held) => Some(
                        MagicWeapon {
                            target: spec_kept_target(
                                map,
                                alive@,
                                positions@,
                                equipped[j],
                                held.range as int,
                                held.target,
                            ),
                            ..held
                        },
                    ),
                    None => None,
                }),
    {
        let n: usize = positions.len();
        let mut j: usize = 0;
        while j < n
            invariant
                j <= n,
                n == positions.len(),
                map.wf(),
                alive.len() == n,
                equipped.len() == n,
                ranged_weapons.len() == n,
                magic_weapons.len() == n,
                old(ranged_weapons).len() == n,
                old(magic_weapons).len() == n,
                spec_positions_on_map(positions@, map),
                forall|k: int|
                    0 <= k < n ==> #[trigger] ranged_weapons[k] == (if k < j {
                        match old(ranged_weapons)[k] {
                            Some(held) => Some(
                                RangedWeapon {
                                    target: spec_kept_target(
                                        map,
                                        alive@,
                                        positions@,
                                        equipped[k],
                                        held.range as int,
                                        held.target,
                                    ),
                                    ..held
                                },
                            ),
                            None => None,
                        }
                    } else {
                        old(ranged_weapons)[k]
                    }),
                forall|k: int|
                    0 <= k < n ==> #[trigger] magic_weapons[k] == (if k < j {
                        match old(magic_weapons)[k] {
                            Some(held) => Some(
                                MagicWeapon {
                                    target: spec_kept_target(
                                        map,
                                        alive@,
                                        positions@,
                                        equipped[k],
                                        held.range as int,
                                        held.target,
                                    ),
                                    ..held
                                },
                            ),
                            None => None,
                        }
                    } else {
                        old(magic_weapons)[k]
                    }),
            decreases n - j,
        {
            let wearer: Option<Equipped> = equipped[j];
            match ranged_weapons[j] {
                Some(held) => {
                    match held.target {
                        Some(target) => {
                            if is_stale(map, alive, positions, wearer, held.range, target) {
                                ranged_weapons.set(j, Some(RangedWeapon { target: None, ..held }));
                            }
                        },
                        None => {},
                    }
                },
                None => {},
            }
            match magic_weapons[j] {
                Some(held) => {
                    match held.target {
                        Some(target) => {
                            if is_stale(map, alive, positions, wearer, held.range, target) {
                                magic_weapons.set(j, Some(MagicWeapon { target: None, ..held }));
                            }
                        },
                        None => {},
                    }
                },
                None => {},
            }
            j += 1;
        }
    }
}

} // verus!
