//! Rebuilds the map's blocked flags and occupant lists from the entities'
//! current positions.

use crate::component::{Entity, Flags, Table};
use crate::geometry::Position;
use crate::map::GameMap;
use vstd::prelude::*;

verus! {

/// Entity `e` has a position, and it is the tile with index `t`.
pub open spec fn spec_stands_on(positions: Seq<Option<Position>>, e: int, width: int, t: int) -> bool {
    0 <= e < positions.len() && (positions[e] matches Some(p) && p.y * width + p.x == t)
}

/// Entity `e` stands on tile `t` and carries the marker that blocks movement.
pub open spec fn spec_blocker_on(
    positions: Seq<Option<Position>>,
    blockers: Seq<bool>,
    e: int,
    width: int,
    t: int,
) -> bool {
    spec_stands_on(positions, e, width, t) && e < blockers.len() && blockers[e]
}

/// The first `n` entities that stand on tile `t`, in the order of their
/// identifiers.
pub open spec fn spec_occupants(positions: Seq<Option<Position>>, width: int, t: int, n: int) -> Seq<Entity>
    decreases n,
{
    if n <= 0 {
        Seq::empty()
    } else {
        let rest = spec_occupants(positions, width, t, n - 1);
        if spec_stands_on(positions, n - 1, width, t) {
            rest.push(Entity { id: (n - 1) as usize })
        } else {
            rest
        }
    }
}

/// Every position in the table is a tile of the map.
pub open spec fn spec_positions_on_map(positions: Seq<Option<Position>>, map: &GameMap) -> bool {
    forall|e: int|
        0 <= e < positions.len() ==> ((#[trigger] positions[e]) matches Some(p) ==> map.spec_in_bounds(
            p.x as int,
            p.y as int,
        ))
}

/// The blocked flags and occupant lists of `map` are exactly what the
/// terrain and the positions say.
pub open spec fn spec_indexed(map: &GameMap, positions: Seq<Option<Position>>, blockers: Seq<bool>) -> bool {
    &&& forall|t: int|
        0 <= t < map.blocked_tiles.len() ==> (#[trigger] map.blocked_tiles[t] == (map.tiles[t].spec_blocks()
            || exists|e: int| #[trigger] spec_blocker_on(positions, blockers, e, map.width as int, t)))
    &&& forall|t: int|
        0 <= t < map.tile_content.len() ==> (#[trigger] map.tile_content[t])@ == spec_occupants(
            positions,
            map.width as int,
            t,
            positions.len() as int,
        )
}

pub struct MapIndexingSystem {}

impl MapIndexingSystem {
    /// Rebuilds the derived state of `map` from scratch: a tile is blocked
    /// where the terrain blocks or a blocking entity stands, and a tile's
    /// occupants are the entities positioned on it. Nothing of the state
    /// before the call survives in either.
    pub fn run(&self, positions: &Table<Position>, blockers: &Flags, map: &mut GameMap)
        requires
            old(map).wf(),
            positions.len() == blockers.len(),
            spec_positions_on_map(positions@, old(map)),
        ensures
            final(map).wf(),
            final(map).same_terrain(old(map)),
            final(map).revealed_tiles@ == old(map).revealed_tiles@,
            final(map).bloodstains@ == old(map).bloodstains@,
            spec_indexed(final(map), positions@, blockers@),
    {
        map.populate_blocked();
        map.clear_tile_content();
        let ghost w = map.width as int;
        let mut i: usize = 0;
        while i < positions.len()
            invariant
                i <= positions.len(),
                positions.len() == blockers.len(),
                w == map.width,
                map.wf(),
                map.same_terrain(old(map)),
                map.revealed_tiles@ == old(map).revealed_tiles@,
                map.bloodstains@ == old(map).bloodstains@,
                spec_positions_on_map(positions@, map),
                forall|t: int|
                    0 <= t < map.blocked_tiles.len() ==> (#[trigger] map.blocked_tiles[t] == (
                    map.tiles[t].spec_blocks() || exists|e: int|
                        e < i && #[trigger] spec_blocker_on(positions@, blockers@, e, w, t))),
                forall|t: int|
                    0 <= t < map.tile_content.len() ==> (#[trigger] map.tile_content[t])@ == spec_occupants(
                        positions@,
                        w,
                        t,
                        i as int,
                    ),
            decreases positions.len() - i,
        {
            let ghost before = *map;
            match positions[i] {
                Some(p) => {
                    let index: usize = map.xy_idx(p.x, p.y);
                    if blockers[i] {
                        map.blocked_tiles.set(index, true);
                        assert(spec_blocker_on(positions@, blockers@, i as int, w, index as int));
                    }
                    map.tile_content[index].push(Entity { id: i });
                },
                None => {},
            }
            proof {
                assert forall|t: int| 0 <= t < map.blocked_tiles.len() implies (
                #[trigger] map.blocked_tiles[t] == (map.tiles[t].spec_blocks() || exists|e: int|
                    e < i + 1 && #[trigger] spec_blocker_on(positions@, blockers@, e, w, t))) by {
                    if before.blocked_tiles[t] {
                        if !map.tiles[t].spec_blocks() {
                            let e = choose|e: int|
                                e < i && #[trigger] spec_blocker_on(positions@, blockers@, e, w, t);
                            assert(e < i + 1 && spec_blocker_on(positions@, blockers@, e, w, t));
                        }
                    } else if map.blocked_tiles[t] {
                    } else {
                        assert forall|e: int| e < i + 1 implies !#[trigger] spec_blocker_on(
                            positions@,
                            blockers@,
                            e,
                            w,
                            t,
                        ) by {
                            if e < i {
                            }
                        }
                    }
                }
            }
            i += 1;
        }
        proof {
            assert forall|t: int| 0 <= t < map.blocked_tiles.len() implies (#[trigger] map.blocked_tiles[t]
                == (map.tiles[t].spec_blocks() || exists|e: int|
                #[trigger] spec_blocker_on(positions@, blockers@, e, w, t))) by {
                if exists|e: int| #[trigger] spec_blocker_on(positions@, blockers@, e, w, t) {
                    let e = choose|e: int| #[trigger] spec_blocker_on(positions@, blockers@, e, w, t);
                    assert(e < i && spec_blocker_on(positions@, blockers@, e, w, t));
                }
            }
        }
    }
}

/// The occupants of a tile are exactly the entities that stand on it.
pub proof fn lemma_occupants_members(positions: Seq<Option<Position>>, width: int, t: int, n: int, e: Entity)
    requires
        0 <= n <= positions.len() <= usize::MAX,
    ensures
        spec_occupants(positions, width, t, n).contains(e) <==> (e.id < n && spec_stands_on(
            positions,
            e.id as int,
            width,
            t,
        )),
    decreases n,
{
    if n > 0 {
        let rest = spec_occupants(positions, width, t, n - 1);
        lemma_occupants_members(positions, width, t, n - 1, e);
        if spec_stands_on(positions, n - 1, width, t) {
            let last = Entity { id: (n - 1) as usize };
            let all = rest.push(last);
            if all.contains(e) {
                let i = choose|i: int| 0 <= i < all.len() && all[i] == e;
                if i < rest.len() {
                    assert(rest[i] == e);
                }
            }
            if rest.contains(e) {
                let i = choose|i: int| 0 <= i < rest.len() && rest[i] == e;
                assert(all[i] == e);
            }
            if e.id == n - 1 {
                assert(all[rest.len() as int] == e);
            }
        }
    }
}

/// A tile on which no entity stands has no occupants.
pub proof fn lemma_occupants_empty(positions: Seq<Option<Position>>, width: int, t: int, n: int)
    requires
        forall|e: int| 0 <= e < n ==> !spec_stands_on(positions, e, width, t),
    ensures
        spec_occupants(positions, width, t, n).len() == 0,
    decreases n,
{
    if n > 0 {
        lemma_occupants_empty(positions, width, t, n - 1);
    }
}

/// After the index has been rebuilt, the tile under every blocking entity
/// is blocked, and a tile on which no entity stands has an empty occupant
/// list.
pub proof fn lemma_index_is_fresh(
    map: &GameMap,
    positions: Seq<Option<Position>>,
    blockers: Seq<bool>,
    e: int,
    t: int,
)
    requires
        map.wf(),
        spec_indexed(map, positions, blockers),
        0 <= t < map.tiles.len(),
    ensures
        spec_blocker_on(positions, blockers, e, map.width as int, t) ==> map.blocked_tiles[t],
        (forall|o: int| 0 <= o < positions.len() ==> !spec_stands_on(positions, o, map.width as int, t))
            ==> map.tile_content[t]@.len() == 0,
{
    if forall|o: int| 0 <= o < positions.len() ==> !spec_stands_on(positions, o, map.width as int, t) {
        lemma_occupants_empty(positions, map.width as int, t, positions.len() as int);
    }
}

} // verus!
