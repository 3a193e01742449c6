//! Recomputes what every entity sees, reveals to the player what comes
//! into view, and lets the player spot what is hidden there.

use crate::component::{Entity, Flags, Name, Table, Viewshed};
use crate::geometry::Position;
use crate::logbook::{spec_line_text, spec_log_grew_by, Tint, LogFragment, Logbook, Logger};
use crate::map::{lemma_idx_in_range, lemma_xy_of_idx, GameMap};
use crate::random::roll_dice;
use crate::sight::{
    field_of_view, spec_field_of_view, spec_in_reach, spec_opacity, spec_points, MAX_VIEW_RANGE,
};
use crate::system::map_indexing_system::spec_positions_on_map;
use vstd::prelude::*;

verus! {

/// Sides of the die that decides whether a hidden thing in view is spotted;
/// only its highest face spots.
pub const SPOT_DIE: i32 = 20;

/// Every viewshed's range is one for which a field of view is computed.
pub open spec fn spec_viewsheds_valid(viewsheds: Seq<Option<Viewshed>>) -> bool {
    forall|e: int|
        0 <= e < viewsheds.len() ==> ((#[trigger] viewsheds[e]) matches Some(v) ==> -MAX_VIEW_RANGE <= v.range
            <= MAX_VIEW_RANGE)
}

/// Every occupant listed on the map is an entity of tables `n` long.
pub open spec fn spec_content_in_range(map: &GameMap, n: int) -> bool {
    forall|t: int, k: int|
        0 <= t < map.tile_content.len() && 0 <= k < map.tile_content[t]@.len() ==> (
        #[trigger] map.tile_content[t]@[k]).id < n
}

/// Every hidden entity has a name.
pub open spec fn spec_hidden_named(hidden: Seq<bool>, names: Seq<Option<Name>>) -> bool {
    forall|o: int| 0 <= o < hidden.len() && #[trigger] hidden[o] ==> names[o] is Some
}

/// The tiles in view from `p` out to `range` over the map's terrain.
pub open spec fn spec_sight(map: &GameMap, p: Position, range: int) -> Set<(int, int)> {
    spec_field_of_view(
        p.x as int,
        p.y as int,
        range,
        map.width as int,
        map.height as int,
        spec_opacity(map.tiles@),
    )
}

/// Entity `e` has both a viewshed and a position.
pub open spec fn spec_watches(viewsheds: Seq<Option<Viewshed>>, positions: Seq<Option<Position>>, e: int) -> bool {
    0 <= e < viewsheds.len() && e < positions.len() && viewsheds[e] is Some && positions[e] is Some
}

/// Entity `e` is a player whose view takes in the tile with index `t`.
pub open spec fn spec_player_sees(
    map: &GameMap,
    players: Seq<bool>,
    viewsheds: Seq<Option<Viewshed>>,
    positions: Seq<Option<Position>>,
    e: int,
    t: int,
) -> bool {
    spec_watches(viewsheds, positions, e) && e < players.len() && players[e] && spec_sight(
        map,
        positions[e].unwrap(),
        viewsheds[e].unwrap().range as int,
    ).contains((t % (map.width as int), t / (map.width as int)))
}

/// The viewshed `after` is `before` recomputed from `p`: the same range,
/// and exactly the tiles in view, each once, in the order of their tile
/// indices. All of them lie on the map and within reach of the range, and
/// the viewer's own tile is one of them.
pub open spec fn spec_recomputed(map: &GameMap, p: Position, before: Viewshed, after: Viewshed) -> bool {
    &&& after.range == before.range
    &&& spec_in_tile_order(after.visible_tiles@, map.width as int)
    &&& after.visible_tiles@.no_duplicates()
    &&& spec_points(after.visible_tiles@).to_set() == spec_sight(map, p, before.range as int)
    &&& forall|k: int|
        0 <= k < after.visible_tiles@.len() ==> map.spec_in_bounds(
            (#[trigger] after.visible_tiles@[k]).x as int,
            after.visible_tiles@[k].y as int,
        )
    &&& after.visible_tiles@.contains(p)
    &&& forall|k: int|
        0 <= k < after.visible_tiles@.len() ==> spec_in_reach(
            p.x as int,
            p.y as int,
            before.range as int,
            (#[trigger] after.visible_tiles@[k]).x as int,
            after.visible_tiles@[k].y as int,
        )
}

/// One of the first `k` tiles of `seen` has index `t`.
pub open spec fn spec_seen_before(seen: Seq<Position>, width: int, k: int, t: int) -> bool {
    exists|j: int| 0 <= j < k && j < seen.len() && (#[trigger] seen[j]).y * width + seen[j].x == t
}

pub open spec fn spec_spotted_text(name: Seq<char>) -> Seq<char> {
    "Your keen gaze revealed a hidden "@ + name + "!"@
}

/// Tells the player what has been spotted.
pub fn say_spotted(found: &Name, log: &mut Logbook)
    ensures
        final(log).entries@.len() == old(log).entries@.len() + 1,
        final(log).extends(old(log)),
        spec_line_text(final(log).entries@.last()@) == spec_spotted_text(found.name@),
{
    let line: Logger = Logger::new().append("Your keen gaze revealed a hidden ").with_color(Tint::Red).append(
        found.name.as_str(),
    ).append("!");
    assert(spec_line_text(line.fragments@) =~= spec_spotted_text(found.name@)) by {
        assert(spec_line_text(Seq::<LogFragment>::empty()) =~= Seq::<char>::empty());
    }
    line.log(log);
}

/// Marks every tile of `seen` as revealed, for good.
pub fn reveal_tiles(map: &mut GameMap, seen: &Vec<Position>)
    requires
        old(map).wf(),
        forall|k: int|
            0 <= k < seen@.len() ==> old(map).spec_in_bounds(#[trigger] seen@[k].x as int, seen@[k].y as int),
    ensures
        final(map).wf(),
        final(map).same_terrain(old(map)),
        final(map).blocked_tiles@ == old(map).blocked_tiles@,
        final(map).tile_content@ == old(map).tile_content@,
        final(map).bloodstains@ == old(map).bloodstains@,
        final(map).keeps_revealed(old(map)),
        forall|t: int|
            0 <= t < final(map).revealed_tiles.len() ==> (#[trigger] final(map).revealed_tiles[t] <==> (old(map).revealed_tiles[t] || spec_seen_before(seen@, old(map).width as int, seen@.len() as int, t))),
{
    let ghost w = map.width as int;
    let mut k: usize = 0;
    while k < seen.len()
        invariant
            k <= seen.len(),
            w == map.width,
            map.wf(),
            map.same_terrain(old(map)),
            map.blocked_tiles@ == old(map).blocked_tiles@,
            map.tile_content@ == old(map).tile_content@,
            map.bloodstains@ == old(map).bloodstains@,
            forall|j: int| 0 <= j < seen@.len() ==> map.spec_in_bounds(#[trigger] seen@[j].x as int, seen@[j].y as int),
            forall|t: int|
                0 <= t < map.revealed_tiles.len() ==> (#[trigger] map.revealed_tiles[t] <==> (old(map).revealed_tiles[t] || spec_seen_before(seen@, w, k as int, t))),
        decreases seen.len() - k,
    {
        let ghost before = map.revealed_tiles@;
        let tile: Position = seen[k];
        let index: usize = map.xy_idx(tile.x, tile.y);
        map.revealed_tiles.set(index, true);
        proof {
            assert forall|t: int| 0 <= t < map.revealed_tiles.len() implies (#[trigger] map.revealed_tiles[t]
                <==> (old(map).revealed_tiles[t] || spec_seen_before(seen@, w, k + 1, t))) by {
                if spec_seen_before(seen@, w, k as int, t) {
                    let j = choose|j: int|
                        0 <= j < k && j < seen@.len() && (#[trigger] seen@[j]).y * w + seen@[j].x == t;
                    assert(0 <= j < k + 1 && seen@[j].y * w + seen@[j].x == t);
                }
                if t == index {
                    assert(seen@[k as int].y * w + seen@[k as int].x == t);
                }
                if spec_seen_before(seen@, w, k + 1, t) && t != index {
                    let j = choose|j: int|
                        0 <= j < k + 1 && j < seen@.len() && (#[trigger] seen@[j]).y * w + seen@[j].x == t;
                    assert(j != k);
                    assert(0 <= j < k && seen@[j].y * w + seen@[j].x == t);
                }
            }
        }
        k += 1;
    }
}

/// The tiles come in the order of their indices on a grid `width` wide,
/// none of them twice.
pub open spec fn spec_in_tile_order(tiles: Seq<Position>, width: int) -> bool {
    forall|a: int, b: int|
        0 <= a < b < tiles.len() ==> (#[trigger] tiles[a]).y * width + tiles[a].x < (#[trigger] tiles[b]).y * width
            + tiles[b].x
}

/// Two lists that hold the same tiles have the same points.
pub proof fn lemma_same_tiles_same_points(a: Seq<Position>, b: Seq<Position>)
    requires
        forall|p: Position| a.contains(p) <==> b.contains(p),
    ensures
        spec_points(a).to_set() == spec_points(b).to_set(),
{
    assert forall|q: (int, int)| spec_points(a).to_set().contains(q) <==> spec_points(b).to_set().contains(q) by {
        if spec_points(a).contains(q) {
            let k = choose|k: int| 0 <= k < spec_points(a).len() && spec_points(a)[k] == q;
            assert(a.contains(a[k]));
            let j = choose|j: int| 0 <= j < b.len() && b[j] == a[k];
            assert(spec_points(b)[j] == q);
        }
        if spec_points(b).contains(q) {
            let k = choose|k: int| 0 <= k < spec_points(b).len() && spec_points(b)[k] == q;
            assert(b.contains(b[k]));
            let j = choose|j: int| 0 <= j < a.len() && a[j] == b[k];
            assert(spec_points(a)[j] == q);
        }
    }
    assert(spec_points(a).to_set() =~= spec_points(b).to_set());
}

/// Two lists in tile order that hold the same tiles are one list.
pub proof fn lemma_tile_order_is_one(a: Seq<Position>, b: Seq<Position>, width: int)
    requires
        spec_in_tile_order(a, width),
        spec_in_tile_order(b, width),
        forall|p: Position| a.contains(p) <==> b.contains(p),
    ensures
        a == b,
    decreases a.len(),
{
    if a.len() == 0 {
        if b.len() > 0 {
            assert(b.contains(b[0]));
        }
        assert(a =~= b);
    } else {
        assert(a.contains(a[0]));
        let j = choose|j: int| 0 <= j < b.len() && b[j] == a[0];
        assert(b.contains(b[0]));
        let i = choose|i: int| 0 <= i < a.len() && a[i] == b[0];
        if i > 0 {
            assert(a[0].y * width + a[0].x < a[i].y * width + a[i].x);
            if j > 0 {
                assert(b[0].y * width + b[0].x < b[j].y * width + b[j].x);
            }
        }
        assert(a[0] == b[0]);
        let rest_a = a.subrange(1, a.len() as int);
        let rest_b = b.subrange(1, b.len() as int);
        assert forall|x: int, y: int| 0 <= x < y < rest_a.len() implies (#[trigger] rest_a[x]).y * width + rest_a[x].x
            < (#[trigger] rest_a[y]).y * width + rest_a[y].x by {
            assert(rest_a[x] == a[x + 1] && rest_a[y] == a[y + 1]);
        }
        assert forall|x: int, y: int| 0 <= x < y < rest_b.len() implies (#[trigger] rest_b[x]).y * width + rest_b[x].x
            < (#[trigger] rest_b[y]).y * width + rest_b[y].x by {
            assert(rest_b[x] == b[x + 1] && rest_b[y] == b[y + 1]);
        }
        assert forall|p: Position| rest_a.contains(p) <==> rest_b.contains(p) by {
            if rest_a.contains(p) {
                let k = choose|k: int| 0 <= k < rest_a.len() && rest_a[k] == p;
                assert(a[k + 1] == p);
                assert(a.contains(p));
                let l = choose|l: int| 0 <= l < b.len() && b[l] == p;
                assert(a[0].y * width + a[0].x < a[k + 1].y * width + a[k + 1].x);
                assert(l != 0);
                assert(rest_b[l - 1] == p);
            }
            if rest_b.contains(p) {
                let k = choose|k: int| 0 <= k < rest_b.len() && rest_b[k] == p;
                assert(b[k + 1] == p);
                assert(b.contains(p));
                let l = choose|l: int| 0 <= l < a.len() && a[l] == p;
                assert(b[0].y * width + b[0].x < b[k + 1].y * width + b[k + 1].x);
                assert(l != 0);
                assert(rest_a[l - 1] == p);
            }
        }
        lemma_tile_order_is_one(rest_a, rest_b, width);
        assert(a.len() == b.len());
        assert forall|k: int| 0 <= k < a.len() implies a[k] == b[k] by {
            if k > 0 {
                assert(rest_a[k - 1] == a[k]);
                assert(rest_b[k - 1] == b[k]);
            }
        }
        assert(a =~= b);
    }
}

/// Two lists whose points are the same hold the same tiles.
pub proof fn lemma_same_points_same_tiles(a: Seq<Position>, b: Seq<Position>)
    requires
        spec_points(a).to_set() == spec_points(b).to_set(),
    ensures
        forall|p: Position| a.contains(p) <==> b.contains(p),
{
    assert forall|p: Position| a.contains(p) <==> b.contains(p) by {
        let q = (p.x as int, p.y as int);
        if a.contains(p) {
            let k = choose|k: int| 0 <= k < a.len() && a[k] == p;
            assert(spec_points(a)[k] == q);
            assert(spec_points(a).contains(q));
            assert(spec_points(b).to_set().contains(q));
            let j = choose|j: int| 0 <= j < spec_points(b).len() && spec_points(b)[j] == q;
            assert(b[j] == p);
        }
        if b.contains(p) {
            let k = choose|k: int| 0 <= k < b.len() && b[k] == p;
            assert(spec_points(b)[k] == q);
            assert(spec_points(b).contains(q));
            assert(spec_points(a).to_set().contains(q));
            let j = choose|j: int| 0 <= j < spec_points(a).len() && spec_points(a)[j] == q;
            assert(a[j] == p);
        }
    }
}

/// What a viewshed is recomputed to is fixed by the map and by where its
/// owner stands: two viewsheds recomputed from one viewshed at one place
/// have the same range and list the same tiles in the same order.
pub proof fn lemma_view_is_determined(map: &GameMap, p: Position, before: Viewshed, a: Viewshed, b: Viewshed)
    requires
        spec_recomputed(map, p, before, a),
        spec_recomputed(map, p, before, b),
    ensures
        a.range == b.range,
        a.visible_tiles@ == b.visible_tiles@,
{
    lemma_same_points_same_tiles(a.visible_tiles@, b.visible_tiles@);
    lemma_tile_order_is_one(a.visible_tiles@, b.visible_tiles@, map.width as int);
}

/// The tiles of `seen` in the order of their tile indices, each once: the
/// order in which a view is looked over, whatever order the tiles were
/// found in.
pub fn in_tile_order(map: &GameMap, seen: &Vec<Position>) -> (ordered: Vec<Position>)
    requires
        map.wf(),
        forall|k: int| 0 <= k < seen@.len() ==> map.spec_in_bounds(#[trigger] seen@[k].x as int, seen@[k].y as int),
    ensures
        spec_in_tile_order(ordered@, map.width as int),
        ordered@.no_duplicates(),
        forall|k: int|
            0 <= k < ordered@.len() ==> map.spec_in_bounds(#[trigger] ordered@[k].x as int, ordered@[k].y as int),
        forall|p: Position| ordered@.contains(p) <==> seen@.contains(p),
        spec_points(ordered@).to_set() == spec_points(seen@).to_set(),
{
    let ghost w = map.width as int;
    let ghost h = map.height as int;
    let n: usize = map.tiles.len();
    let mut marks: Vec<bool> = Vec::new();
    let mut t: usize = 0;
    while t < n
        invariant
            t <= n,
            marks.len() == t,
            forall|u: int| 0 <= u < t ==> !#[trigger] marks[u],
        decreases n - t,
    {
        marks.push(false);
        t += 1;
    }
    let mut k: usize = 0;
    while k < seen.len()
        invariant
            k <= seen.len(),
            w == map.width,
            map.wf(),
            n == map.tiles.len(),
            marks.len() == n,
            forall|j: int| 0 <= j < seen@.len() ==> map.spec_in_bounds(#[trigger] seen@[j].x as int, seen@[j].y as int),
            forall|u: int| 0 <= u < n ==> (#[trigger] marks[u] <==> spec_seen_before(seen@, w, k as int, u)),
        decreases seen.len() - k,
    {
        let tile: Position = seen[k];
        let index: usize = map.xy_idx(tile.x, tile.y);
        marks.set(index, true);
        proof {
            assert forall|u: int| 0 <= u < n implies (#[trigger] marks[u] <==> spec_seen_before(
                seen@,
                w,
                k + 1,
                u,
            )) by {
                if spec_seen_before(seen@, w, k as int, u) {
                    let j = choose|j: int|
                        0 <= j < k && j < seen@.len() && (#[trigger] seen@[j]).y * w + seen@[j].x == u;
                    assert(0 <= j < k + 1 && seen@[j].y * w + seen@[j].x == u);
                }
                if u == index {
                    assert(seen@[k as int].y * w + seen@[k as int].x == u);
                }
                if spec_seen_before(seen@, w, k + 1, u) && u != index {
                    let j = choose|j: int|
                        0 <= j < k + 1 && j < seen@.len() && (#[trigger] seen@[j]).y * w + seen@[j].x == u;
                    assert(j != k);
                    assert(0 <= j < k && seen@[j].y * w + seen@[j].x == u);
                }
            }
        }
        k += 1;
    }
    let mut ordered: Vec<Position> = Vec::new();
    let mut t: usize = 0;
    while t < n
        invariant
            t <= n,
            w == map.width,
            h == map.height,
            map.wf(),
            n == map.tiles.len(),
            marks.len() == n,
            spec_in_tile_order(ordered@, w),
            forall|a: int|
                0 <= a < ordered@.len() ==> map.spec_in_bounds(
                    (#[trigger] ordered@[a]).x as int,
                    ordered@[a].y as int,
                ) && ordered@[a].y * w + ordered@[a].x < t && marks[ordered@[a].y * w + ordered@[a].x],
            forall|u: int|
                0 <= u < t && #[trigger] marks[u] ==> spec_seen_before(ordered@, w, ordered@.len() as int, u),
        decreases n - t,
    {
        let ghost before = ordered@;
        if marks[t] {
            let (x, y) = map.idx_xy(t);
            ordered.push(Position { x, y });
            proof {
                assert(ordered@[before.len() as int].y * w + ordered@[before.len() as int].x == t);
                assert forall|a: int, b: int| 0 <= a < b < ordered@.len() implies (#[trigger] ordered@[a]).y * w
                    + ordered@[a].x < (#[trigger] ordered@[b]).y * w + ordered@[b].x by {
                    assert(ordered@[a] == before[a]);
                    if b < before.len() {
                        assert(ordered@[b] == before[b]);
                    }
                }
            }
        }
        proof {
            assert forall|u: int| 0 <= u < t + 1 && #[trigger] marks[u] implies spec_seen_before(
                ordered@,
                w,
                ordered@.len() as int,
                u,
            ) by {
                if u < t {
                    let j = choose|j: int|
                        0 <= j < before.len() && j < before.len() && (#[trigger] before[j]).y * w + before[j].x == u;
                    assert(ordered@[j] == before[j]);
                    assert(ordered@[j].y * w + ordered@[j].x == u);
                } else {
                    assert(ordered@[before.len() as int].y * w + ordered@[before.len() as int].x == u);
                }
            }
            assert forall|a: int| 0 <= a < ordered@.len() implies map.spec_in_bounds(
                (#[trigger] ordered@[a]).x as int,
                ordered@[a].y as int,
            ) && ordered@[a].y * w + ordered@[a].x < t + 1 && marks[ordered@[a].y * w + ordered@[a].x] by {
                if a < before.len() {
                    assert(ordered@[a] == before[a]);
                }
            }
        }
        t += 1;
    }
    proof {
        assert forall|p: Position| ordered@.contains(p) <==> seen@.contains(p) by {
            if ordered@.contains(p) {
                let a = choose|a: int| 0 <= a < ordered@.len() && ordered@[a] == p;
                let u = ordered@[a].y * w + ordered@[a].x;
                assert(marks[u]);
                assert(spec_seen_before(seen@, w, seen@.len() as int, u));
                let j = choose|j: int|
                    0 <= j < seen@.len() && j < seen@.len() && (#[trigger] seen@[j]).y * w + seen@[j].x == u;
                lemma_idx_in_range(seen@[j].x as int, seen@[j].y as int, w, h);
                lemma_idx_in_range(p.x as int, p.y as int, w, h);
                assert(seen@[j] == p);
            }
            if seen@.contains(p) {
                let j = choose|j: int| 0 <= j < seen@.len() && seen@[j] == p;
                let u = seen@[j].y * w + seen@[j].x;
                lemma_idx_in_range(p.x as int, p.y as int, w, h);
                assert(spec_seen_before(seen@, w, seen@.len() as int, u));
                assert(marks[u]);
                assert(spec_seen_before(ordered@, w, ordered@.len() as int, u));
                let a = choose|a: int|
                    0 <= a < ordered@.len() && a < ordered@.len() && (#[trigger] ordered@[a]).y * w + ordered@[a].x
                        == u;
                lemma_idx_in_range(ordered@[a].x as int, ordered@[a].y as int, w, h);
                assert(ordered@[a] == p);
            }
        }
        lemma_same_tiles_same_points(ordered@, seen@);
        assert forall|a: int, b: int| 0 <= a < ordered@.len() && 0 <= b < ordered@.len() && a != b implies ordered@[a]
            != ordered@[b] by {
            if a < b {
                assert(ordered@[a].y * w + ordered@[a].x < ordered@[b].y * w + ordered@[b].x);
            } else {
                assert(ordered@[b].y * w + ordered@[b].x < ordered@[a].y * w + ordered@[a].x);
            }
        }
    }
    ordered
}

/// Entity `o` is listed as an occupant of one of the tiles of `seen`.
pub open spec fn spec_in_view(map: &GameMap, seen: Seq<Position>, o: Entity) -> bool {
    exists|k: int|
        0 <= k < seen.len() && map.spec_in_bounds(seen[k].x as int, seen[k].y as int) && (
        #[trigger] map.tile_content[map.spec_idx(seen[k].x as int, seen[k].y as int)])@.contains(o)
}

/// The hidden markers and the lines said once a glance has fallen on
/// `occupant` and the die has shown `roll`: a hidden occupant is uncovered
/// and announced where the die shows its highest face, and nothing changes
/// otherwise.
pub open spec fn spec_glanced(
    state: (Seq<bool>, Seq<Seq<char>>),
    names: Seq<Option<Name>>,
    occupant: Entity,
    roll: int,
) -> (Seq<bool>, Seq<Seq<char>>) {
    if state.0[occupant.id as int] && roll == SPOT_DIE {
        (
            state.0.update(occupant.id as int, false),
            state.1.push(spec_spotted_text(names[occupant.id as int].unwrap().name@)),
        )
    } else {
        state
    }
}

/// The hidden markers and the lines said once a glance has fallen on the
/// first `m` of the occupants of a tile, in their order, with the die
/// showing `rolls` for them.
pub open spec fn spec_spot_tile(
    state: (Seq<bool>, Seq<Seq<char>>),
    names: Seq<Option<Name>>,
    occupants: Seq<Entity>,
    rolls: Seq<i32>,
    m: int,
) -> (Seq<bool>, Seq<Seq<char>>)
    decreases m,
{
    if m <= 0 {
        state
    } else {
        spec_glanced(
            spec_spot_tile(state, names, occupants, rolls, m - 1),
            names,
            occupants[m - 1],
            rolls[m - 1] as int,
        )
    }
}

/// The occupants that the map lists on the tile at `at`.
pub open spec fn spec_occupants_at(map: &GameMap, at: Position) -> Seq<Entity> {
    map.tile_content[map.spec_idx(at.x as int, at.y as int)]@
}

/// The hidden markers and the lines said once the first `k` tiles of `seen`
/// have been looked over, tile after tile, with the die showing `rolls[j]`
/// for the occupants of the tile `seen[j]`.
pub open spec fn spec_spot_all(
    map: &GameMap,
    state: (Seq<bool>, Seq<Seq<char>>),
    names: Seq<Option<Name>>,
    seen: Seq<Position>,
    rolls: Seq<Seq<i32>>,
    k: int,
) -> (Seq<bool>, Seq<Seq<char>>)
    decreases k,
{
    if k <= 0 {
        state
    } else {
        spec_spot_tile(
            spec_spot_all(map, state, names, seen, rolls, k - 1),
            names,
            spec_occupants_at(map, seen[k - 1]),
            rolls[k - 1],
            spec_occupants_at(map, seen[k - 1]).len() as int,
        )
    }
}

/// For every occupant of every tile of `seen` a number is noted: what the
/// die has shown for it, from one to `SPOT_DIE`, or zero where no die was
/// rolled for it.
pub open spec fn spec_spot_rolls_ok(map: &GameMap, seen: Seq<Position>, rolls: Seq<Seq<i32>>) -> bool {
    &&& rolls.len() == seen.len()
    &&& forall|k: int| 0 <= k < seen.len() ==> (#[trigger] rolls[k]).len() == spec_occupants_at(map, seen[k]).len()
    &&& forall|k: int, m: int|
        0 <= k < seen.len() && 0 <= m < rolls[k].len() ==> 0 <= #[trigger] rolls[k][m] <= SPOT_DIE
}

/// The tiles of `seen` have been looked over with the die showing `rolls`:
/// `hidden_after` and the lines added to the log are what the glances make
/// of `hidden_before`.
pub open spec fn spec_spotted_with(
    map: &GameMap,
    seen: Seq<Position>,
    names: Seq<Option<Name>>,
    rolls: Seq<Seq<i32>>,
    hidden_before: Seq<bool>,
    hidden_after: Seq<bool>,
    log_before: &Logbook,
    log_after: &Logbook,
) -> bool {
    let outcome = spec_spot_all(
        map,
        (hidden_before, Seq::<Seq<char>>::empty()),
        names,
        seen,
        rolls,
        seen.len() as int,
    );
    &&& spec_spot_rolls_ok(map, seen, rolls)
    &&& hidden_after == outcome.0
    &&& spec_log_grew_by(log_before, log_after, outcome.1)
}

/// The tiles of `seen` have been looked over, with the die showing what it
/// may.
pub open spec fn spec_spotted(
    map: &GameMap,
    seen: Seq<Position>,
    names: Seq<Option<Name>>,
    hidden_before: Seq<bool>,
    hidden_after: Seq<bool>,
    log_before: &Logbook,
    log_after: &Logbook,
) -> bool {
    exists|rolls: Seq<Seq<i32>>|
        #[trigger] spec_spotted_with(map, seen, names, rolls, hidden_before, hidden_after, log_before, log_after)
}

/// What the glances on the first `m` occupants make of the markers does
/// not depend on what the die shows for the occupants after them.
pub proof fn lemma_spot_tile_prefix(
    state: (Seq<bool>, Seq<Seq<char>>),
    names: Seq<Option<Name>>,
    occupants: Seq<Entity>,
    a: Seq<i32>,
    b: Seq<i32>,
    m: int,
)
    requires
        0 <= m <= a.len(),
        m <= b.len(),
        forall|i: int| 0 <= i < m ==> a[i] == b[i],
    ensures
        spec_spot_tile(state, names, occupants, a, m) == spec_spot_tile(state, names, occupants, b, m),
    decreases m,
{
    if m > 0 {
        lemma_spot_tile_prefix(state, names, occupants, a, b, m - 1);
    }
}

/// What looking over the first `k` tiles makes of the markers does not
/// depend on what the die shows on the tiles after them.
pub proof fn lemma_spot_all_prefix(
    map: &GameMap,
    state: (Seq<bool>, Seq<Seq<char>>),
    names: Seq<Option<Name>>,
    seen: Seq<Position>,
    a: Seq<Seq<i32>>,
    b: Seq<Seq<i32>>,
    k: int,
)
    requires
        0 <= k <= a.len(),
        k <= b.len(),
        forall|i: int| 0 <= i < k ==> a[i] == b[i],
    ensures
        spec_spot_all(map, state, names, seen, a, k) == spec_spot_all(map, state, names, seen, b, k),
    decreases k,
{
    if k > 0 {
        lemma_spot_all_prefix(map, state, names, seen, a, b, k - 1);
    }
}

/// A glance falls on `occupant`, and the die has shown `roll`: where the
/// occupant is hidden and the die shows its highest face, the occupant is
/// uncovered and the log says so. Nothing else changes.
pub fn glance(roll: i32, occupant: Entity, hidden: &mut Flags, names: &Table<Name>, log: &mut Logbook)
    requires
        occupant.id < old(hidden).len(),
        old(hidden).len() == names.len(),
        spec_hidden_named(old(hidden)@, names@),
    ensures
        final(hidden)@ == spec_glanced(
            (old(hidden)@, Seq::<Seq<char>>::empty()),
            names@,
            occupant,
            roll as int,
        ).0,
        spec_log_grew_by(
            old(log),
            final(log),
            spec_glanced((old(hidden)@, Seq::<Seq<char>>::empty()), names@, occupant, roll as int).1,
        ),
        spec_hidden_named(final(hidden)@, names@),
{
    if hidden[occupant.id] && roll == SPOT_DIE {
        let name: &Name = names[occupant.id].as_ref().unwrap();
        say_spotted(name, log);
        hidden.set(occupant.id, false);
        assert(log.entries@[old(log).entries@.len() as int] == log.entries@.last());
    }
}

/// Rolls once for every hidden occupant of every tile of `seen`, and
/// uncovers and announces those for which the die shows its highest face.
///
/// Markers and log are exactly what the glances make of them for what the
/// die has shown. Whatever that is: nothing becomes hidden, and only hidden
/// occupants of tiles in `seen` are uncovered.
pub fn spot_hidden(
    map: &GameMap,
    seen: &Vec<Position>,
    hidden: &mut Flags,
    names: &Table<Name>,
    rng: &mut rltk::RandomNumberGenerator,
    log: &mut Logbook,
)
    requires
        map.wf(),
        old(hidden).len() == names.len(),
        spec_content_in_range(map, names.len() as int),
        spec_hidden_named(old(hidden)@, names@),
        forall|k: int|
            0 <= k < seen@.len() ==> map.spec_in_bounds(#[trigger] seen@[k].x as int, seen@[k].y as int),
    ensures
        final(hidden).len() == old(hidden).len(),
        forall|o: int| 0 <= o < final(hidden).len() && #[trigger] final(hidden)[o] ==> old(hidden)[o],
        forall|o: int|
            0 <= o < final(hidden).len() && old(hidden)[o] && !#[trigger] final(hidden)[o] ==> spec_in_view(
                map,
                seen@,
                Entity { id: o as usize },
            ),
        final(log).extends(old(log)),
        spec_spotted(map, seen@, names@, old(hidden)@, final(hidden)@, old(log), final(log)),
{
    let ghost start = (old(hidden)@, Seq::<Seq<char>>::empty());
    let ghost mut rolls: Seq<Seq<i32>> = Seq::empty();
    let ghost mut said: Seq<Seq<char>> = Seq::empty();
    let mut k: usize = 0;
    while k < seen.len()
        invariant
            k <= seen.len(),
            map.wf(),
            hidden.len() == names.len(),
            hidden.len() == old(hidden).len(),
            spec_content_in_range(map, names.len() as int),
            spec_hidden_named(hidden@, names@),
            forall|j: int|
                0 <= j < seen@.len() ==> map.spec_in_bounds(#[trigger] seen@[j].x as int, seen@[j].y as int),
            forall|o: int| 0 <= o < hidden.len() && #[trigger] hidden[o] ==> old(hidden)[o],
            forall|o: int|
                0 <= o < hidden.len() && old(hidden)[o] && !#[trigger] hidden[o] ==> spec_in_view(
                    map,
                    seen@,
                    Entity { id: o as usize },
                ),
            log.extends(old(log)),
            start == (old(hidden)@, Seq::<Seq<char>>::empty()),
            rolls.len() == k,
            forall|j: int| 0 <= j < k ==> (#[trigger] rolls[j]).len() == spec_occupants_at(map, seen@[j]).len(),
            forall|j: int, i: int| 0 <= j < k && 0 <= i < rolls[j].len() ==> 0 <= #[trigger] rolls[j][i] <= SPOT_DIE,
            (hidden@, said) == spec_spot_all(map, start, names@, seen@, rolls, k as int),
            spec_log_grew_by(old(log), log, said),
        decreases seen.len() - k,
    {
        let tile: Position = seen[k];
        let index: usize = map.xy_idx(tile.x, tile.y);
        let ghost company = map.tile_content[index as int]@;
        let ghost tile_start = (hidden@, said);
        let ghost mut row: Seq<i32> = Seq::empty();
        let mut m: usize = 0;
        while m < map.tile_content[index].len()
            invariant
                k < seen.len(),
                tile == seen@[k as int],
                index == map.spec_idx(tile.x as int, tile.y as int),
                index < map.tile_content.len(),
                m <= map.tile_content[index as int]@.len(),
                company == map.tile_content[index as int]@,
                map.wf(),
                hidden.len() == names.len(),
                hidden.len() == old(hidden).len(),
                spec_content_in_range(map, names.len() as int),
                spec_hidden_named(hidden@, names@),
                forall|j: int|
                    0 <= j < seen@.len() ==> map.spec_in_bounds(
                        #[trigger] seen@[j].x as int,
                        seen@[j].y as int,
                    ),
                forall|o: int| 0 <= o < hidden.len() && #[trigger] hidden[o] ==> old(hidden)[o],
                forall|o: int|
                    0 <= o < hidden.len() && old(hidden)[o] && !#[trigger] hidden[o] ==> spec_in_view(
                        map,
                        seen@,
                        Entity { id: o as usize },
                    ),
                log.extends(old(log)),
                row.len() == m,
                forall|i: int| 0 <= i < row.len() ==> 0 <= #[trigger] row[i] <= SPOT_DIE,
                (hidden@, said) == spec_spot_tile(tile_start, names@, company, row, m as int),
                spec_log_grew_by(old(log), log, said),
            decreases map.tile_content[index as int]@.len() - m,
        {
            let occupant: Entity = map.tile_content[index][m];
            assert(occupant.id < names.len());
            let ghost hidden_before = hidden@;
            let ghost said_before = said;
            let ghost row_before = row;
            let ghost log_before = *log;
            let ghost mut noted: i32 = 0;
            if hidden[occupant.id] {
                let roll: i32 = roll_dice(rng, 1, SPOT_DIE);
                proof {
                    noted = roll;
                }
                glance(roll, occupant, hidden, names, log);
                proof {
                    if roll == SPOT_DIE {
                        assert(map.tile_content[index as int]@[m as int] == occupant);
                        assert(map.tile_content[map.spec_idx(seen@[k as int].x as int, seen@[k as int].y as int)]@.contains(
                            occupant,
                        ));
                        assert(spec_in_view(map, seen@, occupant));
                    }
                }
            }
            proof {
                row = row.push(noted);
                lemma_spot_tile_prefix(tile_start, names@, company, row_before, row, m as int);
                let step = spec_glanced(
                    (hidden_before, Seq::<Seq<char>>::empty()),
                    names@,
                    occupant,
                    noted as int,
                );
                said = said_before + step.1;
                assert(hidden@ == step.0);
                assert((hidden@, said) =~= spec_glanced((hidden_before, said_before), names@, occupant, noted as int));
                assert(company[m as int] == occupant);
                assert((hidden@, said) == spec_spot_tile(tile_start, names@, company, row, m + 1));
                assert(spec_log_grew_by(old(log), log, said)) by {
                    assert(spec_log_grew_by(&log_before, log, step.1));
                    assert forall|i: int| 0 <= i < said.len() implies spec_line_text(
                        (#[trigger] log.entries@[old(log).entries@.len() + i])@,
                    ) == said[i] by {
                        if i < said_before.len() {
                            assert(log.entries@[old(log).entries@.len() + i] == log_before.entries@[old(log).entries@.len() + i]);
                        } else {
                            assert(log.entries@[log_before.entries@.len() + (i - said_before.len())]
                                == log.entries@[old(log).entries@.len() + i]);
                        }
                    }
                }
            }
            m += 1;
        }
        proof {
            let rolls_before = rolls;
            rolls = rolls.push(row);
            lemma_spot_all_prefix(map, start, names@, seen@, rolls_before, rolls, k as int);
            assert(company == spec_occupants_at(map, seen@[k as int]));
            assert forall|j: int| 0 <= j < k + 1 implies (#[trigger] rolls[j]).len() == spec_occupants_at(
                map,
                seen@[j],
            ).len() by {
                if j < k {
                    assert(rolls[j] == rolls_before[j]);
                }
            }
            assert forall|j: int, i: int| 0 <= j < k + 1 && 0 <= i < rolls[j].len() implies 0 <= #[trigger] rolls[j][i]
                <= SPOT_DIE by {
                if j < k {
                    assert(rolls[j] == rolls_before[j]);
                }
            }
        }
        k += 1;
    }
    proof {
        assert(spec_spotted_with(map, seen@, names@, rolls, old(hidden)@, hidden@, old(log), log));
    }
}

/// A tile is among `seen` exactly when its coordinates are among the
/// points of `seen`.
pub proof fn lemma_seen_is_sight(map: &GameMap, seen: Seq<Position>, t: int)
    requires
        map.wf(),
        0 <= t < map.tiles.len(),
        forall|k: int| 0 <= k < seen.len() ==> map.spec_in_bounds(#[trigger] seen[k].x as int, seen[k].y as int),
    ensures
        spec_seen_before(seen, map.width as int, seen.len() as int, t) <==> spec_points(seen).to_set().contains(
            (t % (map.width as int), t / (map.width as int)),
        ),
{
    let w = map.width as int;
    let h = map.height as int;
    let pair = (t % w, t / w);
    lemma_xy_of_idx(t, w, h);
    if spec_seen_before(seen, w, seen.len() as int, t) {
        let j = choose|j: int| 0 <= j < seen.len() && j < seen.len() && (#[trigger] seen[j]).y * w + seen[j].x == t;
        lemma_idx_in_range(seen[j].x as int, seen[j].y as int, w, h);
        assert(spec_points(seen)[j] == pair);
        assert(spec_points(seen).contains(pair));
    }
    if spec_points(seen).to_set().contains(pair) {
        assert(spec_points(seen).contains(pair));
        let j = choose|j: int| 0 <= j < spec_points(seen).len() && spec_points(seen)[j] == pair;
        assert(seen[j].y * w + seen[j].x == t);
    }
}

/// A hidden entity `o` was uncovered by entity `e`: a player in whose
/// recomputed view `o` is listed as an occupant.
pub open spec fn spec_spotted_by(
    map: &GameMap,
    players: Seq<bool>,
    viewsheds: Seq<Option<Viewshed>>,
    e: int,
    o: Entity,
) -> bool {
    0 <= e < viewsheds.len() && e < players.len() && players[e] && (viewsheds[e] matches Some(v) && spec_in_view(
        map,
        v.visible_tiles@,
        o,
    ))
}

/// What looking over tiles makes of the markers depends on the map only
/// through the occupants that it lists.
pub proof fn lemma_spot_all_by_content(
    a: &GameMap,
    b: &GameMap,
    state: (Seq<bool>, Seq<Seq<char>>),
    names: Seq<Option<Name>>,
    seen: Seq<Position>,
    rolls: Seq<Seq<i32>>,
    k: int,
)
    requires
        a.tile_content@ == b.tile_content@,
        a.width == b.width,
    ensures
        spec_spot_all(a, state, names, seen, rolls, k) == spec_spot_all(b, state, names, seen, rolls, k),
    decreases k,
{
    if k > 0 {
        lemma_spot_all_by_content(a, b, state, names, seen, rolls, k - 1);
    }
}

/// Tiles that have been looked over on one map have been looked over on
/// every map that lists the same occupants.
pub proof fn lemma_spotted_by_content(
    a: &GameMap,
    b: &GameMap,
    seen: Seq<Position>,
    names: Seq<Option<Name>>,
    hidden_before: Seq<bool>,
    hidden_after: Seq<bool>,
    log_before: &Logbook,
    log_after: &Logbook,
)
    requires
        a.tile_content@ == b.tile_content@,
        a.width == b.width,
        spec_spotted(a, seen, names, hidden_before, hidden_after, log_before, log_after),
    ensures
        spec_spotted(b, seen, names, hidden_before, hidden_after, log_before, log_after),
{
    let rolls = choose|rolls: Seq<Seq<i32>>|
        #[trigger] spec_spotted_with(a, seen, names, rolls, hidden_before, hidden_after, log_before, log_after);
    lemma_spot_all_by_content(
        a,
        b,
        (hidden_before, Seq::<Seq<char>>::empty()),
        names,
        seen,
        rolls,
        seen.len() as int,
    );
    assert(spec_spot_rolls_ok(b, seen, rolls));
    assert(spec_spotted_with(b, seen, names, rolls, hidden_before, hidden_after, log_before, log_after));
}

/// Step `e` of a trail of hidden markers and logs: where entity `e` is a
/// player with a viewshed and a position, the tiles of its new view have
/// been looked over between `trail[e]` and `trail[e + 1]`; otherwise the
/// two are the same.
pub open spec fn spec_spot_step(
    map: &GameMap,
    players: Seq<bool>,
    viewsheds_before: Seq<Option<Viewshed>>,
    positions: Seq<Option<Position>>,
    viewsheds_after: Seq<Option<Viewshed>>,
    names: Seq<Option<Name>>,
    trail: Seq<(Seq<bool>, Logbook)>,
    e: int,
) -> bool {
    if players[e] && spec_watches(viewsheds_before, positions, e) {
        viewsheds_after[e] matches Some(v) && spec_spotted(
            map,
            v.visible_tiles@,
            names,
            trail[e].0,
            trail[e + 1].0,
            &trail[e].1,
            &trail[e + 1].1,
        )
    } else {
        trail[e + 1] == trail[e]
    }
}

/// `trail` leads from the markers and the log before the pass to those
/// after it, one step for each entity in the order of the identifiers.
pub open spec fn spec_spot_trail(
    trail: Seq<(Seq<bool>, Logbook)>,
    map: &GameMap,
    players: Seq<bool>,
    viewsheds_before: Seq<Option<Viewshed>>,
    positions: Seq<Option<Position>>,
    viewsheds_after: Seq<Option<Viewshed>>,
    names: Seq<Option<Name>>,
    hidden_before: Seq<bool>,
    log_before: &Logbook,
    hidden_after: Seq<bool>,
    log_after: &Logbook,
) -> bool {
    let n = players.len() as int;
    &&& trail.len() == n + 1
    &&& trail[0] == (hidden_before, *log_before)
    &&& trail[n] == (hidden_after, *log_after)
    &&& forall|e: int|
        0 <= e < n ==> #[trigger] spec_spot_step(
            map,
            players,
            viewsheds_before,
            positions,
            viewsheds_after,
            names,
            trail,
            e,
        )
}

/// Every player has looked over the tiles of its new view, one player
/// after the other in the order of the identifiers, with the die showing
/// what it may: the hidden markers and the lines added to the log are what
/// that has made of them.
pub open spec fn spec_all_spotted(
    map: &GameMap,
    players: Seq<bool>,
    viewsheds_before: Seq<Option<Viewshed>>,
    positions: Seq<Option<Position>>,
    viewsheds_after: Seq<Option<Viewshed>>,
    names: Seq<Option<Name>>,
    hidden_before: Seq<bool>,
    log_before: &Logbook,
    hidden_after: Seq<bool>,
    log_after: &Logbook,
) -> bool {
    exists|trail: Seq<(Seq<bool>, Logbook)>|
        #[trigger] spec_spot_trail(
            trail,
            map,
            players,
            viewsheds_before,
            positions,
            viewsheds_after,
            names,
            hidden_before,
            log_before,
            hidden_after,
            log_after,
        )
}

pub struct VisibilitySystem {}

impl VisibilitySystem {
    /// Recomputes the viewshed of every entity that has one and a position;
    /// its tiles are kept in the order of their tile indices. For a player,
    /// every tile in view is revealed for good, and the tiles are looked
    /// over in that order: every hidden occupant of such a tile is
    /// uncovered where a roll of the `SPOT_DIE` shows its highest face.
    ///
    /// The viewsheds and the revealed tiles are stated exactly, and so are
    /// the hidden markers and the lines added to the log, for what the die
    /// has shown (`spec_all_spotted`). Whatever the die gives: no marker is
    /// added, and one is removed only from an occupant of a tile in a
    /// player's view.
    pub fn run(
        &self,
        map: &mut GameMap,
        rng: &mut rltk::RandomNumberGenerator,
        players: &Flags,
        names: &Table<Name>,
        viewsheds: &mut Table<Viewshed>,
        positions: &Table<Position>,
        hidden: &mut Flags,
        log: &mut Logbook,
    )
        requires
            old(map).wf(),
            players.len() == names.len(),
            old(viewsheds).len() == names.len(),
            positions.len() == names.len(),
            old(hidden).len() == names.len(),
            spec_positions_on_map(positions@, old(map)),
            spec_viewsheds_valid(old(viewsheds)@),
            spec_content_in_range(old(map), names.len() as int),
            spec_hidden_named(old(hidden)@, names@),
        ensures
            final(map).wf(),
            final(map).same_terrain(old(map)),
            final(map).blocked_tiles@ == old(map).blocked_tiles@,
            final(map).tile_content@ == old(map).tile_content@,
            final(map).bloodstains@ == old(map).bloodstains@,
            final(map).keeps_revealed(old(map)),
            forall|t: int|
                0 <= t < final(map).revealed_tiles.len() ==> (#[trigger] final(map).revealed_tiles[t] <==> (old(map).revealed_tiles[t] || exists|e: int|
                    #[trigger] spec_player_sees(old(map), players@, old(viewsheds)@, positions@, e, t))),
            final(viewsheds).len() == old(viewsheds).len(),
            forall|e: int|
                0 <= e < old(viewsheds).len() ==> (if spec_watches(old(viewsheds)@, positions@, e) {
                    (#[trigger] final(viewsheds)[e]) matches Some(v) && spec_recomputed(
                        old(map),
                        positions[e].unwrap(),
                        old(viewsheds)[e].unwrap(),
                        v,
                    )
                } else {
                    final(viewsheds)[e] == old(viewsheds)[e]
                }),
            final(hidden).len() == old(hidden).len(),
            forall|o: int| 0 <= o < final(hidden).len() && #[trigger] final(hidden)[o] ==> old(hidden)[o],
            forall|o: int|
                0 <= o < final(hidden).len() && old(hidden)[o] && !#[trigger] final(hidden)[o] ==> exists|e: int|
                    #[trigger] spec_spotted_by(old(map), players@, final(viewsheds)@, e, Entity { id: o as usize }),
            final(log).extends(old(log)),
            spec_all_spotted(
                old(map),
                players@,
                old(viewsheds)@,
                positions@,
                final(viewsheds)@,
                names@,
                old(hidden)@,
                old(log),
                final(hidden)@,
                final(log),
            ),
    {
        let n: usize = names.len();
        let ghost w = map.width as int;
        let ghost mut trail: Seq<(Seq<bool>, Logbook)> = seq![(old(hidden)@, *old(log))];
        let mut i: usize = 0;
        while i < n
            invariant
                i <= n,
                n == names.len(),
                players.len() == n,
                viewsheds.len() == n,
                old(viewsheds).len() == n,
                positions.len() == n,
                hidden.len() == n,
                old(hidden).len() == n,
                w == map.width,
                map.wf(),
                old(map).wf(),
                map.same_terrain(old(map)),
                map.blocked_tiles@ == old(map).blocked_tiles@,
                map.tile_content@ == old(map).tile_content@,
                map.bloodstains@ == old(map).bloodstains@,
                spec_positions_on_map(positions@, map),
                spec_content_in_range(map, n as int),
                spec_hidden_named(hidden@, names@),
                forall|e: int| i <= e < n ==> #[trigger] viewsheds[e] == old(viewsheds)[e],
                spec_viewsheds_valid(old(viewsheds)@),
                forall|t: int|
                    0 <= t < map.revealed_tiles.len() ==> (#[trigger] map.revealed_tiles[t] <==> (old(map).revealed_tiles[t] || exists|e: int|
                        e < i && #[trigger] spec_player_sees(
                            old(map),
                            players@,
                            old(viewsheds)@,
                            positions@,
                            e,
                            t,
                        ))),
                forall|e: int|
                    0 <= e < i ==> (if spec_watches(old(viewsheds)@, positions@, e) {
                        (#[trigger] viewsheds[e]) matches Some(v) && spec_recomputed(
                            old(map),
                            positions[e].unwrap(),
                            old(viewsheds)[e].unwrap(),
                            v,
                        )
                    } else {
                        viewsheds[e] == old(viewsheds)[e]
                    }),
                forall|o: int| 0 <= o < n && #[trigger] hidden[o] ==> old(hidden)[o],
                forall|o: int|
                    0 <= o < n && old(hidden)[o] && !#[trigger] hidden[o] ==> exists|e: int|
                        e < i && #[trigger] spec_spotted_by(
                            old(map),
                            players@,
                            viewsheds@,
                            e,
                            Entity { id: o as usize },
                        ),
                log.extends(old(log)),
                trail.len() == i + 1,
                trail[0] == (old(hidden)@, *old(log)),
                trail[i as int] == (hidden@, *log),
                forall|e: int|
                    0 <= e < i ==> #[trigger] spec_spot_step(
                        old(map),
                        players@,
                        old(viewsheds)@,
                        positions@,
                        viewsheds@,
                        names@,
                        trail,
                        e,
                    ),
            decreases n - i,
        {
            let ghost trail_before = trail;
            let ghost log_before = *log;
            let ghost revealed_before = map.revealed_tiles@;
            let ghost hidden_before = hidden@;
            let ghost viewsheds_before = viewsheds@;
            let range: Option<i32> = match &viewsheds[i] {
                Some(v) => Some(v.range),
                None => None,
            };
            match (range, positions[i]) {
                (Some(range), Some(p)) => {
                    assert(spec_watches(old(viewsheds)@, positions@, i as int));
                    assert(old(viewsheds)[i as int].unwrap().range == range);
                    let found: Vec<Position> = field_of_view(map, p.x, p.y, range);
                    let seen: Vec<Position> = in_tile_order(map, &found);
                    assert(spec_sight(map, p, range as int) == spec_sight(old(map), p, range as int));
                    proof {
                        assert forall|k: int| 0 <= k < seen@.len() implies spec_in_reach(
                            p.x as int,
                            p.y as int,
                            range as int,
                            (#[trigger] seen@[k]).x as int,
                            seen@[k].y as int,
                        ) by {
                            assert(seen@.contains(seen@[k]));
                            let j = choose|j: int| 0 <= j < found@.len() && found@[j] == seen@[k];
                            assert(found@[j].x == seen@[k].x);
                        }
                        assert(found@.contains(p));
                    }
                    if players[i] {
                        reveal_tiles(map, &seen);
                        spot_hidden(map, &seen, hidden, names, rng, log);
                        proof {
                            lemma_spotted_by_content(
                                map,
                                old(map),
                                seen@,
                                names@,
                                hidden_before,
                                hidden@,
                                &log_before,
                                log,
                            );
                        }
                    }
                    let ghost seen_tiles = seen@;
                    viewsheds.set(i, Some(Viewshed { visible_tiles: seen, range }));
                    proof {
                        assert forall|t: int| 0 <= t < map.revealed_tiles.len() implies (
                        #[trigger] map.revealed_tiles[t] <==> (old(map).revealed_tiles[t] || exists|e: int|
                            e < i + 1 && #[trigger] spec_player_sees(
                                old(map),
                                players@,
                                old(viewsheds)@,
                                positions@,
                                e,
                                t,
                            ))) by {
                            lemma_seen_is_sight(old(map), seen_tiles, t);
                            if revealed_before[t] && !old(map).revealed_tiles[t] {
                                let e = choose|e: int|
                                    e < i && #[trigger] spec_player_sees(
                                        old(map),
                                        players@,
                                        old(viewsheds)@,
                                        positions@,
                                        e,
                                        t,
                                    );
                                assert(e < i + 1 && spec_player_sees(
                                    old(map),
                                    players@,
                                    old(viewsheds)@,
                                    positions@,
                                    e,
                                    t,
                                ));
                            }
                            if map.revealed_tiles[t] && !revealed_before[t] {
                                assert(spec_player_sees(
                                    old(map),
                                    players@,
                                    old(viewsheds)@,
                                    positions@,
                                    i as int,
                                    t,
                                ));
                            }
                            if !map.revealed_tiles[t] {
                                assert forall|e: int| e < i + 1 implies !#[trigger] spec_player_sees(
                                    old(map),
                                    players@,
                                    old(viewsheds)@,
                                    positions@,
                                    e,
                                    t,
                                ) by {
                                    if e < i {
                                    }
                                }
                            }
                        }
                        assert forall|o: int|
                            0 <= o < n && old(hidden)[o] && !#[trigger] hidden[o] implies exists|e: int|
                            e < i + 1 && #[trigger] spec_spotted_by(
                                old(map),
                                players@,
                                viewsheds@,
                                e,
                                Entity { id: o as usize },
                            ) by {
                            let who = Entity { id: o as usize };
                            if hidden_before[o] {
                                assert(spec_in_view(map, seen_tiles, who));
                                let k = choose|k: int|
                                    0 <= k < seen_tiles.len() && map.spec_in_bounds(
                                        seen_tiles[k].x as int,
                                        seen_tiles[k].y as int,
                                    ) && (#[trigger] map.tile_content[map.spec_idx(
                                        seen_tiles[k].x as int,
                                        seen_tiles[k].y as int,
                                    )])@.contains(who);
                                assert(old(map).tile_content[old(map).spec_idx(
                                    seen_tiles[k].x as int,
                                    seen_tiles[k].y as int,
                                )]@.contains(who));
                                assert(spec_in_view(old(map), seen_tiles, who));
                                assert(spec_spotted_by(old(map), players@, viewsheds@, i as int, who));
                            } else {
                                let e = choose|e: int|
                                    e < i && #[trigger] spec_spotted_by(
                                        old(map),
                                        players@,
                                        viewsheds_before,
                                        e,
                                        who,
                                    );
                                assert(viewsheds@[e] == viewsheds_before[e]);
                                assert(spec_spotted_by(old(map), players@, viewsheds@, e, who));
                            }
                        }
                    }
                },
                _ => {
                    proof {
                        assert(!spec_watches(old(viewsheds)@, positions@, i as int));
                        assert forall|t: int| 0 <= t < map.revealed_tiles.len() implies (
                        #[trigger] map.revealed_tiles[t] <==> (old(map).revealed_tiles[t] || exists|e: int|
                            e < i + 1 && #[trigger] spec_player_sees(
                                old(map),
                                players@,
                                old(viewsheds)@,
                                positions@,
                                e,
                                t,
                            ))) by {
                            if map.revealed_tiles[t] && !old(map).revealed_tiles[t] {
                                let e = choose|e: int|
                                    e < i && #[trigger] spec_player_sees(
                                        old(map),
                                        players@,
                                        old(viewsheds)@,
                                        positions@,
                                        e,
                                        t,
                                    );
                                assert(e < i + 1 && spec_player_sees(
                                    old(map),
                                    players@,
                                    old(viewsheds)@,
                                    positions@,
                                    e,
                                    t,
                                ));
                            }
                            if !map.revealed_tiles[t] {
                                assert forall|e: int| e < i + 1 implies !#[trigger] spec_player_sees(
                                    old(map),
                                    players@,
                                    old(viewsheds)@,
                                    positions@,
                                    e,
                                    t,
                                ) by {
                                    if e < i {
                                    }
                                }
                            }
                        }
                        assert forall|o: int|
                            0 <= o < n && old(hidden)[o] && !#[trigger] hidden[o] implies exists|e: int|
                            e < i + 1 && #[trigger] spec_spotted_by(
                                old(map),
                                players@,
                                viewsheds@,
                                e,
                                Entity { id: o as usize },
                            ) by {
                            let who = Entity { id: o as usize };
                            let e = choose|e: int|
                                e < i && #[trigger] spec_spotted_by(old(map), players@, viewsheds@, e, who);
                            assert(e < i + 1 && spec_spotted_by(old(map), players@, viewsheds@, e, who));
                        }
                    }
                },
            }
            proof {
                trail = trail.push((hidden@, *log));
                assert forall|e: int| 0 <= e < i + 1 implies #[trigger] spec_spot_step(
                    old(map),
                    players@,
                    old(viewsheds)@,
                    positions@,
                    viewsheds@,
                    names@,
                    trail,
                    e,
                ) by {
                    if e < i {
                        assert(spec_spot_step(
                            old(map),
                            players@,
                            old(viewsheds)@,
                            positions@,
                            viewsheds_before,
                            names@,
                            trail_before,
                            e,
                        ));
                        assert(trail[e] == trail_before[e]);
                        assert(trail[e + 1] == trail_before[e + 1]);
                        assert(viewsheds@[e] == viewsheds_before[e]);
                    } else {
                        assert(trail[e] == (hidden_before, log_before));
                        assert(trail[e + 1] == (hidden@, *log));
                    }
                }
            }
            i += 1;
        }
        proof {
            assert(spec_spot_trail(
                trail,
                old(map),
                players@,
                old(viewsheds)@,
                positions@,
                viewsheds@,
                names@,
                old(hidden)@,
                old(log),
                hidden@,
                log,
            ));
            assert forall|t: int| 0 <= t < map.revealed_tiles.len() implies (#[trigger] map.revealed_tiles[t]
                <==> (old(map).revealed_tiles[t] || exists|e: int|
                #[trigger] spec_player_sees(old(map), players@, old(viewsheds)@, positions@, e, t))) by {
                if exists|e: int|
                    #[trigger] spec_player_sees(old(map), players@, old(viewsheds)@, positions@, e, t) {
                    let e = choose|e: int|
                        #[trigger] spec_player_sees(old(map), players@, old(viewsheds)@, positions@, e, t);
                    assert(e < i);
                }
            }
            assert(map.keeps_revealed(old(map)));
        }
    }
}

} // verus!
