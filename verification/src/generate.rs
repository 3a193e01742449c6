//! Procedural floors: rooms that never overlap, joined by L-shaped
//! corridors, with stairs and debris stamped on afterwards.

use crate::geometry::{lemma_common_point_intersects, Position, Rect};
use crate::map::{
    lemma_carved_monotone, lemma_idx_in_range, lemma_xy_of_idx, spec_carve_horizontal, spec_carve_room,
    spec_carved, spec_link_covers, spec_on_corridor, spec_room_covers, spec_rooms_disjoint, GameMap, MapOptions,
    TileType, MAX_DEBRIS, MAX_HEIGHT, MAX_ROOMS, MAX_SIZE, MAX_WIDTH, MIN_SIZE,
};
use crate::random::{range, roll_dice};
use vstd::prelude::*;

verus! {

/// A room as the generator proposes it: at least `MIN_SIZE` wide and high,
/// with its far corner at least one tile inside the map's last column and row.
pub open spec fn spec_room_ok(room: Rect, width: int, height: int) -> bool {
    &&& 0 <= room.x1
    &&& room.x1 + MIN_SIZE <= room.x2 <= width - 2
    &&& 0 <= room.y1
    &&& room.y1 + MIN_SIZE <= room.y2 <= height - 2
}

pub open spec fn spec_rooms_ok(rooms: Seq<Rect>, width: int, height: int) -> bool {
    forall|k: int| 0 <= k < rooms.len() ==> spec_room_ok(#[trigger] rooms[k], width, height)
}

/// Index of the tile in the middle of `room` on a grid `width` wide.
pub open spec fn spec_center_idx(room: Rect, width: int) -> int {
    room.spec_center_y() * width + room.spec_center_x()
}

/// Tiles once `room` has been accepted after `rooms`: its floor carved, and,
/// unless it is the first room, the corridor from the last room's centre to
/// its own.
pub open spec fn spec_add_room(
    tiles: Seq<TileType>,
    width: int,
    rooms: Seq<Rect>,
    room: Rect,
    horizontal_first: bool,
) -> Seq<TileType> {
    Seq::new(
        tiles.len(),
        |i: int|
            if room.spec_interior(i % width, i / width) || (rooms.len() > 0 && i > 0 && spec_on_corridor(
                rooms.last(),
                room,
                horizontal_first,
                i % width,
                i / width,
            )) {
                TileType::Floor
            } else {
                tiles[i]
            },
    )
}

/// No tile is revealed, blocked, occupied or stained.
pub open spec fn spec_pristine(map: &GameMap) -> bool {
    &&& forall|i: int| 0 <= i < map.revealed_tiles.len() ==> !#[trigger] map.revealed_tiles[i]
    &&& forall|i: int| 0 <= i < map.blocked_tiles.len() ==> !#[trigger] map.blocked_tiles[i]
    &&& map.bloodstains@ == Set::<usize>::empty()
    &&& forall|i: int| 0 <= i < map.tile_content.len() ==> (#[trigger] map.tile_content[i])@.len() == 0
}

/// No tile of the corridor from the centre of `a` to the centre of `b` is
/// wall, the first leg taken as `horizontal_first` says.
pub open spec fn spec_corridor_open(
    tiles: Seq<TileType>,
    width: int,
    a: Rect,
    b: Rect,
    horizontal_first: bool,
) -> bool {
    forall|i: int|
        0 <= i < tiles.len() && spec_on_corridor(a, b, horizontal_first, i % width, i / width)
            ==> #[trigger] tiles[i] != TileType::Wall
}

/// Room `k` is joined to the room accepted before it: one of the two
/// corridors between their centres is open from end to end.
pub open spec fn spec_linked(tiles: Seq<TileType>, rooms: Seq<Rect>, width: int, k: int) -> bool {
    spec_corridor_open(tiles, width, rooms[k - 1], rooms[k], true) || spec_corridor_open(
        tiles,
        width,
        rooms[k - 1],
        rooms[k],
        false,
    )
}

/// Every tile that is not wall lies in a room or on a corridor between two
/// consecutive rooms, no tile of a room's floor is wall, and every room but
/// the first is joined to the room before it.
pub open spec fn spec_floor_plan(tiles: Seq<TileType>, rooms: Seq<Rect>, width: int) -> bool {
    &&& forall|i: int|
        0 <= i < tiles.len() && #[trigger] tiles[i] != TileType::Wall ==> spec_carved(
            rooms,
            i % width,
            i / width,
        )
    &&& forall|i: int, k: int|
        0 <= i < tiles.len() && #[trigger] spec_room_covers(rooms, k, i % width, i / width)
            ==> tiles[i] != TileType::Wall
    &&& forall|k: int| 0 < k < rooms.len() ==> #[trigger] spec_linked(tiles, rooms, width, k)
}

/// Tiles that only ever turn from wall into something else keep every
/// corridor open that was open.
pub proof fn lemma_corridor_stays_open(
    before: Seq<TileType>,
    after: Seq<TileType>,
    width: int,
    a: Rect,
    b: Rect,
    horizontal_first: bool,
)
    requires
        before.len() == after.len(),
        forall|i: int| 0 <= i < before.len() && #[trigger] before[i] != TileType::Wall ==> after[i] != TileType::Wall,
        spec_corridor_open(before, width, a, b, horizontal_first),
    ensures
        spec_corridor_open(after, width, a, b, horizontal_first),
{
    assert forall|i: int|
        0 <= i < after.len() && spec_on_corridor(a, b, horizontal_first, i % width, i / width) implies #[trigger] after[i]
        != TileType::Wall by {
        assert(before[i] != TileType::Wall);
    }
}

/// Tiles that only ever turn from wall into something else keep the floor
/// plan's rooms open and joined.
pub proof fn lemma_links_stay(before: Seq<TileType>, after: Seq<TileType>, rooms: Seq<Rect>, width: int)
    requires
        before.len() == after.len(),
        forall|i: int| 0 <= i < before.len() && #[trigger] before[i] != TileType::Wall ==> after[i] != TileType::Wall,
        forall|k: int| 0 < k < rooms.len() ==> #[trigger] spec_linked(before, rooms, width, k),
    ensures
        forall|k: int| 0 < k < rooms.len() ==> #[trigger] spec_linked(after, rooms, width, k),
{
    assert forall|k: int| 0 < k < rooms.len() implies #[trigger] spec_linked(after, rooms, width, k) by {
        assert(spec_linked(before, rooms, width, k));
        if spec_corridor_open(before, width, rooms[k - 1], rooms[k], true) {
            lemma_corridor_stays_open(before, after, width, rooms[k - 1], rooms[k], true);
        } else {
            lemma_corridor_stays_open(before, after, width, rooms[k - 1], rooms[k], false);
        }
    }
}

/// Index of the tile that holds the up-staircase: the first room's centre,
/// or, where a down-staircase is asked for and the last room's centre is
/// that same tile, the tile to the left of it, which is floor of the first
/// room too.
pub open spec fn spec_up_idx(rooms: Seq<Rect>, width: int, options: MapOptions) -> int {
    let first = spec_center_idx(rooms[0], width);
    if options.has_downstairs && first == spec_center_idx(rooms[rooms.len() - 1], width) {
        first - 1
    } else {
        first
    }
}

/// What holds of every floor the generator returns, whatever was drawn.
pub open spec fn spec_generated(map: &GameMap, options: MapOptions) -> bool {
    let w = options.width as int;
    let first = spec_center_idx(map.rooms[0], w);
    let last = spec_center_idx(map.rooms[map.rooms.len() - 1], w);
    let up = spec_up_idx(map.rooms@, w, options);
    &&& map.wf()
    &&& map.width == options.width
    &&& map.height == options.height
    &&& map.index == options.index
    &&& 1 <= map.rooms.len() <= MAX_ROOMS
    &&& spec_rooms_ok(map.rooms@, w, options.height as int)
    &&& spec_rooms_disjoint(map.rooms@)
    &&& map.player_spawn_index == Some(first as usize)
    &&& 0 <= first < map.tiles.len()
    &&& 0 <= last < map.tiles.len()
    &&& 0 <= up < map.tiles.len()
    &&& options.has_downstairs ==> up != last
    &&& map.rooms.len() > 1 ==> up == first
    &&& map.rooms[0].spec_interior(up % w, up / w)
    &&& forall|i: int|
        0 <= i < map.tiles.len() ==> (#[trigger] map.tiles[i] == TileType::DownStairs <==> (
        options.has_downstairs && i == last))
    &&& forall|i: int|
        0 <= i < map.tiles.len() ==> (#[trigger] map.tiles[i] == TileType::UpStairs <==> (options.has_upstairs
            && i == up))
    &&& forall|i: int|
        0 <= i < map.tiles.len() && #[trigger] map.tiles[i] == TileType::Debris ==> options.has_debris
    &&& spec_floor_plan(map.tiles@, map.rooms@, w)
    &&& spec_pristine(map)
}

/// What the random source gave for one proposed room: its size, its
/// corner, and, where the room was accepted after another, whether its
/// corridor runs along the row first.
#[derive(Clone, Copy, Debug, PartialEq, Eq, Structural)]
pub struct RoomDraw {
    pub w: i32,
    pub h: i32,
    pub x: i32,
    pub y: i32,
    pub horizontal_first: bool,
}

/// Everything that the random source gave for one floor: a draw for each
/// proposed room, and for each accepted room the places where debris was
/// dropped, in the order in which they were drawn.
pub struct FloorDraws {
    pub rooms: Seq<RoomDraw>,
    pub debris: Seq<Seq<Position>>,
}

/// The size and the corner are such as the generator draws them for a map
/// of the given size.
pub open spec fn spec_draw_ok(d: RoomDraw, width: int, height: int) -> bool {
    &&& MIN_SIZE <= d.w < MAX_SIZE
    &&& MIN_SIZE <= d.h < MAX_SIZE
    &&& 0 <= d.x <= width - d.w - 2
    &&& 0 <= d.y <= height - d.h - 2
}

/// The room that a draw proposes.
pub open spec fn spec_drawn_room(d: RoomDraw) -> Rect {
    Rect { x1: d.x, x2: (d.x + d.w) as i32, y1: d.y, y2: (d.y + d.h) as i32 }
}

/// `room` touches none of the rooms.
pub open spec fn spec_accepts(rooms: Seq<Rect>, room: Rect) -> bool {
    forall|k: int| 0 <= k < rooms.len() ==> !room.spec_intersect(#[trigger] rooms[k])
}

/// The tiles and the rooms after the first `n` proposals: each proposal
/// that touches no room accepted before it is carved, joined and recorded;
/// every other proposal leaves no trace.
pub open spec fn spec_rooms_built(width: int, height: int, draws: Seq<RoomDraw>, n: int) -> (
    Seq<TileType>,
    Seq<Rect>,
)
    decreases n,
{
    if n <= 0 {
        (Seq::new((width * height) as nat, |i: int| TileType::Wall), Seq::empty())
    } else {
        let before = spec_rooms_built(width, height, draws, n - 1);
        let room = spec_drawn_room(draws[n - 1]);
        if spec_accepts(before.1, room) {
            (
                spec_add_room(before.0, width, before.1, room, draws[n - 1].horizontal_first),
                before.1.push(room),
            )
        } else {
            before
        }
    }
}

/// A draw for the corridor is made only for a room that is accepted after
/// another: every other draw says `false`.
pub open spec fn spec_coin_ok(width: int, height: int, draws: Seq<RoomDraw>, n: int) -> bool {
    let before = spec_rooms_built(width, height, draws, n);
    draws[n].horizontal_first ==> before.1.len() > 0 && spec_accepts(before.1, spec_drawn_room(draws[n]))
}

/// The tiles once the stairs that `options` asks for have been stamped:
/// the way down at the last room's centre, and the way up at the tile that
/// `spec_up_idx` names, which is never the same tile.
pub open spec fn spec_stairs_placed(tiles: Seq<TileType>, rooms: Seq<Rect>, width: int, options: MapOptions) -> Seq<
    TileType,
> {
    Seq::new(
        tiles.len(),
        |i: int|
            if options.has_downstairs && i == spec_center_idx(rooms[rooms.len() - 1], width) {
                TileType::DownStairs
            } else if options.has_upstairs && i == spec_up_idx(rooms, width, options) {
                TileType::UpStairs
            } else {
                tiles[i]
            },
    )
}

/// The tiles once a piece of debris has been dropped at `at`: it stays
/// only where it lands on plain floor.
pub open spec fn spec_debris_dropped(tiles: Seq<TileType>, width: int, at: Position) -> Seq<TileType> {
    let i = at.y * width + at.x;
    if 0 <= i < tiles.len() && tiles[i] == TileType::Floor {
        tiles.update(i, TileType::Debris)
    } else {
        tiles
    }
}

/// The tiles once the first `m` of the pieces have been dropped.
pub open spec fn spec_debris_in_room(tiles: Seq<TileType>, width: int, pieces: Seq<Position>, m: int) -> Seq<
    TileType,
>
    decreases m,
{
    if m <= 0 {
        tiles
    } else {
        spec_debris_dropped(spec_debris_in_room(tiles, width, pieces, m - 1), width, pieces[m - 1])
    }
}

/// The tiles once the pieces of the first `k` rooms have been dropped.
pub open spec fn spec_debris_scattered(tiles: Seq<TileType>, width: int, debris: Seq<Seq<Position>>, k: int) -> Seq<
    TileType,
>
    decreases k,
{
    if k <= 0 {
        tiles
    } else {
        spec_debris_in_room(
            spec_debris_scattered(tiles, width, debris, k - 1),
            width,
            debris[k - 1],
            debris[k - 1].len() as int,
        )
    }
}

/// For each room at most `MAX_DEBRIS` pieces were drawn, each on a tile of
/// the room's floor.
pub open spec fn spec_debris_ok(rooms: Seq<Rect>, debris: Seq<Seq<Position>>) -> bool {
    &&& debris.len() == rooms.len()
    &&& forall|k: int| 0 <= k < rooms.len() ==> (#[trigger] debris[k]).len() <= MAX_DEBRIS
    &&& forall|k: int, j: int|
        0 <= k < rooms.len() && 0 <= j < debris[k].len() ==> rooms[k].spec_interior(
            (#[trigger] debris[k][j]).x as int,
            debris[k][j].y as int,
        )
}

/// The draws are such as the generator makes them for `options`.
pub open spec fn spec_draws_ok(options: MapOptions, draws: FloorDraws) -> bool {
    let w = options.width as int;
    let h = options.height as int;
    &&& draws.rooms.len() == MAX_ROOMS
    &&& forall|n: int| 0 <= n < draws.rooms.len() ==> spec_draw_ok(#[trigger] draws.rooms[n], w, h)
    &&& forall|n: int| 0 <= n < draws.rooms.len() ==> #[trigger] spec_coin_ok(w, h, draws.rooms, n)
    &&& if options.has_debris {
        spec_debris_ok(spec_rooms_built(w, h, draws.rooms, MAX_ROOMS as int).1, draws.debris)
    } else {
        draws.debris.len() == 0
    }
}

/// The tiles and the rooms of the floor that the draws give for `options`.
pub open spec fn spec_floor_built(options: MapOptions, draws: FloorDraws) -> (Seq<TileType>, Seq<Rect>) {
    let w = options.width as int;
    let built = spec_rooms_built(w, options.height as int, draws.rooms, MAX_ROOMS as int);
    let stairs = spec_stairs_placed(built.0, built.1, w, options);
    if options.has_debris {
        (spec_debris_scattered(stairs, w, draws.debris, built.1.len() as int), built.1)
    } else {
        (stairs, built.1)
    }
}

/// The map is the floor that the draws give for `options`.
pub open spec fn spec_built_from(map: &GameMap, options: MapOptions, draws: FloorDraws) -> bool {
    &&& spec_draws_ok(options, draws)
    &&& map.tiles@ == spec_floor_built(options, draws).0
    &&& map.rooms@ == spec_floor_built(options, draws).1
}

/// The map is a floor that the generator can make for `options`: the floor
/// that some draws of the random source give.
pub open spec fn spec_generated_exactly(map: &GameMap, options: MapOptions) -> bool {
    exists|draws: FloorDraws| #[trigger] spec_built_from(map, options, draws)
}

/// The debris on `after` is `before` with, for each room, some pieces
/// dropped on its floor.
pub open spec fn spec_debris_result(before: Seq<TileType>, after: Seq<TileType>, rooms: Seq<Rect>, width: int) -> bool {
    exists|debris: Seq<Seq<Position>>|
        spec_debris_ok(rooms, debris) && after == #[trigger] spec_debris_scattered(
            before,
            width,
            debris,
            rooms.len() as int,
        )
}

/// What the first `n` proposals build does not depend on the draws after
/// them.
pub proof fn lemma_rooms_built_prefix(width: int, height: int, a: Seq<RoomDraw>, b: Seq<RoomDraw>, n: int)
    requires
        0 <= n <= a.len(),
        n <= b.len(),
        forall|i: int| 0 <= i < n ==> a[i] == b[i],
    ensures
        spec_rooms_built(width, height, a, n) == spec_rooms_built(width, height, b, n),
    decreases n,
{
    if n > 0 {
        lemma_rooms_built_prefix(width, height, a, b, n - 1);
    }
}

/// What the first `m` pieces leave on the tiles does not depend on the
/// pieces after them.
pub proof fn lemma_debris_in_room_prefix(tiles: Seq<TileType>, width: int, a: Seq<Position>, b: Seq<Position>, m: int)
    requires
        0 <= m <= a.len(),
        m <= b.len(),
        forall|i: int| 0 <= i < m ==> a[i] == b[i],
    ensures
        spec_debris_in_room(tiles, width, a, m) == spec_debris_in_room(tiles, width, b, m),
    decreases m,
{
    if m > 0 {
        lemma_debris_in_room_prefix(tiles, width, a, b, m - 1);
    }
}

/// What the pieces of the first `k` rooms leave on the tiles does not
/// depend on the rooms after them.
pub proof fn lemma_debris_scattered_prefix(
    tiles: Seq<TileType>,
    width: int,
    a: Seq<Seq<Position>>,
    b: Seq<Seq<Position>>,
    k: int,
)
    requires
        0 <= k <= a.len(),
        k <= b.len(),
        forall|i: int| 0 <= i < k ==> a[i] == b[i],
    ensures
        spec_debris_scattered(tiles, width, a, k) == spec_debris_scattered(tiles, width, b, k),
    decreases k,
{
    if k > 0 {
        lemma_debris_scattered_prefix(tiles, width, a, b, k - 1);
    }
}

/// Generation is a function of the options and of what the random source
/// gives: two floors built from the same draws are the same floor.
pub proof fn lemma_generation_is_deterministic(a: &GameMap, b: &GameMap, options: MapOptions, draws: FloorDraws)
    requires
        spec_generated(a, options),
        spec_generated(b, options),
        spec_built_from(a, options, draws),
        spec_built_from(b, options, draws),
    ensures
        a.tiles@ == b.tiles@,
        a.rooms@ == b.rooms@,
        a.player_spawn_index == b.player_spawn_index,
        a.spec_equal(b),
{
    assert(a.revealed_tiles@ =~= b.revealed_tiles@);
    assert(a.blocked_tiles@ =~= b.blocked_tiles@);
    assert(a.bloodstains@ =~= b.bloodstains@);
    assert forall|i: int| 0 <= i < a.tile_content.len() implies (#[trigger] a.tile_content[i])@ == b.tile_content[i]@ by {
        assert(a.tile_content[i]@.len() == 0);
        assert(b.tile_content[i]@.len() == 0);
        assert(a.tile_content[i]@ =~= b.tile_content[i]@);
    }
}

impl GameMap {
    /// Accepts `room`: carves its floor, joins it to the room accepted
    /// before it, if any, and records it.
    pub fn add_room(&mut self, room: Rect, horizontal_first: bool)
        requires
            old(self).wf(),
            spec_room_ok(room, old(self).width as int, old(self).height as int),
            spec_rooms_ok(old(self).rooms@, old(self).width as int, old(self).height as int),
        ensures
            final(self).wf(),
            final(self).rooms@ == old(self).rooms@.push(room),
            final(self).tiles@ == spec_add_room(
                old(self).tiles@,
                old(self).width as int,
                old(self).rooms@,
                room,
                horizontal_first,
            ),
            final(self).tile_content@ == old(self).tile_content@,
            final(self).revealed_tiles@ == old(self).revealed_tiles@,
            final(self).blocked_tiles@ == old(self).blocked_tiles@,
            final(self).bloodstains@ == old(self).bloodstains@,
            final(self).width == old(self).width,
            final(self).height == old(self).height,
            final(self).index == old(self).index,
            final(self).player_spawn_index == old(self).player_spawn_index,
    {
        let ghost w = self.width as int;
        self.apply_room_to_map(&room);
        if self.rooms.len() > 0 {
            let (new_x, new_y) = room.center();
            let prev: Rect = self.rooms[self.rooms.len() - 1];
            assert(spec_room_ok(prev, w, self.height as int));
            let (prev_x, prev_y) = prev.center();
            if horizontal_first {
                self.apply_horizontal_tunnel(prev_x, new_x, prev_y);
                self.apply_vertical_tunnel(prev_y, new_y, new_x);
            } else {
                self.apply_vertical_tunnel(prev_y, new_y, prev_x);
                self.apply_horizontal_tunnel(prev_x, new_x, new_y);
            }
        }
        self.rooms.push(room);
        assert(self.tiles@ =~= spec_add_room(
            old(self).tiles@,
            w,
            old(self).rooms@,
            room,
            horizontal_first,
        ));
    }
}

/// Accepting a room keeps the floor plan: what is carved is covered by the
/// rooms and corridors, and every room's floor is open.
pub proof fn lemma_room_added(
    tiles: Seq<TileType>,
    width: int,
    rooms: Seq<Rect>,
    room: Rect,
    horizontal_first: bool,
)
    requires
        0 < width,
        spec_floor_plan(tiles, rooms, width),
        forall|k: int| 0 <= k < rooms.len() ==> 0 < (#[trigger] rooms[k]).spec_center_x() < width,
        0 < room.spec_center_x() < width,
        forall|i: int|
            0 <= i < tiles.len() ==> #[trigger] tiles[i] == TileType::Wall || tiles[i] == TileType::Floor,
    ensures
        spec_floor_plan(
            spec_add_room(tiles, width, rooms, room, horizontal_first),
            rooms.push(room),
            width,
        ),
        forall|i: int|
            0 <= i < tiles.len() ==> #[trigger] spec_add_room(
                tiles,
                width,
                rooms,
                room,
                horizontal_first,
            )[i] == TileType::Wall || spec_add_room(tiles, width, rooms, room, horizontal_first)[i]
                == TileType::Floor,
{
    let after = spec_add_room(tiles, width, rooms, room, horizontal_first);
    let more = rooms.push(room);
    let n = rooms.len() as int;
    assert forall|i: int| 0 <= i < after.len() && #[trigger] after[i] != TileType::Wall implies spec_carved(
        more,
        i % width,
        i / width,
    ) by {
        let x = i % width;
        let y = i / width;
        if room.spec_interior(x, y) {
            assert(spec_room_covers(more, n, x, y));
        } else if rooms.len() > 0 && i > 0 && spec_on_corridor(rooms.last(), room, horizontal_first, x, y) {
            assert(more[n - 1] == rooms.last());
            assert(spec_link_covers(more, n, x, y));
        } else {
            assert(after[i] == tiles[i]);
            lemma_carved_monotone(rooms, room, x, y);
        }
    }
    assert forall|i: int, k: int|
        0 <= i < after.len() && #[trigger] spec_room_covers(more, k, i % width, i / width) implies after[i]
        != TileType::Wall by {
        if k < n {
            assert(more[k] == rooms[k]);
            assert(spec_room_covers(rooms, k, i % width, i / width));
        }
    }
    assert forall|k: int| 0 < k < more.len() implies #[trigger] spec_linked(after, more, width, k) by {
        assert(more[k - 1] == rooms[k - 1]);
        if k < n {
            assert(more[k] == rooms[k]);
            assert(spec_linked(tiles, rooms, width, k));
            if spec_corridor_open(tiles, width, rooms[k - 1], rooms[k], true) {
                lemma_corridor_stays_open(tiles, after, width, rooms[k - 1], rooms[k], true);
            } else {
                lemma_corridor_stays_open(tiles, after, width, rooms[k - 1], rooms[k], false);
            }
        } else {
            assert(more[k] == room);
            assert(rooms.last() == rooms[n - 1]);
            assert forall|i: int|
                0 <= i < after.len() && spec_on_corridor(
                    rooms[n - 1],
                    room,
                    horizontal_first,
                    i % width,
                    i / width,
                ) implies #[trigger] after[i] != TileType::Wall by {
                assert(0 < rooms[n - 1].spec_center_x() < width);
                assert(i % width > 0);
                assert(i > 0) by {
                    if i == 0 {
                        assert(0int % width == 0);
                    }
                }
            }
            assert(spec_corridor_open(after, width, rooms[n - 1], room, horizontal_first));
        }
    }
}

/// The centres of two different rooms of a disjoint list are different
/// tiles.
pub proof fn lemma_centers_differ(rooms: Seq<Rect>, width: int, height: int, a: int, b: int)
    requires
        0 < width,
        0 < height,
        0 <= a < b < rooms.len(),
        spec_rooms_ok(rooms, width, height),
        spec_rooms_disjoint(rooms),
    ensures
        spec_center_idx(rooms[a], width) != spec_center_idx(rooms[b], width),
{
    let ra = rooms[a];
    let rb = rooms[b];
    lemma_idx_in_range(ra.spec_center_x(), ra.spec_center_y(), width, height);
    lemma_idx_in_range(rb.spec_center_x(), rb.spec_center_y(), width, height);
    if spec_center_idx(ra, width) == spec_center_idx(rb, width) {
        lemma_common_point_intersects(ra, rb, ra.spec_center_x(), ra.spec_center_y());
    }
}

/// The centre of a proposed room is an in-bounds tile of its floor.
pub proof fn lemma_center_in_room(room: Rect, width: int, height: int)
    requires
        spec_room_ok(room, width, height),
    ensures
        room.spec_interior(room.spec_center_x(), room.spec_center_y()),
        0 <= room.spec_center_x() < width,
        0 <= room.spec_center_y() < height,
        0 <= spec_center_idx(room, width) < width * height,
        spec_center_idx(room, width) % width == room.spec_center_x(),
        spec_center_idx(room, width) / width == room.spec_center_y(),
{
    lemma_idx_in_range(room.spec_center_x(), room.spec_center_y(), width, height);
}

/// The tile of the up-staircase is an in-bounds tile of the first room's
/// floor, and it is not the last room's centre where a down-staircase is
/// asked for.
pub proof fn lemma_up_in_room(rooms: Seq<Rect>, width: int, height: int, options: MapOptions)
    requires
        1 <= rooms.len(),
        spec_rooms_ok(rooms, width, height),
    ensures
        0 <= spec_up_idx(rooms, width, options) < width * height,
        rooms[0].spec_interior(spec_up_idx(rooms, width, options) % width, spec_up_idx(rooms, width, options) / width),
        spec_up_idx(rooms, width, options) / width == rooms[0].spec_center_y(),
        options.has_downstairs ==> spec_up_idx(rooms, width, options) != spec_center_idx(
            rooms[rooms.len() - 1],
            width,
        ),
{
    let room = rooms[0];
    lemma_center_in_room(room, width, height);
    lemma_idx_in_range(room.spec_center_x() - 1, room.spec_center_y(), width, height);
}

/// A floor with both staircases asked for has exactly one tile that leads
/// up and exactly one that leads down, and they are two tiles. Where only
/// one of the two is asked for, there is exactly one of that kind and none
/// of the other.
pub proof fn lemma_one_staircase_each(map: &GameMap, options: MapOptions)
    requires
        spec_generated(map, options),
    ensures
        options.has_upstairs ==> exists|i: int|
            0 <= i < map.tiles.len() && #[trigger] map.tiles[i] == TileType::UpStairs && forall|j: int|
                0 <= j < map.tiles.len() && #[trigger] map.tiles[j] == TileType::UpStairs ==> j == i,
        options.has_downstairs ==> exists|i: int|
            0 <= i < map.tiles.len() && #[trigger] map.tiles[i] == TileType::DownStairs && forall|j: int|
                0 <= j < map.tiles.len() && #[trigger] map.tiles[j] == TileType::DownStairs ==> j == i,
        !options.has_upstairs ==> forall|j: int|
            0 <= j < map.tiles.len() ==> #[trigger] map.tiles[j] != TileType::UpStairs,
        !options.has_downstairs ==> forall|j: int|
            0 <= j < map.tiles.len() ==> #[trigger] map.tiles[j] != TileType::DownStairs,
        options.has_upstairs && options.has_downstairs ==> spec_up_idx(map.rooms@, options.width as int, options)
            != spec_center_idx(map.rooms[map.rooms.len() - 1], options.width as int),
{
    let w = options.width as int;
    let up = spec_up_idx(map.rooms@, w, options);
    let last = spec_center_idx(map.rooms[map.rooms.len() - 1], w);
    if options.has_upstairs {
        assert(map.tiles[up] == TileType::UpStairs);
    }
    if options.has_downstairs {
        assert(map.tiles[last] == TileType::DownStairs);
    }
}

impl GameMap {
    /// Stamps the staircases that `options` asks for and fixes the spawn
    /// point: the spawn point at the first room's centre, the
    /// down-staircase at the last room's centre, and the up-staircase at
    /// the first room's centre too, unless the down-staircase is there:
    /// then it goes on the tile to the left, so that a floor has both.
    pub fn place_stairs(&mut self, options: MapOptions)
        requires
            old(self).wf(),
            1 <= old(self).rooms.len(),
            spec_rooms_ok(old(self).rooms@, old(self).width as int, old(self).height as int),
        ensures
            final(self).wf(),
            final(self).rooms@ == old(self).rooms@,
            final(self).tile_content@ == old(self).tile_content@,
            final(self).revealed_tiles@ == old(self).revealed_tiles@,
            final(self).blocked_tiles@ == old(self).blocked_tiles@,
            final(self).bloodstains@ == old(self).bloodstains@,
            final(self).width == old(self).width,
            final(self).height == old(self).height,
            final(self).index == old(self).index,
            final(self).player_spawn_index == Some(
                spec_center_idx(old(self).rooms[0], old(self).width as int) as usize,
            ),
            final(self).tiles.len() == old(self).tiles.len(),
            final(self).tiles@ == spec_stairs_placed(
                old(self).tiles@,
                old(self).rooms@,
                old(self).width as int,
                options,
            ),
            forall|i: int|
                0 <= i < old(self).tiles.len() ==> #[trigger] final(self).tiles[i] == (if options.has_downstairs
                    && i == spec_center_idx(
                    old(self).rooms[old(self).rooms.len() - 1],
                    old(self).width as int,
                ) {
                    TileType::DownStairs
                } else if options.has_upstairs && i == spec_up_idx(
                    old(self).rooms@,
                    old(self).width as int,
                    options,
                ) {
                    TileType::UpStairs
                } else {
                    old(self).tiles[i]
                }),
    {
        let first: Rect = self.rooms[0];
        let last: Rect = self.rooms[self.rooms.len() - 1];
        proof {
            lemma_center_in_room(first, self.width as int, self.height as int);
            lemma_center_in_room(last, self.width as int, self.height as int);
            lemma_up_in_room(self.rooms@, self.width as int, self.height as int, options);
        }
        let (first_x, first_y) = first.center();
        let spawn_index: usize = self.xy_idx(first_x, first_y);
        let (down_x, down_y) = last.center();
        let down_index: usize = self.xy_idx(down_x, down_y);
        let up_index: usize = if options.has_downstairs && spawn_index == down_index {
            spawn_index - 1
        } else {
            spawn_index
        };
        if options.has_upstairs {
            self.tiles.set(up_index, TileType::UpStairs);
        }
        if options.has_downstairs {
            self.tiles.set(down_index, TileType::DownStairs);
        }
        self.player_spawn_index = Some(spawn_index);
        assert(self.tiles@ =~= spec_stairs_placed(old(self).tiles@, old(self).rooms@, old(self).width as int, options));
    }

    /// Drops up to `MAX_DEBRIS` pieces of debris into each room, each on a
    /// tile of the room's floor drawn at random. A draw that lands on
    /// anything but plain floor is skipped.
    pub fn scatter_debris(&mut self, rng: &mut rltk::RandomNumberGenerator)
        requires
            old(self).wf(),
            spec_rooms_ok(old(self).rooms@, old(self).width as int, old(self).height as int),
        ensures
            final(self).wf(),
            final(self).rooms@ == old(self).rooms@,
            final(self).tile_content@ == old(self).tile_content@,
            final(self).revealed_tiles@ == old(self).revealed_tiles@,
            final(self).blocked_tiles@ == old(self).blocked_tiles@,
            final(self).bloodstains@ == old(self).bloodstains@,
            final(self).width == old(self).width,
            final(self).height == old(self).height,
            final(self).index == old(self).index,
            final(self).player_spawn_index == old(self).player_spawn_index,
            final(self).tiles.len() == old(self).tiles.len(),
            forall|i: int|
                0 <= i < old(self).tiles.len() ==> #[trigger] final(self).tiles[i] == old(self).tiles[i] || (
                old(self).tiles[i] == TileType::Floor && final(self).tiles[i] == TileType::Debris && exists|
                    k: int,
                |
                    #[trigger] spec_room_covers(
                        old(self).rooms@,
                        k,
                        i % (old(self).width as int),
                        i / (old(self).width as int),
                    )),
            spec_debris_result(old(self).tiles@, final(self).tiles@, old(self).rooms@, old(self).width as int),
    {
        let ghost w = self.width as int;
        let ghost mut dropped: Seq<Seq<Position>> = Seq::empty();
        let mut k: usize = 0;
        while k < self.rooms.len()
            invariant
                k <= self.rooms.len(),
                dropped.len() == k,
                self.tiles@ == spec_debris_scattered(old(self).tiles@, w, dropped, k as int),
                forall|r: int| 0 <= r < k ==> (#[trigger] dropped[r]).len() <= MAX_DEBRIS,
                forall|r: int, j: int|
                    0 <= r < k && 0 <= j < dropped[r].len() ==> self.rooms[r].spec_interior(
                        (#[trigger] dropped[r][j]).x as int,
                        dropped[r][j].y as int,
                    ),
                w == self.width,
                self.wf(),
                self.same_overlay(old(self)),
                spec_rooms_ok(self.rooms@, w, self.height as int),
                self.tiles.len() == old(self).tiles.len(),
                forall|i: int|
                    0 <= i < old(self).tiles.len() ==> #[trigger] self.tiles[i] == old(self).tiles[i] || (
                    old(self).tiles[i] == TileType::Floor && self.tiles[i] == TileType::Debris && exists|
                        j: int,
                    |
                        #[trigger] spec_room_covers(old(self).rooms@, j, i % w, i / w)),
            decreases self.rooms.len() - k,
        {
            let room: Rect = self.rooms[k];
            assert(spec_room_ok(room, w, self.height as int));
            let pieces: i32 = range(rng, 0, MAX_DEBRIS + 1);
            let ghost tiles_room = self.tiles@;
            let ghost mut drawn: Seq<Position> = Seq::empty();
            let mut piece: i32 = 0;
            while piece < pieces
                invariant
                    0 <= piece <= pieces <= MAX_DEBRIS,
                    drawn.len() == piece,
                    self.tiles@ == spec_debris_in_room(tiles_room, w, drawn, piece as int),
                    forall|j: int|
                        0 <= j < drawn.len() ==> room.spec_interior((#[trigger] drawn[j]).x as int, drawn[j].y as int),
                    k < self.rooms.len(),
                    room == self.rooms[k as int],
                    spec_room_ok(room, w, self.height as int),
                    w == self.width,
                    self.wf(),
                    self.same_overlay(old(self)),
                    self.tiles.len() == old(self).tiles.len(),
                    forall|i: int|
                        0 <= i < old(self).tiles.len() ==> #[trigger] self.tiles[i] == old(self).tiles[i]
                            || (old(self).tiles[i] == TileType::Floor && self.tiles[i] == TileType::Debris
                            && exists|j: int|
                            #[trigger] spec_room_covers(old(self).rooms@, j, i % w, i / w)),
                decreases pieces - piece,
            {
                let x: i32 = room.x1 + roll_dice(rng, 1, room.x2 - room.x1);
                let y: i32 = room.y1 + roll_dice(rng, 1, room.y2 - room.y1);
                let idx: usize = self.xy_idx(x, y);
                proof {
                    lemma_idx_in_range(x as int, y as int, w, self.height as int);
                }
                let ghost tiles_piece = self.tiles@;
                let ghost drawn_before = drawn;
                if self.tiles[idx] == TileType::Floor {
                    self.tiles.set(idx, TileType::Debris);
                    assert(spec_room_covers(old(self).rooms@, k as int, (idx as int) % w, (idx as int) / w));
                }
                proof {
                    let at = Position { x, y };
                    drawn = drawn.push(at);
                    lemma_debris_in_room_prefix(tiles_room, w, drawn_before, drawn, piece as int);
                    assert(self.tiles@ =~= spec_debris_dropped(tiles_piece, w, at));
                }
                piece += 1;
            }
            proof {
                let dropped_before = dropped;
                dropped = dropped.push(drawn);
                lemma_debris_scattered_prefix(old(self).tiles@, w, dropped_before, dropped, k as int);
                assert forall|r: int, j: int|
                    0 <= r < k + 1 && 0 <= j < dropped[r].len() implies self.rooms[r].spec_interior(
                    (#[trigger] dropped[r][j]).x as int,
                    dropped[r][j].y as int,
                ) by {
                    if r < k {
                        assert(dropped[r] == dropped_before[r]);
                    }
                }
                assert forall|r: int| 0 <= r < k + 1 implies (#[trigger] dropped[r]).len() <= MAX_DEBRIS by {
                    if r < k {
                        assert(dropped[r] == dropped_before[r]);
                    }
                }
            }
            k += 1;
        }
        proof {
            assert(spec_debris_ok(old(self).rooms@, dropped));
            assert(self.tiles@ == spec_debris_scattered(old(self).tiles@, w, dropped, old(self).rooms@.len() as int));
        }
    }

    /// Builds a floor of rooms and corridors from the draws of `rng`.
    ///
    /// `MAX_ROOMS` rooms are proposed, each of a random size and place. A
    /// proposal that touches a room accepted earlier is dropped; an accepted
    /// room is carved and joined to the room accepted before it by an
    /// L-shaped corridor whose first leg is drawn at random. Stairs and
    /// debris follow as `options` asks.
    pub fn new_map_dynamic_rooms_and_corridors(
        rng: &mut rltk::RandomNumberGenerator,
        options: MapOptions,
    ) -> (map: GameMap)
        requires
            MAX_SIZE < options.width,
            MAX_SIZE < options.height,
            options.width * options.height <= i32::MAX,
        ensures
            spec_generated(&map, options),
            spec_generated_exactly(&map, options),
    {
        let ghost w = options.width as int;
        let ghost h = options.height as int;
        let mut map: GameMap = GameMap::filled(options.index, options.width, options.height, TileType::Wall);
        let ghost mut drawn: Seq<RoomDraw> = Seq::empty();
        assert(map.tiles@ =~= spec_rooms_built(w, h, drawn, 0).0);
        let mut attempt: i32 = 0;
        while attempt < MAX_ROOMS
            invariant
                0 <= attempt <= MAX_ROOMS,
                drawn.len() == attempt,
                (map.tiles@, map.rooms@) == spec_rooms_built(w, h, drawn, attempt as int),
                forall|n: int| 0 <= n < drawn.len() ==> spec_draw_ok(#[trigger] drawn[n], w, h),
                forall|n: int| 0 <= n < drawn.len() ==> #[trigger] spec_coin_ok(w, h, drawn, n),
                w == options.width,
                h == options.height,
                MAX_SIZE < options.width,
                MAX_SIZE < options.height,
                map.wf(),
                map.width == options.width,
                map.height == options.height,
                map.index == options.index,
                map.rooms.len() <= attempt,
                attempt >= 1 ==> map.rooms.len() >= 1,
                spec_rooms_ok(map.rooms@, w, h),
                spec_rooms_disjoint(map.rooms@),
                spec_floor_plan(map.tiles@, map.rooms@, w),
                spec_pristine(&map),
                forall|i: int|
                    0 <= i < map.tiles.len() ==> #[trigger] map.tiles[i] == TileType::Wall || map.tiles[i]
                        == TileType::Floor,
            decreases MAX_ROOMS - attempt,
        {
            let room_w: i32 = range(rng, MIN_SIZE, MAX_SIZE);
            let room_h: i32 = range(rng, MIN_SIZE, MAX_SIZE);
            let x: i32 = roll_dice(rng, 1, options.width - room_w - 1) - 1;
            let y: i32 = roll_dice(rng, 1, options.height - room_h - 1) - 1;
            let new_room: Rect = Rect::new(x, y, room_w, room_h);
            let ghost drawn_before = drawn;
            let ghost mut coin: bool = false;
            if map.room_is_free(&new_room) {
                let horizontal_first: bool = if map.rooms.len() > 0 {
                    range(rng, 0, 2) == 1
                } else {
                    false
                };
                proof {
                    coin = horizontal_first;
                }
                let ghost tiles_before = map.tiles@;
                let ghost rooms_before = map.rooms@;
                map.add_room(new_room, horizontal_first);
                proof {
                    assert forall|k: int| 0 <= k < rooms_before.len() implies 0 < (
                    #[trigger] rooms_before[k]).spec_center_x() < w by {
                        assert(spec_room_ok(rooms_before[k], w, h));
                    }
                    lemma_room_added(tiles_before, w, rooms_before, new_room, horizontal_first);
                    assert forall|i: int, j: int| 0 <= i < j < map.rooms.len() implies !(
                    #[trigger] map.rooms[i]).spec_intersect(#[trigger] map.rooms[j]) by {
                        if j == rooms_before.len() {
                            assert(map.rooms[i] == rooms_before[i]);
                        } else {
                            assert(map.rooms[i] == rooms_before[i]);
                            assert(map.rooms[j] == rooms_before[j]);
                        }
                    }
                    assert forall|k: int| 0 <= k < map.rooms.len() implies spec_room_ok(
                        #[trigger] map.rooms[k],
                        w,
                        h,
                    ) by {
                        if k < rooms_before.len() {
                            assert(map.rooms[k] == rooms_before[k]);
                        }
                    }
                }
            }
            proof {
                let d = RoomDraw { w: room_w, h: room_h, x, y, horizontal_first: coin };
                drawn = drawn.push(d);
                assert(spec_drawn_room(d) == new_room);
                lemma_rooms_built_prefix(w, h, drawn_before, drawn, attempt as int);
                assert forall|n: int| 0 <= n < drawn.len() implies #[trigger] spec_coin_ok(w, h, drawn, n) by {
                    if n < attempt {
                        assert(spec_coin_ok(w, h, drawn_before, n));
                        lemma_rooms_built_prefix(w, h, drawn_before, drawn, n);
                        assert(drawn[n] == drawn_before[n]);
                    }
                }
                assert forall|n: int| 0 <= n < drawn.len() implies spec_draw_ok(#[trigger] drawn[n], w, h) by {
                    if n < attempt {
                        assert(drawn[n] == drawn_before[n]);
                    }
                }
            }
            attempt += 1;
        }
        let ghost tiles_plain = map.tiles@;
        map.place_stairs(options);
        let ghost tiles_stairs = map.tiles@;
        if options.has_debris {
            map.scatter_debris(rng);
        }
        proof {
            let debris = if options.has_debris {
                choose|debris: Seq<Seq<Position>>|
                    spec_debris_ok(map.rooms@, debris) && map.tiles@ == #[trigger] spec_debris_scattered(
                        tiles_stairs,
                        w,
                        debris,
                        map.rooms@.len() as int,
                    )
            } else {
                Seq::<Seq<Position>>::empty()
            };
            let draws = FloorDraws { rooms: drawn, debris };
            assert(spec_built_from(&map, options, draws));
        }
        proof {
            let n = map.rooms.len() as int;
            let first = spec_center_idx(map.rooms[0], w);
            let last = spec_center_idx(map.rooms[n - 1], w);
            lemma_center_in_room(map.rooms[0], w, h);
            lemma_center_in_room(map.rooms[n - 1], w, h);
            if n > 1 {
                lemma_centers_differ(map.rooms@, w, h, 0, n - 1);
            }
            let up = spec_up_idx(map.rooms@, w, options);
            lemma_up_in_room(map.rooms@, w, h, options);
            assert(spec_room_covers(map.rooms@, 0, first % w, first / w));
            assert(spec_room_covers(map.rooms@, 0, up % w, up / w));
            assert(spec_room_covers(map.rooms@, n - 1, last % w, last / w));
            assert forall|i: int|
                0 <= i < map.tiles.len() && #[trigger] map.tiles[i] != TileType::Wall implies spec_carved(
                map.rooms@,
                i % w,
                i / w,
            ) by {
                if tiles_plain[i] != TileType::Wall {
                } else {
                    assert(tiles_stairs[i] != tiles_plain[i] || map.tiles[i] != tiles_stairs[i]);
                }
            }
            assert forall|i: int, k: int|
                0 <= i < map.tiles.len() && #[trigger] spec_room_covers(
                    map.rooms@,
                    k,
                    i % w,
                    i / w,
                ) implies map.tiles[i] != TileType::Wall by {
                assert(tiles_plain[i] != TileType::Wall);
            }
            assert forall|i: int| 0 <= i < tiles_plain.len() && #[trigger] tiles_plain[i] != TileType::Wall implies map.tiles@[i]
                != TileType::Wall by {
                assert(tiles_stairs[i] != TileType::Wall);
            }
            lemma_links_stay(tiles_plain, map.tiles@, map.rooms@, w);
        }
        map
    }
}

/// Smallest width and height of a village.
pub const VILLAGE_MIN_SIZE: i32 = 16;

/// The building that stands in a village of the given size.
pub open spec fn spec_village_hall(width: int, height: int) -> Rect {
    Rect {
        x1: (width * 3 / 8) as i32,
        x2: (width * 5 / 8) as i32,
        y1: (height / 8) as i32,
        y2: (height * 3 / 8) as i32,
    }
}

/// Whether `(x, y)` is part of the hall's outline, the door left out: the
/// door is the middle of the outline's southern side.
pub open spec fn spec_hall_wall(hall: Rect, x: int, y: int) -> bool {
    &&& hall.spec_contains(x, y)
    &&& (x == hall.x1 || x == hall.x2 || y == hall.y1 || y == hall.y2)
    &&& !(x == hall.spec_center_x() && y == hall.y2)
}

/// Where the player enters a village of the given size.
pub open spec fn spec_village_spawn(width: int, height: int) -> (int, int) {
    (width / 2, height / 2)
}

/// Where the stairs down leave a village of the given size.
pub open spec fn spec_village_down(width: int, height: int) -> (int, int) {
    (width * 7 / 8, height * 3 / 4)
}

/// Where the stairs up leave a village of the given size.
pub open spec fn spec_village_up(width: int, height: int) -> (int, int) {
    (width / 8, height * 3 / 4)
}

/// The tile at `(x, y)` of the village that `options` asks for: wall on
/// the edge of the map and along the hall's outline, the stairs where
/// asked for, and floor everywhere else.
pub open spec fn spec_village_tile(options: MapOptions, x: int, y: int) -> TileType {
    let w = options.width as int;
    let h = options.height as int;
    if x == 0 || y == 0 || x == w - 1 || y == h - 1 {
        TileType::Wall
    } else if spec_hall_wall(spec_village_hall(w, h), x, y) {
        TileType::Wall
    } else if options.has_downstairs && (x, y) == spec_village_down(w, h) {
        TileType::DownStairs
    } else if options.has_upstairs && (x, y) == spec_village_up(w, h) {
        TileType::UpStairs
    } else {
        TileType::Floor
    }
}

/// The map is the village that `options` asks for.
pub open spec fn spec_village(map: &GameMap, options: MapOptions) -> bool {
    let w = options.width as int;
    let h = options.height as int;
    &&& map.wf()
    &&& map.width == options.width
    &&& map.height == options.height
    &&& map.index == options.index
    &&& map.rooms@ == seq![spec_village_hall(w, h)]
    &&& map.player_spawn_index == Some((spec_village_spawn(w, h).1 * w + spec_village_spawn(w, h).0) as usize)
    &&& forall|i: int| 0 <= i < map.tiles.len() ==> #[trigger] map.tiles[i] == spec_village_tile(options, i % w, i / w)
    &&& spec_pristine(map)
}

impl GameMap {
    /// Builds the village: open ground inside a wall around the map, one
    /// hall whose outline is wall but for a door in the middle of its
    /// southern side, and the stairs that `options` asks for.
    pub fn new_map_oakwood(options: MapOptions) -> (map: GameMap)
        requires
            VILLAGE_MIN_SIZE <= options.width,
            VILLAGE_MIN_SIZE <= options.height,
            options.width * options.height <= i32::MAX,
        ensures
            spec_village(&map, options),
            map.tiles[map.player_spawn_index.unwrap() as int] == TileType::Floor,
    {
        let ghost w = options.width as int;
        let ghost h = options.height as int;
        let mut map: GameMap = GameMap::filled(options.index, options.width, options.height, TileType::Floor);
        let width: i64 = options.width as i64;
        let height: i64 = options.height as i64;
        let hall: Rect = Rect {
            x1: (width * 3 / 8) as i32,
            x2: (width * 5 / 8) as i32,
            y1: (height / 8) as i32,
            y2: (height * 3 / 8) as i32,
        };
        let (door_x, _) = hall.center();
        let down_x: i32 = (width * 7 / 8) as i32;
        let down_y: i32 = (height * 3 / 4) as i32;
        let up_x: i32 = (width / 8) as i32;
        let up_y: i32 = (height * 3 / 4) as i32;
        let n: usize = map.tiles.len();
        let mut i: usize = 0;
        while i < n
            invariant
                i <= n,
                n == map.tiles.len(),
                w == options.width,
                h == options.height,
                width == w,
                height == h,
                VILLAGE_MIN_SIZE <= options.width,
                VILLAGE_MIN_SIZE <= options.height,
                map.wf(),
                map.width == options.width,
                map.height == options.height,
                map.index == options.index,
                map.rooms@.len() == 0,
                map.player_spawn_index is None,
                spec_pristine(&map),
                hall == spec_village_hall(w, h),
                door_x == hall.spec_center_x(),
                (down_x as int, down_y as int) == spec_village_down(w, h),
                (up_x as int, up_y as int) == spec_village_up(w, h),
                forall|j: int| 0 <= j < i ==> #[trigger] map.tiles[j] == spec_village_tile(options, j % w, j / w),
            decreases n - i,
        {
            let (x, y) = map.idx_xy(i);
            let tile: TileType = if x == 0 || y == 0 || x == options.width - 1 || y == options.height - 1 {
                TileType::Wall
            } else if hall.x1 <= x && x <= hall.x2 && hall.y1 <= y && y <= hall.y2 && (x == hall.x1 || x == hall.x2
                || y == hall.y1 || y == hall.y2) && !(x == door_x && y == hall.y2) {
                TileType::Wall
            } else if options.has_downstairs && x == down_x && y == down_y {
                TileType::DownStairs
            } else if options.has_upstairs && x == up_x && y == up_y {
                TileType::UpStairs
            } else {
                TileType::Floor
            };
            map.tiles.set(i, tile);
            i += 1;
        }
        map.rooms.push(hall);
        let spawn_x: i32 = (width / 2) as i32;
        let spawn_y: i32 = (height / 2) as i32;
        let spawn: usize = map.xy_idx(spawn_x, spawn_y);
        proof {
            lemma_idx_in_range(spawn_x as int, spawn_y as int, w, h);
        }
        map.player_spawn_index = Some(spawn);
        assert(map.rooms@ =~= seq![spec_village_hall(w, h)]);
        map
    }
}

/// Number of walls that are splattered over the open floor of the
/// random-walls map.
pub const SPLATTERED_WALLS: i32 = 25;

/// The two rooms of the fixed floor.
pub open spec fn spec_static_rooms() -> (Rect, Rect) {
    (Rect { x1: 20, x2: 30, y1: 15, y2: 30 }, Rect { x1: 35, x2: 45, y1: 15, y2: 30 })
}

/// The tiles of the fixed floor: two rooms carved out of the wall, and a
/// run in row 23 that joins them.
pub open spec fn spec_static_tiles() -> Seq<TileType> {
    let w = MAX_WIDTH as int;
    let walls = Seq::new((MAX_WIDTH * MAX_HEIGHT) as nat, |i: int| TileType::Wall);
    spec_carve_horizontal(
        spec_carve_room(spec_carve_room(walls, w, spec_static_rooms().0), w, spec_static_rooms().1),
        w,
        25,
        40,
        23,
    )
}

/// The open floor inside a wall around the map, before any wall is
/// splattered on it.
pub open spec fn spec_walled_tiles() -> Seq<TileType> {
    Seq::new(
        (MAX_WIDTH * MAX_HEIGHT) as nat,
        |i: int|
            if i % (MAX_WIDTH as int) == 0 || i % (MAX_WIDTH as int) == MAX_WIDTH - 1 || i / (MAX_WIDTH as int) == 0
                || i / (MAX_WIDTH as int) == MAX_HEIGHT - 1 {
                TileType::Wall
            } else {
                TileType::Floor
            },
    )
}

/// The tiles once a wall has been splattered at `at`: anywhere but on the
/// middle of the map.
pub open spec fn spec_splattered(tiles: Seq<TileType>, at: Position) -> Seq<TileType> {
    let i = at.y * MAX_WIDTH + at.x;
    if i == (MAX_HEIGHT / 2) * MAX_WIDTH + MAX_WIDTH / 2 {
        tiles
    } else {
        tiles.update(i, TileType::Wall)
    }
}

/// The tiles once the first `n` of the walls have been splattered.
pub open spec fn spec_splatter(tiles: Seq<TileType>, walls: Seq<Position>, n: int) -> Seq<TileType>
    decreases n,
{
    if n <= 0 {
        tiles
    } else {
        spec_splattered(spec_splatter(tiles, walls, n - 1), walls[n - 1])
    }
}

/// What the first `n` walls leave on the tiles does not depend on the walls
/// after them.
pub proof fn lemma_splatter_prefix(tiles: Seq<TileType>, a: Seq<Position>, b: Seq<Position>, n: int)
    requires
        0 <= n <= a.len(),
        n <= b.len(),
        forall|i: int| 0 <= i < n ==> a[i] == b[i],
    ensures
        spec_splatter(tiles, a, n) == spec_splatter(tiles, b, n),
    decreases n,
{
    if n > 0 {
        lemma_splatter_prefix(tiles, a, b, n - 1);
    }
}

/// The tiles are the walled floor with `SPLATTERED_WALLS` walls splattered
/// on it, each drawn from all columns but the first and all rows but the
/// first.
pub open spec fn spec_random_walls(tiles: Seq<TileType>) -> bool {
    exists|walls: Seq<Position>|
        walls.len() == SPLATTERED_WALLS && (forall|k: int|
            0 <= k < walls.len() ==> 1 <= (#[trigger] walls[k]).x < MAX_WIDTH && 1 <= walls[k].y < MAX_HEIGHT) && tiles
            == #[trigger] spec_splatter(spec_walled_tiles(), walls, SPLATTERED_WALLS as int)
}

impl GameMap {
    /// Builds the fixed floor: two rooms side by side and the run between
    /// them, on a map `MAX_WIDTH` wide and `MAX_HEIGHT` high.
    pub fn new_map_static_rooms_and_corridors() -> (map: GameMap)
        ensures
            map.wf(),
            map.width == MAX_WIDTH,
            map.height == MAX_HEIGHT,
            map.tiles@ == spec_static_tiles(),
            map.rooms@.len() == 0,
            map.player_spawn_index is None,
            spec_pristine(&map),
    {
        let mut map: GameMap = GameMap::filled(0, MAX_WIDTH, MAX_HEIGHT, TileType::Wall);
        assert(map.tiles@ =~= Seq::new((MAX_WIDTH * MAX_HEIGHT) as nat, |i: int| TileType::Wall));
        let room1: Rect = Rect::new(20, 15, 10, 15);
        let room2: Rect = Rect::new(35, 15, 10, 15);
        map.apply_room_to_map(&room1);
        map.apply_room_to_map(&room2);
        map.apply_horizontal_tunnel(25, 40, 23);
        map
    }

    /// Builds an open floor inside a wall around the map and splatters
    /// `SPLATTERED_WALLS` walls on it, each at a place drawn at random. The
    /// middle of the map stays open.
    pub fn new_map_random_walls(rng: &mut rltk::RandomNumberGenerator) -> (map: GameMap)
        ensures
            map.wf(),
            map.width == MAX_WIDTH,
            map.height == MAX_HEIGHT,
            spec_random_walls(map.tiles@),
            map.tiles[(MAX_HEIGHT / 2) * MAX_WIDTH + MAX_WIDTH / 2] == TileType::Floor,
            map.rooms@.len() == 0,
            map.player_spawn_index is None,
            spec_pristine(&map),
    {
        let mut map: GameMap = GameMap::filled(0, MAX_WIDTH, MAX_HEIGHT, TileType::Floor);
        let mut x: i32 = 0;
        while x < MAX_WIDTH
            invariant
                0 <= x <= MAX_WIDTH,
                map.wf(),
                map.width == MAX_WIDTH,
                map.height == MAX_HEIGHT,
                map.rooms@.len() == 0,
                map.player_spawn_index is None,
                spec_pristine(&map),
                forall|i: int|
                    0 <= i < map.tiles.len() ==> #[trigger] map.tiles[i] == (if (i / (MAX_WIDTH as int) == 0 || i / (
                    MAX_WIDTH as int) == MAX_HEIGHT - 1) && i % (MAX_WIDTH as int) < x {
                        TileType::Wall
                    } else {
                        TileType::Floor
                    }),
            decreases MAX_WIDTH - x,
        {
            let top: usize = map.xy_idx(x, 0);
            map.tiles.set(top, TileType::Wall);
            let bottom: usize = map.xy_idx(x, MAX_HEIGHT - 1);
            map.tiles.set(bottom, TileType::Wall);
            proof {
                assert forall|i: int| 0 <= i < map.tiles.len() implies #[trigger] map.tiles[i] == (if (i / (
                MAX_WIDTH as int) == 0 || i / (MAX_WIDTH as int) == MAX_HEIGHT - 1) && i % (MAX_WIDTH as int) < x
                    + 1 {
                    TileType::Wall
                } else {
                    TileType::Floor
                }) by {
                    lemma_idx_in_range(x as int, 0, MAX_WIDTH as int, MAX_HEIGHT as int);
                    lemma_idx_in_range(x as int, MAX_HEIGHT - 1, MAX_WIDTH as int, MAX_HEIGHT as int);
                    lemma_xy_of_idx(i, MAX_WIDTH as int, MAX_HEIGHT as int);
                }
            }
            x += 1;
        }
        let mut y: i32 = 0;
        while y < MAX_HEIGHT
            invariant
                0 <= y <= MAX_HEIGHT,
                map.wf(),
                map.width == MAX_WIDTH,
                map.height == MAX_HEIGHT,
                map.rooms@.len() == 0,
                map.player_spawn_index is None,
                spec_pristine(&map),
                forall|i: int|
                    0 <= i < map.tiles.len() ==> #[trigger] map.tiles[i] == (if i / (MAX_WIDTH as int) == 0 || i / (
                    MAX_WIDTH as int) == MAX_HEIGHT - 1 || ((i % (MAX_WIDTH as int) == 0 || i % (MAX_WIDTH as int)
                        == MAX_WIDTH - 1) && i / (MAX_WIDTH as int) < y) {
                        TileType::Wall
                    } else {
                        TileType::Floor
                    }),
            decreases MAX_HEIGHT - y,
        {
            let left: usize = map.xy_idx(0, y);
            map.tiles.set(left, TileType::Wall);
            let right: usize = map.xy_idx(MAX_WIDTH - 1, y);
            map.tiles.set(right, TileType::Wall);
            proof {
                assert forall|i: int| 0 <= i < map.tiles.len() implies #[trigger] map.tiles[i] == (if i / (
                MAX_WIDTH as int) == 0 || i / (MAX_WIDTH as int) == MAX_HEIGHT - 1 || ((i % (MAX_WIDTH as int) == 0
                    || i % (MAX_WIDTH as int) == MAX_WIDTH - 1) && i / (MAX_WIDTH as int) < y + 1) {
                    TileType::Wall
                } else {
                    TileType::Floor
                }) by {
                    lemma_idx_in_range(0, y as int, MAX_WIDTH as int, MAX_HEIGHT as int);
                    lemma_idx_in_range(MAX_WIDTH - 1, y as int, MAX_WIDTH as int, MAX_HEIGHT as int);
                    lemma_xy_of_idx(i, MAX_WIDTH as int, MAX_HEIGHT as int);
                }
            }
            y += 1;
        }
        assert(map.tiles@ =~= spec_walled_tiles());
        let ghost mut walls: Seq<Position> = Seq::empty();
        let center: usize = map.xy_idx(MAX_WIDTH / 2, MAX_HEIGHT / 2);
        let mut n: i32 = 0;
        while n < SPLATTERED_WALLS
            invariant
                0 <= n <= SPLATTERED_WALLS,
                walls.len() == n,
                center == (MAX_HEIGHT / 2) * MAX_WIDTH + MAX_WIDTH / 2,
                map.wf(),
                map.width == MAX_WIDTH,
                map.height == MAX_HEIGHT,
                map.rooms@.len() == 0,
                map.player_spawn_index is None,
                spec_pristine(&map),
                map.tiles[center as int] == TileType::Floor,
                map.tiles@ == spec_splatter(spec_walled_tiles(), walls, n as int),
                forall|k: int| 0 <= k < walls.len() ==> 1 <= (#[trigger] walls[k]).x < MAX_WIDTH && 1 <= walls[k].y
                    < MAX_HEIGHT,
            decreases SPLATTERED_WALLS - n,
        {
            let wx: i32 = roll_dice(rng, 1, MAX_WIDTH - 1);
            let wy: i32 = roll_dice(rng, 1, MAX_HEIGHT - 1);
            let idx: usize = map.xy_idx(wx, wy);
            let ghost walls_before = walls;
            if idx != center {
                map.tiles.set(idx, TileType::Wall);
            }
            proof {
                walls = walls.push(Position { x: wx, y: wy });
                lemma_splatter_prefix(spec_walled_tiles(), walls_before, walls, n as int);
            }
            n += 1;
        }
        map
    }
}

} // verus!
