//! The tile grid shared by every subsystem, and the operations that carve it.

use crate::component::Entity;
use crate::geometry::Rect;
use std::collections::HashSet;
use vstd::prelude::*;

verus! {

/// Width of the fixed grid that the free index helpers address.
pub const MAX_WIDTH: i32 = 80;

/// Height of the fixed grid that the free index helpers address.
pub const MAX_HEIGHT: i32 = 50;

/// Smallest room side the generator proposes.
pub const MIN_SIZE: i32 = 6;

/// Bound above every room side the generator proposes.
pub const MAX_SIZE: i32 = 10;

/// Number of rooms the generator proposes per floor.
pub const MAX_ROOMS: i32 = 30;

/// Most debris tiles the generator tries to drop into one room.
pub const MAX_DEBRIS: i32 = 6;

#[derive(Clone, Copy, Debug, PartialEq, Eq, Structural)]
pub enum TileType {
    Wall,
    Floor,
    DownStairs,
    UpStairs,
    Debris,
}

impl TileType {
    /// Terrain that can be walked on and seen or shot across.
    pub open spec fn spec_passable(self) -> bool {
        self == TileType::Floor || self == TileType::DownStairs || self == TileType::UpStairs
    }

    /// Terrain that blocks movement whoever stands around it.
    pub open spec fn spec_blocks(self) -> bool {
        self == TileType::Wall || self == TileType::Debris
    }

    pub fn passable(self) -> (r: bool)
        ensures
            r == self.spec_passable(),
    {
        match self {
            TileType::Floor | TileType::DownStairs | TileType::UpStairs => true,
            _ => false,
        }
    }

    pub fn blocks(self) -> (r: bool)
        ensures
            r == self.spec_blocks(),
    {
        match self {
            TileType::Wall | TileType::Debris => true,
            _ => false,
        }
    }
}

/// Index of the tile at column `x`, row `y` on a grid `MAX_WIDTH` wide.
pub open spec fn spec_xy_idx(x: int, y: int) -> int {
    y * (MAX_WIDTH as int) + x
}

/// Index of the tile at column `x`, row `y` on a grid `MAX_WIDTH` wide.
pub fn xy_idx(x: i32, y: i32) -> (idx: usize)
    requires
        0 <= x,
        0 <= y,
        spec_xy_idx(x as int, y as int) <= usize::MAX,
    ensures
        idx == spec_xy_idx(x as int, y as int),
{
    (y as usize * MAX_WIDTH as usize) + x as usize
}

/// Column and row of the tile with index `idx` on a grid `MAX_WIDTH` wide.
pub fn idx_xy(idx: usize) -> (p: (i32, i32))
    requires
        idx / (MAX_WIDTH as usize) <= i32::MAX,
    ensures
        p.0 == idx % (MAX_WIDTH as usize),
        p.1 == idx / (MAX_WIDTH as usize),
        0 <= p.0 < MAX_WIDTH,
        0 <= p.1,
        spec_xy_idx(p.0 as int, p.1 as int) == idx,
{
    let x: i32 = (idx % (MAX_WIDTH as usize)) as i32;
    let y: i32 = (idx / (MAX_WIDTH as usize)) as i32;
    (x, y)
}

/// What the generator is asked to build.
#[derive(Clone, Copy, Debug)]
pub struct MapOptions {
    pub index: u32,
    pub width: i32,
    pub height: i32,
    pub has_upstairs: bool,
    pub has_downstairs: bool,
    pub has_debris: bool,
}

/// One floor of the dungeon.
///
/// `blocked_tiles` and `tile_content` are derived every tick from the
/// entities' positions; `revealed_tiles` and `bloodstains` only ever grow.
pub struct GameMap {
    pub tiles: Vec<TileType>,
    pub tile_content: Vec<Vec<Entity>>,
    pub revealed_tiles: Vec<bool>,
    pub blocked_tiles: Vec<bool>,
    pub bloodstains: HashSet<usize>,
    pub rooms: Vec<Rect>,
    pub width: i32,
    pub height: i32,
    pub index: u32,
    pub player_spawn_index: Option<usize>,
}

impl GameMap {
    /// The grid arrays all hold exactly `width * height` entries, and an
    /// index on the grid fits an `i32`.
    pub open spec fn wf(&self) -> bool {
        &&& 0 < self.width
        &&& 0 < self.height
        &&& self.width * self.height <= i32::MAX
        &&& self.tiles.len() == self.width * self.height
        &&& self.tile_content.len() == self.width * self.height
        &&& self.revealed_tiles.len() == self.width * self.height
        &&& self.blocked_tiles.len() == self.width * self.height
        &&& (self.player_spawn_index matches Some(i) ==> i < self.width * self.height)
    }

    pub open spec fn spec_in_bounds(&self, x: int, y: int) -> bool {
        0 <= x < self.width && 0 <= y < self.height
    }

    pub open spec fn spec_idx(&self, x: int, y: int) -> int {
        y * self.width + x
    }

    /// Every tile revealed in `before` is revealed in `self`.
    pub open spec fn keeps_revealed(&self, before: &GameMap) -> bool {
        &&& self.revealed_tiles.len() == before.revealed_tiles.len()
        &&& forall|i: int|
            0 <= i < before.revealed_tiles.len() && before.revealed_tiles[i]
                ==> #[trigger] self.revealed_tiles[i]
    }

    /// Terrain, rooms, size and spawn point are those of `before`.
    pub open spec fn same_terrain(&self, before: &GameMap) -> bool {
        &&& self.tiles@ == before.tiles@
        &&& self.rooms@ == before.rooms@
        &&& self.width == before.width
        &&& self.height == before.height
        &&& self.index == before.index
        &&& self.player_spawn_index == before.player_spawn_index
    }

    /// Whether the grids have one entry for each tile of the map, and the
    /// tiles can be counted in an `i32`.
    pub fn is_wf(&self) -> (ok: bool)
        ensures
            ok == self.wf(),
    {
        if self.width <= 0 || self.height <= 0 {
            return false;
        }
        assert(0 < self.width * self.height <= 0x7fff_ffff * 0x7fff_ffff) by (nonlinear_arith)
            requires
                0 < self.width <= 0x7fff_ffff,
                0 < self.height <= 0x7fff_ffff,
        ;
        let tiles: u64 = self.width as u64 * self.height as u64;
        if tiles > 0x7fff_ffff {
            return false;
        }
        let spawn_fits: bool = match self.player_spawn_index {
            Some(i) => (i as u64) < tiles,
            None => true,
        };
        spawn_fits && self.tiles.len() as u64 == tiles && self.tile_content.len() as u64 == tiles
            && self.revealed_tiles.len() as u64 == tiles && self.blocked_tiles.len() as u64 == tiles
    }

    pub fn in_bounds(&self, x: i32, y: i32) -> (r: bool)
        ensures
            r == self.spec_in_bounds(x as int, y as int),
    {
        0 <= x && x < self.width && 0 <= y && y < self.height
    }

    /// Index of the tile at column `x`, row `y`.
    pub fn xy_idx(&self, x: i32, y: i32) -> (idx: usize)
        requires
            self.wf(),
            self.spec_in_bounds(x as int, y as int),
        ensures
            idx == self.spec_idx(x as int, y as int),
            idx < self.tiles.len(),
    {
        proof {
            lemma_idx_in_range(x as int, y as int, self.width as int, self.height as int);
        }
        (y as usize * self.width as usize) + x as usize
    }

    /// Column and row of the tile with index `idx`.
    pub fn idx_xy(&self, idx: usize) -> (p: (i32, i32))
        requires
            self.wf(),
            idx < self.tiles.len(),
        ensures
            p.0 == idx % (self.width as usize),
            p.1 == idx / (self.width as usize),
            self.spec_in_bounds(p.0 as int, p.1 as int),
            self.spec_idx(p.0 as int, p.1 as int) == idx,
    {
        proof {
            lemma_xy_of_idx(idx as int, self.width as int, self.height as int);
        }
        let x: i32 = (idx % (self.width as usize)) as i32;
        let y: i32 = (idx / (self.width as usize)) as i32;
        (x, y)
    }

    /// A map of the given size with every tile set to `fill`, nothing
    /// revealed, blocked, occupied or stained, no rooms and no spawn point.
    pub fn filled(index: u32, width: i32, height: i32, fill: TileType) -> (map: GameMap)
        requires
            0 < width,
            0 < height,
            width * height <= i32::MAX,
        ensures
            map.wf(),
            map.width == width,
            map.height == height,
            map.index == index,
            map.rooms@ == Seq::<Rect>::empty(),
            map.player_spawn_index == None::<usize>,
            forall|i: int| 0 <= i < width * height ==> #[trigger] map.tiles[i] == fill,
            forall|i: int| 0 <= i < width * height ==> !#[trigger] map.revealed_tiles[i],
            forall|i: int| 0 <= i < width * height ==> !#[trigger] map.blocked_tiles[i],
            map.bloodstains@ == Set::<usize>::empty(),
            forall|i: int| 0 <= i < width * height ==> (#[trigger] map.tile_content[i])@.len() == 0,
    {
        assert(0 < width * height) by (nonlinear_arith)
            requires
                0 < width,
                0 < height,
        ;
        let n: usize = (width as i64 * height as i64) as usize;
        let mut tiles: Vec<TileType> = Vec::new();
        let mut tile_content: Vec<Vec<Entity>> = Vec::new();
        let mut revealed: Vec<bool> = Vec::new();
        let mut blocked: Vec<bool> = Vec::new();
        let mut i: usize = 0;
        while i < n
            invariant
                i <= n,
                tiles.len() == i,
                tile_content.len() == i,
                revealed.len() == i,
                blocked.len() == i,
                forall|j: int| 0 <= j < i ==> #[trigger] tiles[j] == fill,
                forall|j: int| 0 <= j < i ==> !#[trigger] revealed[j],
                forall|j: int| 0 <= j < i ==> !#[trigger] blocked[j],
                forall|j: int| 0 <= j < i ==> (#[trigger] tile_content[j])@.len() == 0,
            decreases n - i,
        {
            tiles.push(fill);
            tile_content.push(Vec::new());
            revealed.push(false);
            blocked.push(false);
            i += 1;
        }
        GameMap {
            tiles,
            tile_content,
            revealed_tiles: revealed,
            blocked_tiles: blocked,
            bloodstains: HashSet::new(),
            rooms: Vec::new(),
            width,
            height,
            index,
            player_spawn_index: None,
        }
    }

    /// Reveals every tile of the map.
    pub fn reveal_all(&mut self)
        requires
            old(self).wf(),
        ensures
            final(self).wf(),
            final(self).same_terrain(old(self)),
            final(self).tile_content@ == old(self).tile_content@,
            final(self).blocked_tiles@ == old(self).blocked_tiles@,
            final(self).bloodstains@ == old(self).bloodstains@,
            final(self).keeps_revealed(old(self)),
            forall|i: int| 0 <= i < final(self).revealed_tiles.len() ==> #[trigger] final(self).revealed_tiles[i],
    {
        let n: usize = self.revealed_tiles.len();
        let mut i: usize = 0;
        while i < n
            invariant
                i <= n,
                n == self.revealed_tiles.len(),
                self.wf(),
                self.same_terrain(old(self)),
                self.tile_content@ == old(self).tile_content@,
                self.blocked_tiles@ == old(self).blocked_tiles@,
                self.bloodstains@ == old(self).bloodstains@,
                forall|j: int| 0 <= j < i ==> #[trigger] self.revealed_tiles[j],
                forall|j: int| i <= j < n ==> #[trigger] self.revealed_tiles[j] == old(self).revealed_tiles[j],
            decreases n - i,
        {
            self.revealed_tiles.set(i, true);
            i += 1;
        }
    }

    /// Resets every blocked flag to what the terrain alone says: walls and
    /// debris block, everything else is open.
    pub fn populate_blocked(&mut self)
        requires
            old(self).wf(),
        ensures
            final(self).wf(),
            final(self).same_terrain(old(self)),
            final(self).tile_content@ == old(self).tile_content@,
            final(self).revealed_tiles@ == old(self).revealed_tiles@,
            final(self).bloodstains@ == old(self).bloodstains@,
            forall|i: int|
                0 <= i < final(self).tiles.len() ==> #[trigger] final(self).blocked_tiles[i]
                    == final(self).tiles[i].spec_blocks(),
    {
        let n: usize = self.tiles.len();
        let mut i: usize = 0;
        while i < n
            invariant
                i <= n,
                n == self.tiles.len(),
                self.wf(),
                self.same_terrain(old(self)),
                self.tile_content@ == old(self).tile_content@,
                self.revealed_tiles@ == old(self).revealed_tiles@,
                self.bloodstains@ == old(self).bloodstains@,
                forall|j: int|
                    0 <= j < i ==> #[trigger] self.blocked_tiles[j] == self.tiles[j].spec_blocks(),
            decreases n - i,
        {
            let b: bool = self.tiles[i].blocks();
            self.blocked_tiles.set(i, b);
            i += 1;
        }
    }

    /// Empties every tile's occupant list.
    pub fn clear_tile_content(&mut self)
        requires
            old(self).wf(),
        ensures
            final(self).wf(),
            final(self).same_terrain(old(self)),
            final(self).blocked_tiles@ == old(self).blocked_tiles@,
            final(self).revealed_tiles@ == old(self).revealed_tiles@,
            final(self).bloodstains@ == old(self).bloodstains@,
            forall|i: int|
                0 <= i < final(self).tile_content.len()
                    ==> (#[trigger] final(self).tile_content[i])@.len() == 0,
    {
        let n: usize = self.tile_content.len();
        let mut i: usize = 0;
        while i < n
            invariant
                i <= n,
                n == self.tile_content.len(),
                self.wf(),
                self.same_terrain(old(self)),
                self.blocked_tiles@ == old(self).blocked_tiles@,
                self.revealed_tiles@ == old(self).revealed_tiles@,
                self.bloodstains@ == old(self).bloodstains@,
                forall|j: int| 0 <= j < i ==> (#[trigger] self.tile_content[j])@.len() == 0,
            decreases n - i,
        {
            self.tile_content.set(i, Vec::new());
            i += 1;
        }
    }
}

impl GameMap {
    /// The room lies on the map with a wall-wide margin on its far sides.
    pub open spec fn spec_room_on_map(&self, room: Rect) -> bool {
        &&& 0 <= room.x1 <= room.x2 < self.width
        &&& 0 <= room.y1 <= room.y2 < self.height
    }

    /// Everything but the terrain is as in `before`.
    pub open spec fn same_overlay(&self, before: &GameMap) -> bool {
        &&& self.tile_content@ == before.tile_content@
        &&& self.revealed_tiles@ == before.revealed_tiles@
        &&& self.blocked_tiles@ == before.blocked_tiles@
        &&& self.bloodstains@ == before.bloodstains@
        &&& self.rooms@ == before.rooms@
        &&& self.width == before.width
        &&& self.height == before.height
        &&& self.index == before.index
        &&& self.player_spawn_index == before.player_spawn_index
    }

    /// Turns the inside of `room` into floor: every column right of `x1` up
    /// to `x2`, in every row below `y1` up to `y2`.
    pub fn apply_room_to_map(&mut self, room: &Rect)
        requires
            old(self).wf(),
            old(self).spec_room_on_map(*room),
        ensures
            final(self).wf(),
            final(self).same_overlay(old(self)),
            final(self).tiles@ == spec_carve_room(old(self).tiles@, old(self).width as int, *room),
    {
        let ghost w = self.width as int;
        let mut y: i32 = room.y1 + 1;
        while y <= room.y2
            invariant
                room.y1 < y <= room.y2 + 1,
                w == self.width,
                self.wf(),
                self.spec_room_on_map(*room),
                self.same_overlay(old(self)),
                self.tiles.len() == old(self).tiles.len(),
                forall|i: int|
                    0 <= i < self.tiles.len() ==> #[trigger] self.tiles[i] == (if room.x1 < i % w
                        <= room.x2 && room.y1 < i / w < y {
                        TileType::Floor
                    } else {
                        old(self).tiles[i]
                    }),
            decreases room.y2 + 1 - y,
        {
            let mut x: i32 = room.x1 + 1;
            while x <= room.x2
                invariant
                    room.x1 < x <= room.x2 + 1,
                    room.y1 < y <= room.y2,
                    w == self.width,
                    self.wf(),
                    self.spec_room_on_map(*room),
                    self.same_overlay(old(self)),
                    self.tiles.len() == old(self).tiles.len(),
                    forall|i: int|
                        0 <= i < self.tiles.len() ==> #[trigger] self.tiles[i] == (if room.x1 < i % w
                            <= room.x2 && (room.y1 < i / w < y || (i / w == y && i % w < x)) {
                            TileType::Floor
                        } else {
                            old(self).tiles[i]
                        }),
                decreases room.x2 + 1 - x,
            {
                let index: usize = self.xy_idx(x, y);
                self.tiles.set(index, TileType::Floor);
                proof {
                    lemma_idx_in_range(x as int, y as int, w, self.height as int);
                    assert forall|i: int| 0 <= i < self.tiles.len() implies #[trigger] self.tiles[i]
                        == (if room.x1 < i % w <= room.x2 && (room.y1 < i / w < y || (i / w == y && i
                        % w < x + 1)) {
                        TileType::Floor
                    } else {
                        old(self).tiles[i]
                    }) by {
                        lemma_xy_of_idx(i, w, self.height as int);
                    }
                }
                x += 1;
            }
            y += 1;
        }
        assert(self.tiles@ =~= spec_carve_room(old(self).tiles@, w, *room));
    }

    /// Carves the run in row `y` between columns `x1` and `x2`.
    pub fn apply_horizontal_tunnel(&mut self, x1: i32, x2: i32, y: i32)
        requires
            old(self).wf(),
            old(self).spec_in_bounds(x1 as int, y as int),
            old(self).spec_in_bounds(x2 as int, y as int),
        ensures
            final(self).wf(),
            final(self).same_overlay(old(self)),
            final(self).tiles@ == spec_carve_horizontal(
                old(self).tiles@,
                old(self).width as int,
                x1 as int,
                x2 as int,
                y as int,
            ),
    {
        let ghost w = self.width as int;
        let lo: i32 = if x1 <= x2 { x1 } else { x2 };
        let hi: i32 = if x1 <= x2 { x2 } else { x1 };
        let mut x: i32 = lo;
        while x <= hi
            invariant
                lo <= x <= hi + 1,
                0 <= lo <= hi < self.width,
                0 <= y < self.height,
                w == self.width,
                self.wf(),
                self.same_overlay(old(self)),
                self.tiles.len() == old(self).tiles.len(),
                forall|i: int|
                    0 <= i < self.tiles.len() ==> #[trigger] self.tiles[i] == (if i > 0 && i / w == y
                        && lo <= i % w < x {
                        TileType::Floor
                    } else {
                        old(self).tiles[i]
                    }),
            decreases hi + 1 - x,
        {
            let idx: usize = self.xy_idx(x, y);
            if idx > 0 && idx < self.tiles.len() {
                self.tiles.set(idx, TileType::Floor);
            }
            proof {
                lemma_idx_in_range(x as int, y as int, w, self.height as int);
                assert forall|i: int| 0 <= i < self.tiles.len() implies #[trigger] self.tiles[i] == (if i
                    > 0 && i / w == y && lo <= i % w < x + 1 {
                    TileType::Floor
                } else {
                    old(self).tiles[i]
                }) by {
                    lemma_xy_of_idx(i, w, self.height as int);
                }
            }
            x += 1;
        }
        assert(self.tiles@ =~= spec_carve_horizontal(
            old(self).tiles@,
            w,
            x1 as int,
            x2 as int,
            y as int,
        ));
    }

    /// Carves the run in column `x` between rows `y1` and `y2`.
    pub fn apply_vertical_tunnel(&mut self, y1: i32, y2: i32, x: i32)
        requires
            old(self).wf(),
            old(self).spec_in_bounds(x as int, y1 as int),
            old(self).spec_in_bounds(x as int, y2 as int),
        ensures
            final(self).wf(),
            final(self).same_overlay(old(self)),
            final(self).tiles@ == spec_carve_vertical(
                old(self).tiles@,
                old(self).width as int,
                y1 as int,
                y2 as int,
                x as int,
            ),
    {
        let ghost w = self.width as int;
        let lo: i32 = if y1 <= y2 { y1 } else { y2 };
        let hi: i32 = if y1 <= y2 { y2 } else { y1 };
        let mut y: i32 = lo;
        while y <= hi
            invariant
                lo <= y <= hi + 1,
                0 <= lo <= hi < self.height,
                0 <= x < self.width,
                w == self.width,
                self.wf(),
                self.same_overlay(old(self)),
                self.tiles.len() == old(self).tiles.len(),
                forall|i: int|
                    0 <= i < self.tiles.len() ==> #[trigger] self.tiles[i] == (if i > 0 && i % w == x
                        && lo <= i / w < y {
                        TileType::Floor
                    } else {
                        old(self).tiles[i]
                    }),
            decreases hi + 1 - y,
        {
            let idx: usize = self.xy_idx(x, y);
            if idx > 0 && idx < self.tiles.len() {
                self.tiles.set(idx, TileType::Floor);
            }
            proof {
                lemma_idx_in_range(x as int, y as int, w, self.height as int);
                assert forall|i: int| 0 <= i < self.tiles.len() implies #[trigger] self.tiles[i] == (if i
                    > 0 && i % w == x && lo <= i / w < y + 1 {
                    TileType::Floor
                } else {
                    old(self).tiles[i]
                }) by {
                    lemma_xy_of_idx(i, w, self.height as int);
                }
            }
            y += 1;
        }
        assert(self.tiles@ =~= spec_carve_vertical(
            old(self).tiles@,
            w,
            y1 as int,
            y2 as int,
            x as int,
        ));
    }

    /// Whether `room` stays clear of every room accepted so far.
    pub fn room_is_free(&self, room: &Rect) -> (ok: bool)
        ensures
            ok == (forall|k: int| 0 <= k < self.rooms.len() ==> !room.spec_intersect(#[trigger] self.rooms[k])),
    {
        let mut ok: bool = true;
        let mut k: usize = 0;
        while k < self.rooms.len()
            invariant
                k <= self.rooms.len(),
                ok == (forall|j: int| 0 <= j < k ==> !room.spec_intersect(#[trigger] self.rooms[j])),
            decreases self.rooms.len() - k,
        {
            if room.intersect(&self.rooms[k]) {
                ok = false;
            }
            k += 1;
        }
        ok
    }
}

impl GameMap {
    /// Whether `(x, y)` can be stepped onto: it lies inside the map's first
    /// row and column, and its tile is not blocked.
    pub open spec fn spec_exit_valid(&self, x: int, y: int) -> bool {
        1 <= x <= self.width - 1 && 1 <= y <= self.height - 1 && !self.blocked_tiles[self.spec_idx(x, y)]
    }

    /// The tiles that can be stepped onto from the tile with index `idx`:
    /// its western, eastern, northern and southern neighbour, in that order,
    /// each only if it is a valid exit.
    pub open spec fn spec_exits(&self, idx: int) -> Seq<usize> {
        let x = idx % (self.width as int);
        let y = idx / (self.width as int);
        let west = if self.spec_exit_valid(x - 1, y) {
            seq![(idx - 1) as usize]
        } else {
            Seq::empty()
        };
        let east = if self.spec_exit_valid(x + 1, y) {
            seq![(idx + 1) as usize]
        } else {
            Seq::empty()
        };
        let north = if self.spec_exit_valid(x, y - 1) {
            seq![(idx - self.width) as usize]
        } else {
            Seq::empty()
        };
        let south = if self.spec_exit_valid(x, y + 1) {
            seq![(idx + self.width) as usize]
        } else {
            Seq::empty()
        };
        west + east + north + south
    }

    /// Whether `(x, y)` can be stepped onto.
    pub fn is_exit_valid(&self, x: i32, y: i32) -> (ok: bool)
        requires
            self.wf(),
        ensures
            ok == self.spec_exit_valid(x as int, y as int),
    {
        if x < 1 || x > self.width - 1 || y < 1 || y > self.height - 1 {
            return false;
        }
        let idx: usize = self.xy_idx(x, y);
        !self.blocked_tiles[idx]
    }

    /// The tiles that can be stepped onto from the tile with index `idx`.
    pub fn get_available_exits(&self, idx: usize) -> (exits: Vec<usize>)
        requires
            self.wf(),
            idx < self.tiles.len(),
        ensures
            exits@ == self.spec_exits(idx as int),
            forall|k: int| 0 <= k < exits@.len() ==> #[trigger] exits@[k] < self.tiles.len(),
    {
        let (x, y) = self.idx_xy(idx);
        let w: usize = self.width as usize;
        let mut exits: Vec<usize> = Vec::new();
        proof {
            lemma_xy_of_idx(idx as int, self.width as int, self.height as int);
        }
        if self.is_exit_valid(x - 1, y) {
            proof {
                lemma_idx_in_range(x - 1, y as int, self.width as int, self.height as int);
            }
            exits.push(idx - 1);
        }
        if self.is_exit_valid(x + 1, y) {
            proof {
                lemma_idx_in_range(x + 1, y as int, self.width as int, self.height as int);
            }
            exits.push(idx + 1);
        }
        if self.is_exit_valid(x, y - 1) {
            proof {
                lemma_idx_in_range(x as int, y - 1, self.width as int, self.height as int);
                assert((y - 1) * self.width == y * self.width - self.width) by (nonlinear_arith);
            }
            exits.push(idx - w);
        }
        if self.is_exit_valid(x, y + 1) {
            proof {
                lemma_idx_in_range(x as int, y + 1, self.width as int, self.height as int);
                assert((y + 1) * self.width == y * self.width + self.width) by (nonlinear_arith);
            }
            exits.push(idx + w);
        }
        assert(exits@ =~= self.spec_exits(idx as int));
        exits
    }
}

impl GameMap {
    /// `self` and `other` are the same map: the same terrain, rooms and
    /// size, and the same flags and occupants on every tile.
    pub open spec fn spec_equal(&self, other: &GameMap) -> bool {
        &&& self.same_terrain(other)
        &&& self.revealed_tiles@ == other.revealed_tiles@
        &&& self.blocked_tiles@ == other.blocked_tiles@
        &&& self.bloodstains@ == other.bloodstains@
        &&& self.tile_content.len() == other.tile_content.len()
        &&& forall|i: int|
            0 <= i < self.tile_content.len() ==> (#[trigger] self.tile_content[i])@ == other.tile_content[i]@
    }
}

impl Clone for GameMap {
    fn clone(&self) -> (copy: GameMap)
        ensures
            copy.spec_equal(self),
            self.wf() ==> copy.wf(),
    {
        let mut content: Vec<Vec<Entity>> = Vec::new();
        let mut i: usize = 0;
        while i < self.tile_content.len()
            invariant
                i <= self.tile_content.len(),
                content.len() == i,
                forall|j: int| 0 <= j < i ==> (#[trigger] content[j])@ == self.tile_content[j]@,
            decreases self.tile_content.len() - i,
        {
            let mut cell: Vec<Entity> = Vec::new();
            let mut k: usize = 0;
            while k < self.tile_content[i].len()
                invariant
                    i < self.tile_content.len(),
                    k <= self.tile_content[i as int]@.len(),
                    cell@ == self.tile_content[i as int]@.take(k as int),
                decreases self.tile_content[i as int]@.len() - k,
            {
                cell.push(self.tile_content[i][k]);
                assert(cell@ =~= self.tile_content[i as int]@.take(k + 1));
                k += 1;
            }
            assert(cell@ =~= self.tile_content[i as int]@);
            content.push(cell);
            i += 1;
        }
        let tiles: Vec<TileType> = copy_tiles(&self.tiles);
        let revealed: Vec<bool> = copy_flags(&self.revealed_tiles);
        let blocked: Vec<bool> = copy_flags(&self.blocked_tiles);
        let stains: HashSet<usize> = copy_stains(&self.bloodstains);
        let rooms: Vec<Rect> = copy_rooms(&self.rooms);
        GameMap {
            tiles,
            tile_content: content,
            revealed_tiles: revealed,
            blocked_tiles: blocked,
            bloodstains: stains,
            rooms,
            width: self.width,
            height: self.height,
            index: self.index,
            player_spawn_index: self.player_spawn_index,
        }
    }
}

fn copy_tiles(v: &Vec<TileType>) -> (copy: Vec<TileType>)
    ensures
        copy@ == v@,
{
    let mut copy: Vec<TileType> = Vec::new();
    let mut i: usize = 0;
    while i < v.len()
        invariant
            i <= v.len(),
            copy@ == v@.take(i as int),
        decreases v.len() - i,
    {
        copy.push(v[i]);
        assert(copy@ =~= v@.take(i + 1));
        i += 1;
    }
    assert(copy@ =~= v@);
    copy
}

/// `HashSet::clone` on a set of tile indices: a set that holds the same
/// indices.
#[verifier::external_body]
fn copy_stains(stains: &HashSet<usize>) -> (copy: HashSet<usize>)
    ensures
        copy@ == stains@,
{
    stains.clone()
}

fn copy_flags(v: &Vec<bool>) -> (copy: Vec<bool>)
    ensures
        copy@ == v@,
{
    let mut copy: Vec<bool> = Vec::new();
    let mut i: usize = 0;
    while i < v.len()
        invariant
            i <= v.len(),
            copy@ == v@.take(i as int),
        decreases v.len() - i,
    {
        copy.push(v[i]);
        assert(copy@ =~= v@.take(i + 1));
        i += 1;
    }
    assert(copy@ =~= v@);
    copy
}

fn copy_rooms(v: &Vec<Rect>) -> (copy: Vec<Rect>)
    ensures
        copy@ == v@,
{
    let mut copy: Vec<Rect> = Vec::new();
    let mut i: usize = 0;
    while i < v.len()
        invariant
            i <= v.len(),
            copy@ == v@.take(i as int),
        decreases v.len() - i,
    {
        copy.push(v[i]);
        assert(copy@ =~= v@.take(i + 1));
        i += 1;
    }
    assert(copy@ =~= v@);
    copy
}

/// Whether `(px, py)` lies on the horizontal run in row `y` between columns
/// `xa` and `xb`, whichever of the two is the smaller.
pub open spec fn spec_on_horizontal(xa: int, xb: int, y: int, px: int, py: int) -> bool {
    py == y && ((xa <= px <= xb) || (xb <= px <= xa))
}

/// Whether `(px, py)` lies on the vertical run in column `x` between rows
/// `ya` and `yb`, whichever of the two is the smaller.
pub open spec fn spec_on_vertical(ya: int, yb: int, x: int, px: int, py: int) -> bool {
    px == x && ((ya <= py <= yb) || (yb <= py <= ya))
}

/// Whether `(px, py)` lies on the L-shaped corridor from the centre of `a`
/// to the centre of `b`: along `a`'s row and then `b`'s column when
/// `horizontal_first`, along `a`'s column and then `b`'s row otherwise.
pub open spec fn spec_on_corridor(a: Rect, b: Rect, horizontal_first: bool, px: int, py: int) -> bool {
    if horizontal_first {
        spec_on_horizontal(a.spec_center_x(), b.spec_center_x(), a.spec_center_y(), px, py)
            || spec_on_vertical(a.spec_center_y(), b.spec_center_y(), b.spec_center_x(), px, py)
    } else {
        spec_on_vertical(a.spec_center_y(), b.spec_center_y(), a.spec_center_x(), px, py)
            || spec_on_horizontal(a.spec_center_x(), b.spec_center_x(), b.spec_center_y(), px, py)
    }
}

/// Tiles after the floor of `room` has been carved out of `tiles`.
pub open spec fn spec_carve_room(tiles: Seq<TileType>, width: int, room: Rect) -> Seq<TileType> {
    Seq::new(
        tiles.len(),
        |i: int|
            if room.spec_interior(i % width, i / width) {
                TileType::Floor
            } else {
                tiles[i]
            },
    )
}

/// Tiles after a horizontal run has been carved out of `tiles`. The tile
/// with index zero is never carved.
pub open spec fn spec_carve_horizontal(tiles: Seq<TileType>, width: int, xa: int, xb: int, y: int) -> Seq<
    TileType,
> {
    Seq::new(
        tiles.len(),
        |i: int|
            if i > 0 && spec_on_horizontal(xa, xb, y, i % width, i / width) {
                TileType::Floor
            } else {
                tiles[i]
            },
    )
}

/// Tiles after a vertical run has been carved out of `tiles`. The tile with
/// index zero is never carved.
pub open spec fn spec_carve_vertical(tiles: Seq<TileType>, width: int, ya: int, yb: int, x: int) -> Seq<
    TileType,
> {
    Seq::new(
        tiles.len(),
        |i: int|
            if i > 0 && spec_on_vertical(ya, yb, x, i % width, i / width) {
                TileType::Floor
            } else {
                tiles[i]
            },
    )
}

/// No two of the rooms share a point.
pub open spec fn spec_rooms_disjoint(rooms: Seq<Rect>) -> bool {
    forall|i: int, j: int|
        0 <= i < j < rooms.len() ==> !(#[trigger] rooms[i]).spec_intersect(#[trigger] rooms[j])
}

/// The room's `k`-th entry has `(x, y)` in its floor.
pub open spec fn spec_room_covers(rooms: Seq<Rect>, k: int, x: int, y: int) -> bool {
    0 <= k < rooms.len() && rooms[k].spec_interior(x, y)
}

/// One of the two corridors from room `k - 1` to room `k` runs over `(x, y)`.
pub open spec fn spec_link_covers(rooms: Seq<Rect>, k: int, x: int, y: int) -> bool {
    0 < k < rooms.len() && (spec_on_corridor(rooms[k - 1], rooms[k], true, x, y) || spec_on_corridor(
        rooms[k - 1],
        rooms[k],
        false,
        x,
        y,
    ))
}

/// `(x, y)` lies in the floor of a room or on a corridor between two
/// consecutive rooms.
pub open spec fn spec_carved(rooms: Seq<Rect>, x: int, y: int) -> bool {
    (exists|k: int| #[trigger] spec_room_covers(rooms, k, x, y)) || (exists|k: int| #[trigger]
        spec_link_covers(rooms, k, x, y))
}

/// What is carved stays carved when another room is accepted.
pub proof fn lemma_carved_monotone(rooms: Seq<Rect>, room: Rect, x: int, y: int)
    requires
        spec_carved(rooms, x, y),
    ensures
        spec_carved(rooms.push(room), x, y),
{
    let more = rooms.push(room);
    if exists|k: int| #[trigger] spec_room_covers(rooms, k, x, y) {
        let k = choose|k: int| #[trigger] spec_room_covers(rooms, k, x, y);
        assert(more[k] == rooms[k]);
        assert(spec_room_covers(more, k, x, y));
    } else {
        let k = choose|k: int| #[trigger] spec_link_covers(rooms, k, x, y);
        assert(more[k] == rooms[k]);
        assert(more[k - 1] == rooms[k - 1]);
        assert(spec_link_covers(more, k, x, y));
    }
}

/// On a grid `w` wide and `h` high, the index of an in-bounds tile is below
/// `w * h`.
pub proof fn lemma_idx_in_range(x: int, y: int, w: int, h: int)
    requires
        0 <= x < w,
        0 <= y < h,
    ensures
        0 <= y * w + x < w * h,
        (y * w + x) % w == x,
        (y * w + x) / w == y,
{
    assert(y * w + x < w * h) by (nonlinear_arith)
        requires
            0 <= x < w,
            0 <= y < h,
    ;
    assert(0 <= y * w + x) by (nonlinear_arith)
        requires
            0 <= x < w,
            0 <= y < h,
    ;
    vstd::arithmetic::div_mod::lemma_fundamental_div_mod_converse(y * w + x, w, y, x);
}

/// On a grid `w` wide and `h` high, an index below `w * h` names an
/// in-bounds tile, and the tile's index is that index.
pub proof fn lemma_xy_of_idx(idx: int, w: int, h: int)
    requires
        0 < w,
        0 < h,
        0 <= idx < w * h,
    ensures
        0 <= idx % w < w,
        0 <= idx / w < h,
        (idx / w) * w + idx % w == idx,
{
    vstd::arithmetic::div_mod::lemma_fundamental_div_mod(idx, w);
    assert(idx / w < h) by (nonlinear_arith)
        requires
            0 < w,
            0 <= idx < w * h,
            idx == w * (idx / w) + idx % w,
            0 <= idx % w < w,
    ;
    assert(0 <= idx / w) by (nonlinear_arith)
        requires
            0 < w,
            0 <= idx,
            idx == w * (idx / w) + idx % w,
            0 <= idx % w < w,
    ;
    assert((idx / w) * w == w * (idx / w)) by (nonlinear_arith);
}

} // verus!
