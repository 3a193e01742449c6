//! Lines of sight and fields of view over the map's terrain.

use crate::geometry::{within_range, Position};
use crate::geometry::{spec_distance_squared, spec_within_range};
use crate::map::{GameMap, TileType};
use vstd::prelude::*;

verus! {

#[verifier::external_type_specification]
#[verifier::external_body]
pub struct ExPoint(rltk::Point);

/// Widest view for which a field of view is computed: the search squares
/// twice the range plus one in an `i32`, and this is the last range for
/// which that square can be written. The search sets room aside for four
/// times the square of the range, so a wide view asks for much memory.
pub const MAX_VIEW_RANGE: i32 = 23169;

/// The points that `rltk::line2d` plots with Bresenham's algorithm from
/// `(x0, y0)` to `(x1, y1)`, in the order in which it plots them.
pub uninterp spec fn spec_bresenham(x0: int, y0: int, x1: int, y1: int) -> Seq<(int, int)>;

/// The points that the symmetric shadow casting of `rltk::FieldOfViewAlg`
/// finds visible from `(x, y)` out to `range` on a grid `width` wide and
/// `height` high, where `opaque` says of each tile index whether the tile
/// stops the eye.
pub uninterp spec fn spec_field_of_view(
    x: int,
    y: int,
    range: int,
    width: int,
    height: int,
    opaque: Seq<bool>,
) -> Set<(int, int)>;

/// The coordinates of the positions, as pairs.
pub open spec fn spec_points(line: Seq<Position>) -> Seq<(int, int)> {
    line.map_values(|p: Position| (p.x as int, p.y as int))
}

/// Which tiles stop the eye: walls do, everything else is seen across.
pub open spec fn spec_opacity(tiles: Seq<TileType>) -> Seq<bool> {
    tiles.map_values(|t: TileType| t == TileType::Wall)
}

/// `rltk::Point::new` on two `i32` coordinates.
#[verifier::external_body]
fn make_point(x: i32, y: i32) -> rltk::Point {
    rltk::Point::new(x, y)
}

impl rltk::BaseMap for GameMap {
    /// Whether the tile with index `idx` stops the eye: a wall does, and so
    /// does whatever lies beyond the map.
    fn is_opaque(&self, idx: usize) -> (opaque: bool)
        ensures
            opaque == (idx >= self.tiles.len() || spec_opacity(self.tiles@)[idx as int]),
    {
        idx >= self.tiles.len() || self.tiles[idx] == TileType::Wall
    }
}

impl rltk::Algorithm2D for GameMap {
    /// The map's width and height, as the point that a search asks for.
    fn dimensions(&self) -> rltk::Point {
        make_point(self.width, self.height)
    }
}

/// `rltk::line2d` with `LineAlg::Bresenham`: the plotted points from `start`
/// to `end`, both included. The contract names the plotted points and adds
/// that the last of them is `end`, which the function appends itself.
#[verifier::external_body]
pub(crate) fn line2d_bresenham(start: Position, end: Position) -> (line: Vec<Position>)
    requires
        0 <= start.x,
        0 <= start.y,
        0 <= end.x,
        0 <= end.y,
    ensures
        spec_points(line@) == spec_bresenham(start.x as int, start.y as int, end.x as int, end.y as int),
        line@.len() > 0,
        line@.last() == end,
{
    rltk::line2d(
        rltk::LineAlg::Bresenham,
        rltk::Point::new(start.x, start.y),
        rltk::Point::new(end.x, end.y),
    ).into_iter().map(|p| Position { x: p.x, y: p.y }).collect()
}

/// The tile `(tx, ty)` lies within the reach of a view from `(x, y)` out to
/// `range`: no further than half a tile beyond the range, by Euclidean
/// distance.
pub open spec fn spec_in_reach(x: int, y: int, range: int, tx: int, ty: int) -> bool {
    4 * spec_distance_squared(x, y, tx, ty) <= (2 * range + 1) * (2 * range + 1)
}

/// `rltk::FieldOfViewAlg::SymmetricShadowcasting.field_of_view` on the
/// map's terrain: the tiles visible from `(x, y)` out to `range`. The
/// function gathers them in a hash set that it starts with the viewer's own
/// tile, adds a tile only where its squared distance is at most the square
/// of the range plus a half, and keeps only those on the map. So the
/// contract names the set, and adds that no tile comes twice, that every
/// tile is on the map and within that reach, and that the viewer's tile is
/// among them; the order in which they come is not stated.
#[verifier::external_body]
pub(crate) fn field_of_view(map: &GameMap, x: i32, y: i32, range: i32) -> (seen: Vec<Position>)
    requires
        map.wf(),
        map.spec_in_bounds(x as int, y as int),
        -MAX_VIEW_RANGE <= range <= MAX_VIEW_RANGE,
    ensures
        spec_points(seen@).to_set() == spec_field_of_view(
            x as int,
            y as int,
            range as int,
            map.width as int,
            map.height as int,
            spec_opacity(map.tiles@),
        ),
        seen@.no_duplicates(),
        forall|k: int| 0 <= k < seen@.len() ==> map.spec_in_bounds(#[trigger] seen@[k].x as int, seen@[k].y as int),
        seen@.contains(Position { x, y }),
        forall|k: int|
            0 <= k < seen@.len() ==> spec_in_reach(
                x as int,
                y as int,
                range as int,
                #[trigger] seen@[k].x as int,
                seen@[k].y as int,
            ),
{
    rltk::FieldOfViewAlg::SymmetricShadowcasting.field_of_view(rltk::Point::new(x, y), range, map).into_iter().map(
        |p| Position { x: p.x, y: p.y },
    ).collect()
}

/// Every point of the line is a passable tile of the map.
pub open spec fn spec_line_clear(map: &GameMap, line: Seq<(int, int)>) -> bool {
    forall|k: int|
        0 <= k < line.len() ==> map.spec_in_bounds((#[trigger] line[k]).0, line[k].1) && map.tiles[map.spec_idx(
            line[k].0,
            line[k].1,
        )].spec_passable()
}

/// The straight line from `(ox, oy)` to `(tx, ty)` crosses passable tiles
/// only, both ends included.
pub open spec fn spec_line_of_sight(map: &GameMap, ox: int, oy: int, tx: int, ty: int) -> bool {
    spec_line_clear(map, spec_bresenham(ox, oy, tx, ty))
}

/// The tile with index `t` can be reached by a ranged or area effect from
/// `origin`: it is passable, at most `range` away, and in line of sight.
pub open spec fn spec_eligible(map: &GameMap, origin: Position, range: int, t: int) -> bool {
    let tx = t % (map.width as int);
    let ty = t / (map.width as int);
    &&& 0 <= t < map.tiles.len()
    &&& map.tiles[t].spec_passable()
    &&& spec_within_range(origin.x as int, origin.y as int, tx, ty, range)
    &&& spec_line_of_sight(map, origin.x as int, origin.y as int, tx, ty)
}

/// Whether the straight line between two tiles of the map crosses
/// passable tiles only.
pub fn has_line_of_sight(map: &GameMap, origin: Position, target: Position) -> (clear: bool)
    requires
        map.wf(),
        map.spec_in_bounds(origin.x as int, origin.y as int),
        map.spec_in_bounds(target.x as int, target.y as int),
    ensures
        clear == spec_line_of_sight(
            map,
            origin.x as int,
            origin.y as int,
            target.x as int,
            target.y as int,
        ),
{
    let line: Vec<Position> = line2d_bresenham(origin, target);
    let ghost points = spec_points(line@);
    let mut k: usize = 0;
    while k < line.len()
        invariant
            k <= line.len(),
            map.wf(),
            points == spec_points(line@),
            points.len() == line.len(),
            points == spec_bresenham(
                origin.x as int,
                origin.y as int,
                target.x as int,
                target.y as int,
            ),
            forall|j: int|
                0 <= j < k ==> map.spec_in_bounds((#[trigger] points[j]).0, points[j].1) && map.tiles[map.spec_idx(
                    points[j].0,
                    points[j].1,
                )].spec_passable(),
        decreases line.len() - k,
    {
        let p: Position = line[k];
        assert(points[k as int] == (p.x as int, p.y as int));
        if !map.in_bounds(p.x, p.y) {
            assert(!map.spec_in_bounds(points[k as int].0, points[k as int].1));
            return false;
        }
        let idx: usize = map.xy_idx(p.x, p.y);
        if !map.tiles[idx].passable() {
            assert(!map.tiles[map.spec_idx(points[k as int].0, points[k as int].1)].spec_passable());
            return false;
        }
        k += 1;
    }
    true
}

/// The tiles that a ranged or area effect can reach from `origin`: every
/// passable tile at most `range` away whose straight line back to `origin`
/// crosses passable tiles only. They come in the order of their indices.
pub fn get_eligible_ranged_tiles(map: &GameMap, origin: &Position, range: i32) -> (tiles: Vec<usize>)
    requires
        map.wf(),
        map.spec_in_bounds(origin.x as int, origin.y as int),
    ensures
        forall|a: int, b: int| 0 <= a < b < tiles.len() ==> tiles[a] < tiles[b],
        forall|t: int| tiles@.contains(t as usize) && 0 <= t <= usize::MAX <==> spec_eligible(map, *origin, range as int, t),
{
    let mut eligible: Vec<usize> = Vec::new();
    let mut index: usize = 0;
    while index < map.tiles.len()
        invariant
            index <= map.tiles.len(),
            map.wf(),
            map.spec_in_bounds(origin.x as int, origin.y as int),
            forall|a: int, b: int| 0 <= a < b < eligible.len() ==> eligible[a] < eligible[b],
            forall|a: int| 0 <= a < eligible.len() ==> eligible[a] < index,
            forall|t: int|
                eligible@.contains(t as usize) && 0 <= t <= usize::MAX <==> (t < index && spec_eligible(
                    map,
                    *origin,
                    range as int,
                    t,
                )),
        decreases map.tiles.len() - index,
    {
        let ghost before = eligible@;
        let mut add: bool = false;
        if map.tiles[index].passable() {
            let (tile_x, tile_y) = map.idx_xy(index);
            let tile_pos: Position = Position { x: tile_x, y: tile_y };
            if within_range(*origin, tile_pos, range) {
                if has_line_of_sight(map, *origin, tile_pos) {
                    add = true;
                }
            }
        }
        assert(add == spec_eligible(map, *origin, range as int, index as int));
        if add {
            eligible.push(index);
            proof {
                assert(eligible@[before.len() as int] == index);
                assert forall|t: int|
                    eligible@.contains(t as usize) && 0 <= t <= usize::MAX implies (t < index + 1
                    && spec_eligible(map, *origin, range as int, t)) by {
                    let a = choose|a: int| 0 <= a < eligible@.len() && eligible@[a] == t as usize;
                    if a < before.len() {
                        assert(before[a] == t as usize);
                        assert(before.contains(t as usize));
                    }
                }
                assert forall|t: int|
                    t < index + 1 && spec_eligible(map, *origin, range as int, t) implies eligible@.contains(
                    t as usize,
                ) && 0 <= t <= usize::MAX by {
                    if t < index {
                        assert(before.contains(t as usize));
                        let a = choose|a: int| 0 <= a < before.len() && before[a] == t as usize;
                        assert(eligible@[a] == t as usize);
                    }
                }
            }
        }
        index += 1;
    }
    eligible
}

} // verus!
