//! Moving between floors: what is left behind, what is taken along, and
//! how a floor that is entered gets its map and its inhabitants.

use crate::component::{Entity, OtherLevelPosition, Table};
use crate::config::{ItemConfig, MonsterConfig};
use crate::dungeon::Dungeon;
use crate::generate::{spec_generated, spec_generated_exactly, spec_room_ok, spec_rooms_ok, spec_village};
use crate::geometry::{Position, Rect};
use crate::map::{GameMap, MapOptions};
use crate::spawn::{
    spawn_npc_captain, spawn_npc_merchant, spawn_player, spawn_weighted_item, spawn_weighted_monster,
    spec_found_on, spec_item_made, spec_item_row, spec_item_spawns, spec_monster_made, spec_monster_row,
    spec_monster_spawns, spec_spawn_entries, spec_townsman_row, spec_ware_row, stock_vendor,
};
use crate::world::World;
use vstd::prelude::*;

verus! {

/// Width of the village on floor zero.
pub const VILLAGE_WIDTH: i32 = 80;

/// Height of the village on floor zero.
pub const VILLAGE_HEIGHT: i32 = 40;

/// Width and height of every floor below the village.
pub const FLOOR_SIZE: i32 = 100;

/// Entity `e` stays when the floor is reset: it is a player, or it is
/// carried by the entity that the player steers.
pub open spec fn spec_stays(world: &World, e: int) -> bool {
    world.players[e] || (world.backpacks[e] matches Some(b) && Some(b.owner) == world.player)
}

/// Removes every entity that does not move on to the next floor: all but
/// the player and what the player carries.
pub fn reset_floor(world: &mut World)
    requires
        old(world).wf(),
    ensures
        final(world).wf(),
        final(world).spec_len() == old(world).spec_len(),
        final(world).player == old(world).player,
        forall|j: int|
            0 <= j < old(world).spec_len() && !spec_stays(old(world), j) ==> #[trigger] final(world).spec_row_empty(
                j,
            ),
        forall|j: int|
            0 <= j < old(world).spec_len() && spec_stays(old(world), j) ==> #[trigger] final(world).spec_row_same(
                old(world),
                j,
            ),
{
    let n: usize = world.len();
    let mut i: usize = 0;
    while i < n
        invariant
            i <= n,
            n == world.spec_len(),
            n == old(world).spec_len(),
            world.wf(),
            world.player == old(world).player,
            forall|j: int| 0 <= j < i && !spec_stays(old(world), j) ==> #[trigger] world.spec_row_empty(j),
            forall|j: int|
                0 <= j < n && !(j < i && !spec_stays(old(world), j)) ==> #[trigger] world.spec_row_same(
                    old(world),
                    j,
                ),
        decreases n - i,
    {
        let ghost before = *world;
        assert(world.spec_row_same(old(world), i as int));
        let carried: bool = match (world.backpacks[i], world.player) {
            (Some(b), Some(p)) => b.owner == p,
            _ => false,
        };
        let stays: bool = world.players[i] || carried;
        assert(stays == spec_stays(old(world), i as int));
        if !stays {
            world.delete_entity(Entity { id: i });
        }
        proof {
            assert forall|j: int| 0 <= j < i + 1 && !spec_stays(old(world), j) implies #[trigger] world.spec_row_empty(
                j,
            ) by {
                if j != i {
                    assert(before.spec_row_empty(j));
                    if !stays {
                        assert(world.spec_row_same(&before, j));
                    }
                }
            }
            assert forall|j: int|
                0 <= j < n && !(j < i + 1 && !spec_stays(old(world), j)) implies #[trigger] world.spec_row_same(
                old(world),
                j,
            ) by {
                assert(before.spec_row_same(old(world), j));
                if !stays {
                    assert(world.spec_row_same(&before, j));
                }
            }
        }
        i += 1;
    }
}

/// Where entity `e` stands once floor `index` has been left: nowhere,
/// unless it is the player or had no position.
pub open spec fn spec_frozen_position(positions: Seq<Option<Position>>, player: Entity, e: int) -> Option<Position> {
    if e == player.id {
        positions[e]
    } else {
        None
    }
}

/// What is remembered of entity `e` once floor `index` has been left:
/// where it stood there, if it stood anywhere and is not the player.
pub open spec fn spec_frozen_memory(
    positions: Seq<Option<Position>>,
    others: Seq<Option<OtherLevelPosition>>,
    player: Entity,
    index: u32,
    e: int,
) -> Option<OtherLevelPosition> {
    match positions[e] {
        Some(p) => if e == player.id {
            others[e]
        } else {
            Some(OtherLevelPosition { index, x: p.x, y: p.y })
        },
        None => others[e],
    }
}

/// Entity `e` is remembered on floor `index` and is not the player.
pub open spec fn spec_returns(others: Seq<Option<OtherLevelPosition>>, player: Entity, index: u32, e: int) -> bool {
    e != player.id && (others[e] matches Some(o) && o.index == index)
}

/// Where entity `e` stands once floor `index` has been entered again:
/// where it is remembered to have stood there.
pub open spec fn spec_thawed_position(
    positions: Seq<Option<Position>>,
    others: Seq<Option<OtherLevelPosition>>,
    player: Entity,
    index: u32,
    e: int,
) -> Option<Position> {
    if spec_returns(others, player, index, e) {
        Some(Position { x: others[e].unwrap().x, y: others[e].unwrap().y })
    } else {
        positions[e]
    }
}

/// What is remembered of entity `e` once floor `index` has been entered
/// again: nothing, if it returned; what was remembered before, otherwise.
pub open spec fn spec_thawed_memory(
    others: Seq<Option<OtherLevelPosition>>,
    player: Entity,
    index: u32,
    e: int,
) -> Option<OtherLevelPosition> {
    if spec_returns(others, player, index, e) {
        None
    } else {
        others[e]
    }
}

/// Leaves floor `index`: every entity but the player that stands
/// somewhere stops standing there, and where it stood is remembered.
pub fn freeze_floor(
    index: u32,
    player: Entity,
    positions: &mut Table<Position>,
    other_level_positions: &mut Table<OtherLevelPosition>,
)
    requires
        old(other_level_positions).len() == old(positions).len(),
    ensures
        final(positions).len() == old(positions).len(),
        final(other_level_positions).len() == old(positions).len(),
        forall|e: int|
            0 <= e < old(positions).len() ==> #[trigger] final(positions)[e] == spec_frozen_position(
                old(positions)@,
                player,
                e,
            ),
        forall|e: int|
            0 <= e < old(positions).len() ==> #[trigger] final(other_level_positions)[e] == spec_frozen_memory(
                old(positions)@,
                old(other_level_positions)@,
                player,
                index,
                e,
            ),
{
    let n: usize = positions.len();
    let mut e: usize = 0;
    while e < n
        invariant
            e <= n,
            positions.len() == n,
            other_level_positions.len() == n,
            old(positions).len() == n,
            forall|j: int|
                0 <= j < n ==> #[trigger] positions[j] == (if j < e {
                    spec_frozen_position(old(positions)@, player, j)
                } else {
                    old(positions)[j]
                }),
            forall|j: int|
                0 <= j < n ==> #[trigger] other_level_positions[j] == (if j < e {
                    spec_frozen_memory(old(positions)@, old(other_level_positions)@, player, index, j)
                } else {
                    old(other_level_positions)[j]
                }),
        decreases n - e,
    {
        match positions[e] {
            Some(p) => {
                if e != player.id {
                    other_level_positions.set(e, Some(OtherLevelPosition { index, x: p.x, y: p.y }));
                    positions.set(e, None);
                }
            },
            None => {},
        }
        e += 1;
    }
}

/// Enters floor `index` again: every entity but the player that is
/// remembered to have stood there stands there again, and is no longer
/// remembered.
pub fn thaw_floor(
    index: u32,
    player: Entity,
    positions: &mut Table<Position>,
    other_level_positions: &mut Table<OtherLevelPosition>,
)
    requires
        old(other_level_positions).len() == old(positions).len(),
    ensures
        final(positions).len() == old(positions).len(),
        final(other_level_positions).len() == old(positions).len(),
        forall|e: int|
            0 <= e < old(positions).len() ==> #[trigger] final(positions)[e] == spec_thawed_position(
                old(positions)@,
                old(other_level_positions)@,
                player,
                index,
                e,
            ),
        forall|e: int|
            0 <= e < old(positions).len() ==> #[trigger] final(other_level_positions)[e] == spec_thawed_memory(
                old(other_level_positions)@,
                player,
                index,
                e,
            ),
{
    let n: usize = positions.len();
    let mut e: usize = 0;
    while e < n
        invariant
            e <= n,
            positions.len() == n,
            other_level_positions.len() == n,
            old(positions).len() == n,
            forall|j: int|
                0 <= j < n ==> #[trigger] positions[j] == (if j < e {
                    spec_thawed_position(old(positions)@, old(other_level_positions)@, player, index, j)
                } else {
                    old(positions)[j]
                }),
            forall|j: int|
                0 <= j < n ==> #[trigger] other_level_positions[j] == (if j < e {
                    spec_thawed_memory(old(other_level_positions)@, player, index, j)
                } else {
                    old(other_level_positions)[j]
                }),
        decreases n - e,
    {
        match other_level_positions[e] {
            Some(o) => {
                if e != player.id && o.index == index {
                    positions.set(e, Some(Position { x: o.x, y: o.y }));
                    other_level_positions.set(e, None);
                }
            },
            None => {},
        }
        e += 1;
    }
}

/// Leaving a floor and entering it again puts everyone back where they
/// stood, as long as no one was remembered on that floor before; and of
/// those who stood there nothing is remembered afterwards.
pub proof fn lemma_freeze_then_thaw(
    positions: Seq<Option<Position>>,
    others: Seq<Option<OtherLevelPosition>>,
    player: Entity,
    index: u32,
    e: int,
)
    requires
        0 <= e < positions.len(),
        positions.len() == others.len(),
        forall|j: int| 0 <= j < others.len() ==> !spec_returns(others, player, index, j),
    ensures
        ({
            let frozen = Seq::new(positions.len(), |j: int| spec_frozen_position(positions, player, j));
            let memory = Seq::new(
                positions.len(),
                |j: int| spec_frozen_memory(positions, others, player, index, j),
            );
            &&& spec_thawed_position(frozen, memory, player, index, e) == positions[e]
            &&& spec_thawed_memory(memory, player, index, e) == (if positions[e] is Some && e != player.id {
                None
            } else {
                others[e]
            })
        }),
{
    assert(!spec_returns(others, player, index, e));
}

/// The options of the floor with index `floor_index`: the village on floor
/// zero, a dungeon floor with stairs both ways and debris below it.
pub open spec fn spec_floor_options(floor_index: u32) -> MapOptions {
    if floor_index == 0 {
        MapOptions {
            index: floor_index,
            width: VILLAGE_WIDTH,
            height: VILLAGE_HEIGHT,
            has_upstairs: false,
            has_downstairs: true,
            has_debris: false,
        }
    } else {
        MapOptions {
            index: floor_index,
            width: FLOOR_SIZE,
            height: FLOOR_SIZE,
            has_upstairs: true,
            has_downstairs: true,
            has_debris: true,
        }
    }
}

/// The options of the floor with index `floor_index`.
pub fn floor_options(floor_index: u32) -> (options: MapOptions)
    ensures
        options == spec_floor_options(floor_index),
{
    if floor_index == 0 {
        MapOptions {
            index: floor_index,
            width: VILLAGE_WIDTH,
            height: VILLAGE_HEIGHT,
            has_upstairs: false,
            has_downstairs: true,
            has_debris: false,
        }
    } else {
        MapOptions {
            index: floor_index,
            width: FLOOR_SIZE,
            height: FLOOR_SIZE,
            has_upstairs: true,
            has_downstairs: true,
            has_debris: true,
        }
    }
}

/// The map is the floor with index `floor_index` as the generator makes
/// it: the village on floor zero, rooms and corridors below.
pub open spec fn spec_floor(map: &GameMap, floor_index: u32) -> bool {
    if floor_index == 0 {
        spec_village(map, spec_floor_options(floor_index))
    } else {
        spec_generated(map, spec_floor_options(floor_index)) && spec_generated_exactly(
            map,
            spec_floor_options(floor_index),
        )
    }
}

/// Puts the entity that the player steers on the map's spawn point,
/// making the player first if there is none yet.
pub fn place_player(world: &mut World, map: &GameMap) -> (player: Entity)
    requires
        old(world).wf(),
        map.wf(),
        map.player_spawn_index is Some,
        old(world).player matches Some(p) ==> p.id < old(world).spec_len(),
    ensures
        final(world).wf(),
        final(world).player == Some(player),
        player.id < final(world).spec_len(),
        old(world).player matches Some(p) ==> player == p && final(world).spec_len() == old(world).spec_len(),
        old(world).player is None ==> player.id == old(world).spec_len() && final(world).spec_len() == old(world).spec_len() + 1,
        (old(world).player is None || old(world).positions[player.id as int] is Some) ==> (final(world).positions[player.id as int] matches Some(at) && map.spec_in_bounds(at.x as int, at.y as int)
            && map.spec_idx(at.x as int, at.y as int) == map.player_spawn_index.unwrap()),
        forall|j: int|
            0 <= j < old(world).spec_len() && j != player.id ==> #[trigger] final(world).spec_row_same(
                old(world),
                j,
            ),
        old(world).player is Some ==> final(world).spec_row_same_but_position(old(world), player.id as int),
        old(world).player is Some && old(world).positions[player.id as int] is None ==> final(world).positions[player.id as int] is None,
{
    let (x, y) = map.idx_xy(map.player_spawn_index.unwrap());
    match world.player {
        Some(p) => {
            match world.positions[p.id] {
                Some(_) => {
                    world.positions.set(p.id, Some(Position { x, y }));
                },
                None => {},
            }
            assert forall|j: int| 0 <= j < old(world).spec_len() && j != p.id implies #[trigger] world.spec_row_same(
                old(world),
                j,
            ) by {}
            p
        },
        None => spawn_player(world, x, y),
    }
}

/// Where the merchant stands in the village.
pub const MERCHANT_AT: (i32, i32) = (40, 10);

/// Where the captain stands in the village.
pub const CAPTAIN_AT: (i32, i32) = (60, 25);

/// Row `j` is an item or a monster of a kind found on floor `floor`, on
/// the floor of `room`.
pub open spec fn spec_made_in(
    world: &World,
    j: int,
    items: Seq<ItemConfig>,
    monsters: Seq<MonsterConfig>,
    floor: u32,
    room: Rect,
) -> bool {
    spec_item_made(world, j, items, floor, room) || spec_monster_made(world, j, monsters, floor, room)
}

/// Row `j` is an item or a monster of a kind found on floor `floor`, on
/// the floor of one of the rooms but the first.
pub open spec fn spec_peopled(
    world: &World,
    j: int,
    items: Seq<ItemConfig>,
    monsters: Seq<MonsterConfig>,
    floor: u32,
    rooms: Seq<Rect>,
) -> bool {
    exists|k: int| 0 < k < rooms.len() && #[trigger] spec_made_in(world, j, items, monsters, floor, rooms[k])
}

/// What has been made in a room is still there while its row stays as it
/// is.
pub proof fn lemma_made_stays(
    a: &World,
    b: &World,
    j: int,
    items: Seq<ItemConfig>,
    monsters: Seq<MonsterConfig>,
    floor: u32,
    room: Rect,
)
    requires
        b.spec_row_same(a, j),
        spec_made_in(a, j, items, monsters, floor, room),
    ensures
        spec_made_in(b, j, items, monsters, floor, room),
{
    if spec_item_made(a, j, items, floor, room) {
        let (k, at) = choose|k: int, at: Position|
            0 <= k < items.len() && spec_found_on(items[k].spawn, floor) && room.spec_interior(
                at.x as int,
                at.y as int,
            ) && #[trigger] spec_item_row(a, j, &items[k], at);
        assert(spec_item_row(b, j, &items[k], at));
    } else {
        let (k, at) = choose|k: int, at: Position|
            0 <= k < monsters.len() && spec_found_on(monsters[k].spawn, floor) && room.spec_interior(
                at.x as int,
                at.y as int,
            ) && #[trigger] spec_monster_row(a, j, &monsters[k], at);
        assert(spec_monster_row(b, j, &monsters[k], at));
    }
}

/// The rows from `base` on are the village's people: the merchant, one
/// ware of each kind of item, all of them for sale, and the captain.
pub open spec fn spec_village_peopled(world: &World, base: int, items: Seq<ItemConfig>) -> bool {
    &&& base + items.len() + 2 <= world.spec_len()
    &&& spec_townsman_row(
        world,
        base,
        "Merchant"@,
        'M',
        Position { x: MERCHANT_AT.0, y: MERCHANT_AT.1 },
    )
    &&& (world.vendors[base] matches Some(v) && v.items@.len() == items.len() && forall|k: int|
        0 <= k < items.len() ==> (#[trigger] v.items@[k]).id == base + 1 + k)
    &&& forall|k: int| 0 <= k < items.len() ==> #[trigger] spec_ware_row(world, base + 1 + k, &items[k])
    &&& spec_townsman_row(
        world,
        base + 1 + items.len(),
        "Captain"@,
        'C',
        Position { x: CAPTAIN_AT.0, y: CAPTAIN_AT.1 },
    )
}

/// Peoples the village: the merchant, who sells one item of each kind, and
/// the captain.
pub fn people_village(world: &mut World, items: &Vec<ItemConfig>)
    requires
        old(world).wf(),
    ensures
        final(world).wf(),
        final(world).player == old(world).player,
        final(world).spec_len() == old(world).spec_len() + items@.len() + 2,
        spec_village_peopled(final(world), old(world).spec_len(), items@),
        forall|j: int| 0 <= j < old(world).spec_len() ==> #[trigger] final(world).spec_row_same(old(world), j),
{
    let ghost base = world.spec_len();
    let merchant: Entity = spawn_npc_merchant(world, MERCHANT_AT.0, MERCHANT_AT.1);
    let ghost with_merchant = *world;
    stock_vendor(world, merchant, items);
    let ghost stocked = *world;
    let _ = spawn_npc_captain(world, CAPTAIN_AT.0, CAPTAIN_AT.1);
    proof {
        assert forall|j: int| 0 <= j < base implies #[trigger] world.spec_row_same(old(world), j) by {
            assert(with_merchant.spec_row_same(old(world), j));
            assert(stocked.spec_row_same(&with_merchant, j));
            assert(world.spec_row_same(&stocked, j));
        }
        assert(world.spec_row_same(&stocked, base));
        assert(stocked.spec_row_same_but_wares(&with_merchant, base));
        assert forall|k: int| 0 <= k < items@.len() implies #[trigger] spec_ware_row(
            world,
            base + 1 + k,
            &items@[k],
        ) by {
            assert(world.spec_row_same(&stocked, base + 1 + k));
            assert(spec_ware_row(&stocked, base + 1 + k, &items@[k]));
        }
        let v = world.vendors[base].unwrap();
        assert forall|k: int| 0 <= k < items@.len() implies (#[trigger] v.items@[k]).id == base + 1 + k by {
            assert(stocked.vendors[base].unwrap().items@[0 + k].id == base + 1 + k);
        }
    }
}

/// Whether some kind of item is found on floor `floor`.
pub open spec fn spec_items_found(items: Seq<ItemConfig>, floor: u32) -> bool {
    spec_spawn_entries(spec_item_spawns(items), floor, items.len() as int).len() > 0
}

/// Whether some kind of monster is found on floor `floor`.
pub open spec fn spec_monsters_found(monsters: Seq<MonsterConfig>, floor: u32) -> bool {
    spec_spawn_entries(spec_monster_spawns(monsters), floor, monsters.len() as int).len() > 0
}

/// How many items are made for a room: one where a kind is found on the
/// floor, none otherwise.
pub open spec fn spec_items_per_room(items: Seq<ItemConfig>, floor: u32) -> int {
    if spec_items_found(items, floor) {
        1
    } else {
        0
    }
}

/// How many entities are made for a room: an item and a monster, each only
/// where a kind is found on the floor.
pub open spec fn spec_made_per_room(items: Seq<ItemConfig>, monsters: Seq<MonsterConfig>, floor: u32) -> int {
    spec_items_per_room(items, floor) + (if spec_monsters_found(monsters, floor) {
        1int
    } else {
        0int
    })
}

/// The row of the first entity made for room `k`, where the first entity
/// made at all gets row `base` and `per` entities are made for each room.
pub open spec fn spec_first_row_of(base: int, per: int, k: int) -> int {
    base + (k - 1) * per
}

/// Room `k` has got what is drawn for it: its item in the first of its
/// rows and its monster in the row after it, each only where a kind is
/// found on the floor, and both on the floor of the room.
pub open spec fn spec_room_peopled(
    world: &World,
    base: int,
    items: Seq<ItemConfig>,
    monsters: Seq<MonsterConfig>,
    floor: u32,
    rooms: Seq<Rect>,
    k: int,
) -> bool {
    let first = spec_first_row_of(base, spec_made_per_room(items, monsters, floor), k);
    &&& spec_items_found(items, floor) ==> spec_item_made(world, first, items, floor, rooms[k])
    &&& spec_monsters_found(monsters, floor) ==> spec_monster_made(
        world,
        first + spec_items_per_room(items, floor),
        monsters,
        floor,
        rooms[k],
    )
}

/// How many entities are made for a floor with the given number of rooms:
/// those of every room but the first.
pub open spec fn spec_headcount(rooms: int, per: int) -> int {
    if rooms > 1 {
        (rooms - 1) * per
    } else {
        0
    }
}

/// An item that has been made in a room is still there while its row stays
/// as it is.
pub proof fn lemma_item_made_stays(a: &World, b: &World, j: int, items: Seq<ItemConfig>, floor: u32, room: Rect)
    requires
        b.spec_row_same(a, j),
        spec_item_made(a, j, items, floor, room),
    ensures
        spec_item_made(b, j, items, floor, room),
{
    let (k, at) = choose|k: int, at: Position|
        0 <= k < items.len() && spec_found_on(items[k].spawn, floor) && room.spec_interior(at.x as int, at.y as int)
            && #[trigger] spec_item_row(a, j, &items[k], at);
    assert(spec_item_row(b, j, &items[k], at));
}

/// A monster that has been made in a room is still there while its row
/// stays as it is.
pub proof fn lemma_monster_made_stays(
    a: &World,
    b: &World,
    j: int,
    monsters: Seq<MonsterConfig>,
    floor: u32,
    room: Rect,
)
    requires
        b.spec_row_same(a, j),
        spec_monster_made(a, j, monsters, floor, room),
    ensures
        spec_monster_made(b, j, monsters, floor, room),
{
    let (k, at) = choose|k: int, at: Position|
        0 <= k < monsters.len() && spec_found_on(monsters[k].spawn, floor) && room.spec_interior(
            at.x as int,
            at.y as int,
        ) && #[trigger] spec_monster_row(a, j, &monsters[k], at);
    assert(spec_monster_row(b, j, &monsters[k], at));
}

/// A room that has been peopled stays peopled while the rows from `base`
/// on stay as they are.
pub proof fn lemma_room_stays_peopled(
    a: &World,
    b: &World,
    base: int,
    items: Seq<ItemConfig>,
    monsters: Seq<MonsterConfig>,
    floor: u32,
    rooms: Seq<Rect>,
    k: int,
)
    requires
        1 <= k,
        0 <= base,
        spec_room_peopled(a, base, items, monsters, floor, rooms, k),
        forall|j: int| base <= j < a.spec_len() ==> #[trigger] b.spec_row_same(a, j),
        spec_first_row_of(base, spec_made_per_room(items, monsters, floor), k) + spec_made_per_room(
            items,
            monsters,
            floor,
        ) <= a.spec_len(),
    ensures
        spec_room_peopled(b, base, items, monsters, floor, rooms, k),
{
    let per = spec_made_per_room(items, monsters, floor);
    let first = spec_first_row_of(base, per, k);
    assert(0 <= (k - 1) * per) by (nonlinear_arith)
        requires
            1 <= k,
            0 <= per,
    ;
    if spec_items_found(items, floor) {
        assert(b.spec_row_same(a, first));
        lemma_item_made_stays(a, b, first, items, floor, rooms[k]);
    }
    if spec_monsters_found(monsters, floor) {
        let row = first + spec_items_per_room(items, floor);
        assert(b.spec_row_same(a, row));
        lemma_monster_made_stays(a, b, row, monsters, floor, rooms[k]);
    }
}

/// Peoples a dungeon floor: for every room but the first an item and a
/// monster are drawn from the kinds found on the floor, and put on the
/// room's floor, the item in the row before the monster's, room after
/// room. Where no kind of item, or of monster, is found on the floor, none
/// is made.
pub fn people_dungeon(
    rng: &mut rltk::RandomNumberGenerator,
    floor_index: u32,
    map: &GameMap,
    world: &mut World,
    items: &Vec<ItemConfig>,
    monsters: &Vec<MonsterConfig>,
)
    requires
        old(world).wf(),
        spec_rooms_ok(map.rooms@, map.width as int, map.height as int),
    ensures
        final(world).wf(),
        final(world).player == old(world).player,
        old(world).spec_len() <= final(world).spec_len(),
        forall|j: int| 0 <= j < old(world).spec_len() ==> #[trigger] final(world).spec_row_same(old(world), j),
        forall|j: int|
            old(world).spec_len() <= j < final(world).spec_len() ==> #[trigger] spec_peopled(
                final(world),
                j,
                items@,
                monsters@,
                floor_index,
                map.rooms@,
            ),
        final(world).spec_len() == old(world).spec_len() + spec_headcount(
            map.rooms@.len() as int,
            spec_made_per_room(items@, monsters@, floor_index),
        ),
        forall|r: int|
            0 < r < map.rooms@.len() ==> #[trigger] spec_room_peopled(
                final(world),
                old(world).spec_len(),
                items@,
                monsters@,
                floor_index,
                map.rooms@,
                r,
            ),
{
    let ghost base = world.spec_len();
    let ghost per = spec_made_per_room(items@, monsters@, floor_index);
    let mut k: usize = 1;
    while k < map.rooms.len()
        invariant
            1 <= k,
            k <= map.rooms.len() || k == 1,
            base == old(world).spec_len(),
            per == spec_made_per_room(items@, monsters@, floor_index),
            world.spec_len() == spec_first_row_of(base, per, k as int),
            forall|r: int|
                0 < r < k ==> #[trigger] spec_room_peopled(
                    world,
                    base,
                    items@,
                    monsters@,
                    floor_index,
                    map.rooms@,
                    r,
                ),
            world.wf(),
            world.player == old(world).player,
            old(world).spec_len() <= world.spec_len(),
            spec_rooms_ok(map.rooms@, map.width as int, map.height as int),
            forall|j: int| 0 <= j < old(world).spec_len() ==> #[trigger] world.spec_row_same(old(world), j),
            forall|j: int|
                old(world).spec_len() <= j < world.spec_len() ==> #[trigger] spec_peopled(
                    world,
                    j,
                    items@,
                    monsters@,
                    floor_index,
                    map.rooms@,
                ),
        decreases map.rooms.len() - k,
    {
        let room: Rect = map.rooms[k];
        assert(spec_room_ok(room, map.width as int, map.height as int));
        let ghost before = *world;
        let _ = spawn_weighted_item(world, rng, items, floor_index, &room);
        let ghost between = *world;
        let _ = spawn_weighted_monster(world, rng, monsters, floor_index, &room);
        proof {
            assert forall|j: int| 0 <= j < old(world).spec_len() implies #[trigger] world.spec_row_same(
                old(world),
                j,
            ) by {
                assert(before.spec_row_same(old(world), j));
                assert(between.spec_row_same(&before, j));
                assert(world.spec_row_same(&between, j));
            }
            assert forall|j: int| old(world).spec_len() <= j < world.spec_len() implies #[trigger] spec_peopled(
                world,
                j,
                items@,
                monsters@,
                floor_index,
                map.rooms@,
            ) by {
                if j < before.spec_len() {
                    assert(spec_peopled(&before, j, items@, monsters@, floor_index, map.rooms@));
                    let r = choose|r: int|
                        0 < r < map.rooms@.len() && #[trigger] spec_made_in(
                            &before,
                            j,
                            items@,
                            monsters@,
                            floor_index,
                            map.rooms@[r],
                        );
                    assert(between.spec_row_same(&before, j));
                    lemma_made_stays(&before, &between, j, items@, monsters@, floor_index, map.rooms@[r]);
                    assert(world.spec_row_same(&between, j));
                    lemma_made_stays(&between, world, j, items@, monsters@, floor_index, map.rooms@[r]);
                    assert(spec_made_in(world, j, items@, monsters@, floor_index, map.rooms@[r]));
                } else if j < between.spec_len() {
                    assert(spec_item_made(&between, j, items@, floor_index, room));
                    assert(spec_made_in(&between, j, items@, monsters@, floor_index, map.rooms@[k as int]));
                    assert(world.spec_row_same(&between, j));
                    lemma_made_stays(&between, world, j, items@, monsters@, floor_index, map.rooms@[k as int]);
                } else {
                    assert(spec_monster_made(world, j, monsters@, floor_index, room));
                    assert(spec_made_in(world, j, items@, monsters@, floor_index, map.rooms@[k as int]));
                }
            }
            assert(spec_first_row_of(base, per, k + 1) == spec_first_row_of(base, per, k as int) + per)
                by (nonlinear_arith)
                requires
                    spec_first_row_of(base, per, k + 1) == base + ((k + 1) - 1) * per,
                    spec_first_row_of(base, per, k as int) == base + (k - 1) * per,
            ;
            assert forall|j: int| 0 <= j < before.spec_len() implies #[trigger] world.spec_row_same(&before, j) by {
                assert(between.spec_row_same(&before, j));
                assert(world.spec_row_same(&between, j));
            }
            assert forall|r: int| 0 < r < k + 1 implies #[trigger] spec_room_peopled(
                world,
                base,
                items@,
                monsters@,
                floor_index,
                map.rooms@,
                r,
            ) by {
                if r < k {
                    assert(spec_first_row_of(base, per, r) + per <= spec_first_row_of(base, per, k as int))
                        by (nonlinear_arith)
                        requires
                            1 <= r < k,
                            0 <= per,
                            spec_first_row_of(base, per, r) == base + (r - 1) * per,
                            spec_first_row_of(base, per, k as int) == base + (k - 1) * per,
                    ;
                    lemma_room_stays_peopled(&before, world, base, items@, monsters@, floor_index, map.rooms@, r);
                } else {
                    if spec_items_found(items@, floor_index) {
                        assert(spec_item_made(&between, before.spec_len(), items@, floor_index, room));
                        assert(world.spec_row_same(&between, before.spec_len()));
                        lemma_item_made_stays(&between, world, before.spec_len(), items@, floor_index, room);
                    }
                }
            }
        }
        k += 1;
    }
    proof {
        if map.rooms@.len() > 1 {
            assert(k == map.rooms@.len());
        } else {
            assert(k == 1);
            assert((1 - 1) * per == 0) by (nonlinear_arith);
        }
    }
}

/// Makes the floor with index `floor_index` and peoples it: the village on
/// floor zero, with its merchant and its captain; below it rooms and
/// corridors, with an item and a monster drawn for every room but the
/// first. The player is put on the floor's spawn point, and is made first
/// where there is none yet.
pub fn generate_floor(
    rng: &mut rltk::RandomNumberGenerator,
    floor_index: u32,
    world: &mut World,
    items: &Vec<ItemConfig>,
    monsters: &Vec<MonsterConfig>,
) -> (map: GameMap)
    requires
        old(world).wf(),
        old(world).player matches Some(p) ==> p.id < old(world).spec_len(),
    ensures
        spec_floor(&map, floor_index),
        final(world).wf(),
        final(world).player matches Some(p) && p.id < final(world).spec_len(),
        old(world).player is Some ==> final(world).player == old(world).player,
        old(world).player is None ==> final(world).player == Some(
            Entity { id: (final(world).spec_len() - 1) as usize },
        ),
        old(world).spec_len() <= final(world).spec_len(),
        final(world).positions[final(world).player.unwrap().id as int] matches Some(at) ==> map.spec_in_bounds(
            at.x as int,
            at.y as int,
        ) && Some(map.spec_idx(at.x as int, at.y as int) as usize) == map.player_spawn_index,
        forall|j: int|
            0 <= j < old(world).spec_len() && Some(Entity { id: j as usize }) != old(world).player
                ==> #[trigger] final(world).spec_row_same(old(world), j),
        floor_index == 0 ==> spec_village_peopled(final(world), old(world).spec_len(), items@),
        floor_index != 0 ==> forall|j: int|
            old(world).spec_len() <= j < final(world).spec_len() && Some(Entity { id: j as usize }) != final(world).player ==> #[trigger] spec_peopled(final(world), j, items@, monsters@, floor_index, map.rooms@),
        floor_index != 0 ==> final(world).spec_len() == old(world).spec_len() + spec_headcount(
            map.rooms@.len() as int,
            spec_made_per_room(items@, monsters@, floor_index),
        ) + (if old(world).player is None {
            1int
        } else {
            0int
        }),
        floor_index != 0 ==> forall|r: int|
            0 < r < map.rooms@.len() ==> #[trigger] spec_room_peopled(
                final(world),
                old(world).spec_len(),
                items@,
                monsters@,
                floor_index,
                map.rooms@,
                r,
            ),
{
    let options: MapOptions = floor_options(floor_index);
    let map: GameMap = if floor_index == 0 {
        let village: GameMap = GameMap::new_map_oakwood(options);
        people_village(world, items);
        village
    } else {
        let made: GameMap = GameMap::new_map_dynamic_rooms_and_corridors(rng, options);
        people_dungeon(rng, floor_index, &made, world, items, monsters);
        made
    };
    let ghost peopled = *world;
    let player: Entity = place_player(world, &map);
    proof {
        assert forall|j: int|
            0 <= j < old(world).spec_len() && Some(Entity { id: j as usize }) != old(world).player implies #[trigger] world.spec_row_same(old(world), j) by {
            assert(peopled.spec_row_same(old(world), j));
            assert(world.spec_row_same(&peopled, j));
        }
        if floor_index == 0 {
            let base = old(world).spec_len();
            assert(world.spec_row_same(&peopled, base));
            assert(world.spec_row_same(&peopled, base + 1 + items@.len()));
            assert forall|k: int| 0 <= k < items@.len() implies #[trigger] spec_ware_row(
                world,
                base + 1 + k,
                &items@[k],
            ) by {
                assert(world.spec_row_same(&peopled, base + 1 + k));
                assert(spec_ware_row(&peopled, base + 1 + k, &items@[k]));
            }
        } else {
            assert forall|j: int|
                old(world).spec_len() <= j < world.spec_len() && Some(Entity { id: j as usize })
                    != world.player implies #[trigger] spec_peopled(
                world,
                j,
                items@,
                monsters@,
                floor_index,
                map.rooms@,
            ) by {
                assert(j < peopled.spec_len());
                assert(spec_peopled(&peopled, j, items@, monsters@, floor_index, map.rooms@));
                let r = choose|r: int|
                    0 < r < map.rooms@.len() && #[trigger] spec_made_in(
                        &peopled,
                        j,
                        items@,
                        monsters@,
                        floor_index,
                        map.rooms@[r],
                    );
                assert(world.spec_row_same(&peopled, j));
                lemma_made_stays(&peopled, world, j, items@, monsters@, floor_index, map.rooms@[r]);
            }
            let base = old(world).spec_len();
            let per = spec_made_per_room(items@, monsters@, floor_index);
            assert forall|r: int| 0 < r < map.rooms@.len() implies #[trigger] spec_room_peopled(
                world,
                base,
                items@,
                monsters@,
                floor_index,
                map.rooms@,
                r,
            ) by {
                assert(spec_room_peopled(&peopled, base, items@, monsters@, floor_index, map.rooms@, r));
                assert((r - 1) * per + per <= (map.rooms@.len() - 1) * per) by (nonlinear_arith)
                    requires
                        0 < r < map.rooms@.len(),
                        0 <= per,
                ;
                lemma_room_stays_peopled(&peopled, world, base, items@, monsters@, floor_index, map.rooms@, r);
            }
        }
    }
    map
}

/// The index of the floor below or above floor `floor_index`, where there
/// is one.
pub open spec fn spec_next_floor(floor_index: u32, is_descending: bool) -> Option<u32> {
    if is_descending {
        if floor_index < u32::MAX {
            Some((floor_index + 1) as u32)
        } else {
            None
        }
    } else {
        if floor_index > 0 {
            Some((floor_index - 1) as u32)
        } else {
            None
        }
    }
}

/// The map has the terrain, rooms and spawn point of the floor with index
/// `floor_index` as the generator makes it.
pub open spec fn spec_floor_plan_of(map: &GameMap, floor_index: u32) -> bool {
    exists|made: GameMap| #[trigger] spec_floor(&made, floor_index) && map.same_terrain(&made)
}

/// Where entity `e`, who is not the player, stands once the player has gone
/// from floor `from` to floor `to`: where it is remembered to have stood on
/// `to`, if that floor was entered before and the entity is remembered
/// there, and nowhere otherwise.
pub open spec fn spec_position_after_switch(
    positions: Seq<Option<Position>>,
    others: Seq<Option<OtherLevelPosition>>,
    player: Entity,
    from: u32,
    to: u32,
    kept: bool,
    e: int,
) -> Option<Position> {
    let memory = spec_frozen_memory(positions, others, player, from, e);
    if kept && (memory matches Some(o) && o.index == to) {
        Some(Position { x: memory.unwrap().x, y: memory.unwrap().y })
    } else {
        None
    }
}

/// What is remembered of entity `e`, who is not the player, once the player
/// has gone from floor `from` to floor `to`: where it stood on `from`, or
/// what was remembered of it before; nothing, if it has come back to stand
/// on `to`.
pub open spec fn spec_memory_after_switch(
    positions: Seq<Option<Position>>,
    others: Seq<Option<OtherLevelPosition>>,
    player: Entity,
    from: u32,
    to: u32,
    kept: bool,
    e: int,
) -> Option<OtherLevelPosition> {
    let memory = spec_frozen_memory(positions, others, player, from, e);
    if kept && (memory matches Some(o) && o.index == to) {
        None
    } else {
        memory
    }
}

/// Of the map `entered` everything but the occupant lists is as in `kept`.
pub open spec fn spec_restored(entered: &GameMap, kept: &GameMap) -> bool {
    &&& entered.same_terrain(kept)
    &&& entered.revealed_tiles@ == kept.revealed_tiles@
    &&& entered.blocked_tiles@ == kept.blocked_tiles@
    &&& entered.bloodstains@ == kept.bloodstains@
}

/// A floor that was kept as it was left, and is entered again as it was
/// kept, shows every tile that had been revealed of it, and every
/// bloodstain.
pub proof fn lemma_revealed_across_floors(left: &GameMap, kept: &GameMap, entered: &GameMap)
    requires
        kept.spec_equal(left),
        spec_restored(entered, kept),
    ensures
        entered.keeps_revealed(left),
        entered.same_terrain(left),
        entered.bloodstains@ == left.bloodstains@,
{
}

/// Takes the player from the floor with the map `current` to the floor
/// below or above.
///
/// The floor that is left is kept as it is, with what has been revealed of
/// it, in place of what was kept under its index. Everyone else on it stops
/// standing there and is remembered. A floor that was entered before comes
/// back as it was kept, and with those who are remembered there; any other
/// floor is generated, peopled, and kept for the next visit. The player is
/// put on the spawn point of the floor entered, whose occupant lists are
/// empty until the index is rebuilt. Returns the map of the floor entered
/// and its index, or nothing where there is no floor in that direction.
pub fn switch_floor(
    dungeon: &mut Dungeon,
    world: &mut World,
    rng: &mut rltk::RandomNumberGenerator,
    current: &GameMap,
    is_descending: bool,
    items: &Vec<ItemConfig>,
    monsters: &Vec<MonsterConfig>,
) -> (entered: Option<(GameMap, u32)>)
    requires
        old(dungeon).wf(),
        old(world).wf(),
        current.wf(),
        old(world).player matches Some(p) && p.id < old(world).spec_len(),
    ensures
        final(dungeon).wf(),
        final(world).wf(),
        final(world).player == old(world).player,
        old(world).spec_len() <= final(world).spec_len(),
        entered is None <==> spec_next_floor(current.index, is_descending) is None,
        entered is None ==> final(world).spec_len() == old(world).spec_len() && final(dungeon).maps@ == old(dungeon).maps@,
        entered matches Some(pair) ==> Some(pair.1) == spec_next_floor(current.index, is_descending) && pair.0.wf()
            && pair.0.index == pair.1,
        entered matches Some(pair) ==> forall|t: int|
            0 <= t < pair.0.tile_content.len() ==> (#[trigger] pair.0.tile_content[t])@.len() == 0,
        entered matches Some(pair) ==> (match old(dungeon).spec_get(pair.1) {
            Some(kept) => spec_restored(&pair.0, &kept) && final(world).spec_len() == old(world).spec_len(),
            None => spec_floor_plan_of(&pair.0, pair.1),
        }),
        entered matches Some(pair) ==> (final(dungeon).spec_get(pair.1) matches Some(kept) && pair.0.same_terrain(
            &kept,
        )),
        entered is Some ==> (final(dungeon).spec_get(current.index) matches Some(left) && left.spec_equal(current)),
        entered matches Some(pair) ==> forall|index: u32|
            index != pair.1 && index != current.index ==> final(dungeon).spec_get(index) == old(dungeon).spec_get(
                index,
            ),
        entered matches Some(pair) ==> forall|e: int|
            0 <= e < old(world).spec_len() && e != old(world).player.unwrap().id ==> #[trigger] final(world).positions[e]
                == spec_position_after_switch(
                old(world).positions@,
                old(world).other_level_positions@,
                old(world).player.unwrap(),
                current.index,
                pair.1,
                old(dungeon).spec_get(pair.1) is Some,
                e,
            ),
        entered matches Some(pair) ==> forall|e: int|
            0 <= e < old(world).spec_len() && e != old(world).player.unwrap().id
                ==> #[trigger] final(world).other_level_positions[e] == spec_memory_after_switch(
                old(world).positions@,
                old(world).other_level_positions@,
                old(world).player.unwrap(),
                current.index,
                pair.1,
                old(dungeon).spec_get(pair.1) is Some,
                e,
            ),
        entered matches Some(pair) ==> final(world).positions[old(world).player.unwrap().id as int] == (
        match pair.0.player_spawn_index {
            Some(spawn) => Some(
                Position { x: (spawn % (pair.0.width as usize)) as i32, y: (spawn / (pair.0.width as usize)) as i32 },
            ),
            None => old(world).positions[old(world).player.unwrap().id as int],
        }),
{
    let floor_index: u32 = current.index;
    let next: u32 = if is_descending {
        if floor_index == u32::MAX {
            return None;
        }
        floor_index + 1
    } else {
        if floor_index == 0 {
            return None;
        }
        floor_index - 1
    };
    let player: Entity = world.player.unwrap();
    let existing: Option<GameMap> = dungeon.get_map(next);
    dungeon.add_map(current);
    freeze_floor(floor_index, player, &mut world.positions, &mut world.other_level_positions);
    let ghost frozen = *world;
    let mut map: GameMap = match existing {
        Some(kept) => {
            thaw_floor(next, player, &mut world.positions, &mut world.other_level_positions);
            kept
        },
        None => {
            let made: GameMap = generate_floor(rng, next, world, items, monsters);
            dungeon.add_map(&made);
            assert(spec_floor(&made, next));
            made
        },
    };
    let ghost chosen = map;
    let ghost entered_world = *world;
    map.clear_tile_content();
    proof {
        if old(dungeon).spec_get(next) is None {
            assert(spec_floor(&chosen, next) && map.same_terrain(&chosen));
        }
        assert forall|e: int| 0 <= e < old(world).spec_len() && e != player.id implies entered_world.positions[e]
            == spec_position_after_switch(
            old(world).positions@,
            old(world).other_level_positions@,
            player,
            floor_index,
            next,
            old(dungeon).spec_get(next) is Some,
            e,
        ) && entered_world.other_level_positions[e] == spec_memory_after_switch(
            old(world).positions@,
            old(world).other_level_positions@,
            player,
            floor_index,
            next,
            old(dungeon).spec_get(next) is Some,
            e,
        ) by {
            assert(frozen.positions[e] == spec_frozen_position(old(world).positions@, player, e));
            assert(frozen.other_level_positions[e] == spec_frozen_memory(
                old(world).positions@,
                old(world).other_level_positions@,
                player,
                floor_index,
                e,
            ));
            if old(dungeon).spec_get(next) is None {
                assert(entered_world.spec_row_same(&frozen, e));
            } else {
                assert(entered_world.positions[e] == spec_thawed_position(
                    frozen.positions@,
                    frozen.other_level_positions@,
                    player,
                    next,
                    e,
                ));
                assert(entered_world.other_level_positions[e] == spec_thawed_memory(
                    frozen.other_level_positions@,
                    player,
                    next,
                    e,
                ));
            }
        }
    }
    match map.player_spawn_index {
        Some(spawn) => {
            let (x, y) = map.idx_xy(spawn);
            world.positions.set(player.id, Some(Position { x, y }));
        },
        None => {},
    }
    Some((map, next))
}

} // verus!
