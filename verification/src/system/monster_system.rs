//! Pursuit: every monster that sees the player advances one step along its
//! route and strikes when it stands next to the player.

use crate::component::{Attack, AttackType, Entity, Flags, Table, Viewshed};
use crate::geometry::{adjacent, spec_adjacent, Position};
use crate::map::{GameMap, MAX_HEIGHT, MAX_WIDTH};
use crate::system::map_indexing_system::spec_positions_on_map;
use crate::turn::RunState;
use vstd::prelude::*;

verus! {

/// What a path search from a monster's tile to the player's found: whether
/// it reached the goal, and the tiles of the path, the start first.
#[derive(Debug)]
pub struct Route {
    pub success: bool,
    pub steps: Vec<usize>,
}

/// Entity `e` is a monster with a position whose viewshed holds `player`.
pub open spec fn spec_pursues(
    monsters: Seq<bool>,
    viewsheds: Seq<Option<Viewshed>>,
    positions: Seq<Option<Position>>,
    player: Position,
    e: int,
) -> bool {
    0 <= e < monsters.len() && e < viewsheds.len() && e < positions.len() && monsters[e] && positions[e] is Some
        && (viewsheds[e] matches Some(v) && v.visible_tiles@.contains(player))
}

/// The tile with index `to` can be stepped onto from the tile `from`.
pub open spec fn spec_is_exit(map: &GameMap, from: int, to: usize) -> bool {
    map.spec_exits(from).contains(to)
}

/// Where a monster at `at` stands after its move: on the second tile of its
/// route, if the route was found, starts at the monster's own tile, leads
/// on to a tile that can be stepped onto from there, and that tile is not
/// the player's; where it stood, otherwise.
pub open spec fn spec_advance(map: &GameMap, at: Position, player: Position, route: Option<Route>) -> Position {
    match route {
        Some(r) => {
            let w = map.width as int;
            if r.success && r.steps@.len() > 1 && r.steps@[0] == map.spec_idx(at.x as int, at.y as int)
                && spec_is_exit(map, r.steps@[0] as int, r.steps@[1]) && !(r.steps@[1] % (w as usize) == player.x
                && r.steps@[1] / (w as usize) == player.y) {
                Position { x: (r.steps@[1] % (w as usize)) as i32, y: (r.steps@[1] / (w as usize)) as i32 }
            } else {
                at
            }
        },
        None => at,
    }
}

/// The attack a monster queues against `player`.
pub open spec fn spec_strike(player: Entity) -> Attack {
    Attack { attack_type: AttackType::Melee, target: player, spell: None }
}

/// Whether `list` holds `p`.
pub fn sees(list: &Vec<Position>, p: Position) -> (found: bool)
    ensures
        found == list@.contains(p),
{
    let mut k: usize = 0;
    while k < list.len()
        invariant
            k <= list.len(),
            forall|j: int| 0 <= j < k ==> list@[j] != p,
        decreases list.len() - k,
    {
        if list[k].x == p.x && list[k].y == p.y {
            return true;
        }
        k += 1;
    }
    false
}

/// Whether `list` holds `t`.
pub fn holds(list: &Vec<usize>, t: usize) -> (found: bool)
    ensures
        found == list@.contains(t),
{
    let mut k: usize = 0;
    while k < list.len()
        invariant
            k <= list.len(),
            forall|j: int| 0 <= j < k ==> list@[j] != t,
        decreases list.len() - k,
    {
        if list[k] == t {
            return true;
        }
        k += 1;
    }
    false
}

/// The map `open` is `map` as a search for a path to `goal` reads it: the
/// blocked flags are those that the spatial index has left, but for the
/// tile of the goal, which counts as free, or no path could end on it.
/// Everything else is the same.
pub open spec fn spec_opened(map: &GameMap, goal: Position, open: &GameMap) -> bool {
    let g = map.spec_idx(goal.x as int, goal.y as int);
    &&& open.same_terrain(map)
    &&& open.revealed_tiles@ == map.revealed_tiles@
    &&& open.bloodstains@ == map.bloodstains@
    &&& open.tile_content.len() == map.tile_content.len()
    &&& forall|t: int| 0 <= t < map.tile_content.len() ==> (#[trigger] open.tile_content[t])@ == map.tile_content[t]@
    &&& open.blocked_tiles@ == map.blocked_tiles@.update(g, false)
}

/// The ground that a search for a path to `goal` crosses: a copy of the
/// map whose blocked flags are the spatial index's, except the goal's.
pub fn search_ground(map: &GameMap, goal: Position) -> (open: GameMap)
    requires
        map.wf(),
        map.spec_in_bounds(goal.x as int, goal.y as int),
    ensures
        open.wf(),
        spec_opened(map, goal, &open),
{
    let mut open: GameMap = map.clone();
    let g: usize = map.xy_idx(goal.x, goal.y);
    open.blocked_tiles.set(g, false);
    assert(open.blocked_tiles@ =~= map.blocked_tiles@.update(g as int, false));
    open
}

/// Where a monster at `at` stands after its move along `route`.
pub fn advance(map: &GameMap, at: Position, player: Position, route: &Option<Route>) -> (to: Position)
    requires
        map.wf(),
        map.spec_in_bounds(at.x as int, at.y as int),
    ensures
        to == spec_advance(map, at, player, *route),
        map.spec_in_bounds(to.x as int, to.y as int),
{
    match route {
        Some(r) => {
            if r.success && r.steps.len() > 1 {
                let start: usize = map.xy_idx(at.x, at.y);
                if r.steps[0] == start {
                    let exits: Vec<usize> = map.get_available_exits(start);
                    let next: usize = r.steps[1];
                    if holds(&exits, next) {
                        let (next_x, next_y) = map.idx_xy(next);
                        if !(next_x == player.x && next_y == player.y) {
                            return Position { x: next_x, y: next_y };
                        }
                    }
                }
            }
            at
        },
        None => at,
    }
}

/// Where a wanderer at `at` stands after a step in `direction`: up for
/// one, right for two, down for three, left for four, and where it stood
/// for any other; never beyond the fixed grid of the early floors.
pub open spec fn spec_wander(at: Position, direction: int) -> Position {
    let x = if direction == 2 {
        at.x + 1
    } else if direction == 4 {
        at.x - 1
    } else {
        at.x as int
    };
    let y = if direction == 1 {
        at.y - 1
    } else if direction == 3 {
        at.y + 1
    } else {
        at.y as int
    };
    Position {
        x: (if x < 0 {
            0
        } else if x > MAX_WIDTH - 1 {
            MAX_WIDTH - 1
        } else {
            x
        }) as i32,
        y: (if y < 0 {
            0
        } else if y > MAX_HEIGHT - 1 {
            MAX_HEIGHT - 1
        } else {
            y
        }) as i32,
    }
}

/// Where a wanderer at `at` stands after a step in `direction`.
pub fn wander(at: Position, direction: i32) -> (to: Position)
    ensures
        to == spec_wander(at, direction as int),
        0 <= to.x < MAX_WIDTH,
        0 <= to.y < MAX_HEIGHT,
{
    let mut x: i64 = at.x as i64;
    let mut y: i64 = at.y as i64;
    if direction == 1 {
        y = y - 1;
    } else if direction == 2 {
        x = x + 1;
    } else if direction == 3 {
        y = y + 1;
    } else if direction == 4 {
        x = x - 1;
    }
    if x < 0 {
        x = 0;
    }
    if y < 0 {
        y = 0;
    }
    if x > MAX_WIDTH as i64 - 1 {
        x = MAX_WIDTH as i64 - 1;
    }
    if y > MAX_HEIGHT as i64 - 1 {
        y = MAX_HEIGHT as i64 - 1;
    }
    Position { x: x as i32, y: y as i32 }
}

pub struct MonsterSystem {}

impl MonsterSystem {
    /// The monsters that see the player, in the order of their identifiers:
    /// those for which a route to the player is wanted.
    pub fn pursuers(
        &self,
        viewsheds: &Table<Viewshed>,
        positions: &Table<Position>,
        monsters: &Flags,
        player_position: Position,
    ) -> (list: Vec<Entity>)
        requires
            viewsheds.len() == monsters.len(),
            positions.len() == monsters.len(),
        ensures
            forall|a: int, b: int| 0 <= a < b < list@.len() ==> list@[a].id < list@[b].id,
            forall|e: int|
                0 <= e < monsters.len() ==> (list@.contains(Entity { id: e as usize }) <==> #[trigger] spec_pursues(
                    monsters@,
                    viewsheds@,
                    positions@,
                    player_position,
                    e,
                )),
            forall|k: int| 0 <= k < list@.len() ==> (#[trigger] list@[k]).id < monsters.len(),
    {
        let n: usize = monsters.len();
        let mut list: Vec<Entity> = Vec::new();
        let mut i: usize = 0;
        while i < n
            invariant
                i <= n,
                n == monsters.len(),
                viewsheds.len() == n,
                positions.len() == n,
                forall|a: int, b: int| 0 <= a < b < list@.len() ==> list@[a].id < list@[b].id,
                forall|k: int| 0 <= k < list@.len() ==> (#[trigger] list@[k]).id < i,
                forall|e: int|
                    0 <= e < i ==> (list@.contains(Entity { id: e as usize }) <==> #[trigger] spec_pursues(
                        monsters@,
                        viewsheds@,
                        positions@,
                        player_position,
                        e,
                    )),
            decreases n - i,
        {
            let ghost before = list@;
            let mut wanted: bool = false;
            if monsters[i] {
                match (&viewsheds[i], positions[i]) {
                    (Some(v), Some(_)) => {
                        wanted = sees(&v.visible_tiles, player_position);
                    },
                    _ => {},
                }
            }
            assert(wanted == spec_pursues(monsters@, viewsheds@, positions@, player_position, i as int));
            if wanted {
                list.push(Entity { id: i });
                assert(list@[before.len() as int] == Entity { id: i });
            }
            proof {
                assert forall|e: int| 0 <= e < i + 1 implies (list@.contains(Entity { id: e as usize })
                    <==> #[trigger] spec_pursues(monsters@, viewsheds@, positions@, player_position, e)) by {
                    let who = Entity { id: e as usize };
                    if before.contains(who) {
                        let k = choose|k: int| 0 <= k < before.len() && before[k] == who;
                        assert(list@[k] == who);
                    }
                    if list@.contains(who) && e < i {
                        let k = choose|k: int| 0 <= k < list@.len() && list@[k] == who;
                        assert(k < before.len());
                        assert(before[k] == who);
                    }
                }
            }
            i += 1;
        }
        list
    }

    /// Moves the monsters. Nothing happens outside the monsters' turn.
    ///
    /// In the monsters' turn every monster that sees the player advances
    /// along its route as `spec_advance` says, against the blocked flags as
    /// the spatial index left them, and, where it then stands next to the
    /// player, queues a melee attack against the player, whether it has
    /// moved or not. The floor itself is only read.
    pub fn run(
        &self,
        runstate: RunState,
        viewsheds: &Table<Viewshed>,
        positions: &mut Table<Position>,
        monsters: &Flags,
        attacks: &mut Table<Attack>,
        player_position: Position,
        player: Entity,
        map: &GameMap,
        routes: &Table<Route>,
    )
        requires
            map.wf(),
            viewsheds.len() == monsters.len(),
            old(positions).len() == monsters.len(),
            old(attacks).len() == monsters.len(),
            routes.len() == monsters.len(),
            spec_positions_on_map(old(positions)@, map),
        ensures
            final(positions).len() == old(positions).len(),
            final(attacks).len() == old(attacks).len(),
            spec_positions_on_map(final(positions)@, map),
            !runstate.spec_permits_pursuit() ==> {
                &&& final(positions)@ == old(positions)@
                &&& final(attacks)@ == old(attacks)@
            },
            runstate.spec_permits_pursuit() ==> {
                &&& forall|e: int|
                    0 <= e < monsters.len() ==> #[trigger] final(positions)[e] == (if spec_pursues(
                        monsters@,
                        viewsheds@,
                        old(positions)@,
                        player_position,
                        e,
                    ) {
                        Some(spec_advance(map, old(positions)[e].unwrap(), player_position, routes[e]))
                    } else {
                        old(positions)[e]
                    })
                &&& forall|e: int|
                    0 <= e < monsters.len() ==> #[trigger] final(attacks)[e] == (if spec_pursues(
                        monsters@,
                        viewsheds@,
                        old(positions)@,
                        player_position,
                        e,
                    ) && spec_adjacent(
                        final(positions)[e].unwrap().x as int,
                        final(positions)[e].unwrap().y as int,
                        player_position.x as int,
                        player_position.y as int,
                    ) {
                        Some(spec_strike(player))
                    } else {
                        old(attacks)[e]
                    })
            },
    {
        if !runstate.permits_pursuit() {
            return ;
        }
        let n: usize = monsters.len();
        let mut i: usize = 0;
        while i < n
            invariant
                i <= n,
                n == monsters.len(),
                viewsheds.len() == n,
                positions.len() == n,
                attacks.len() == n,
                routes.len() == n,
                old(positions).len() == n,
                old(attacks).len() == n,
                map.wf(),
                spec_positions_on_map(positions@, map),
                forall|e: int|
                    0 <= e < n ==> #[trigger] positions[e] == (if e < i && spec_pursues(
                        monsters@,
                        viewsheds@,
                        old(positions)@,
                        player_position,
                        e,
                    ) {
                        Some(spec_advance(map, old(positions)[e].unwrap(), player_position, routes[e]))
                    } else {
                        old(positions)[e]
                    }),
                forall|e: int|
                    0 <= e < n ==> #[trigger] attacks[e] == (if e < i && spec_pursues(
                        monsters@,
                        viewsheds@,
                        old(positions)@,
                        player_position,
                        e,
                    ) && spec_adjacent(
                        positions[e].unwrap().x as int,
                        positions[e].unwrap().y as int,
                        player_position.x as int,
                        player_position.y as int,
                    ) {
                        Some(spec_strike(player))
                    } else {
                        old(attacks)[e]
                    }),
            decreases n - i,
        {
            if monsters[i] {
                match (&viewsheds[i], positions[i]) {
                    (Some(v), Some(at)) => {
                        if sees(&v.visible_tiles, player_position) {
                            let to: Position = advance(map, at, player_position, &routes[i]);
                            positions.set(i, Some(to));
                            if adjacent(to, player_position) {
                                attacks.set(
                                    i,
                                    Some(Attack { attack_type: AttackType::Melee, target: player, spell: None }),
                                );
                            }
                        }
                    },
                    _ => {},
                }
            }
            i += 1;
        }
    }
}

} // verus!
