//! What the player's commands do to the world: moving and striking,
//! picking up, using, aiming, firing, taking the stairs, and spending a
//! level on an attribute.

use crate::component::{
    clamp, spec_clamp, Attack, AttackType, Entity, Equipped, Flags, Item, MagicWeapon, RangedWeapon, Stats, Table,
    WantsToConsumeItem, WantsToPickupItem,
};
use crate::geometry::Position;
use crate::inventory::Inventory;
use crate::logbook::{spec_line_text, LogFragment, Logbook, Logger};
use crate::map::{GameMap, TileType};
use crate::system::map_indexing_system::spec_positions_on_map;
use crate::system::ranged_combat_system::{
    get_player_magic_weapon_entity, get_player_ranged_weapon_entity, is_stale, spec_aims_with,
    spec_channels_with, spec_first_aimed, spec_first_channelled, spec_stale,
};
use crate::system::visibility_system::spec_content_in_range;
use crate::turn::RunState;
use vstd::prelude::*;

verus! {

/// Number of attributes a level can be spent on.
pub const ATTRIBUTES: usize = 6;

/// The first of the first `m` occupants that has stats.
pub open spec fn spec_first_foe(stats: Seq<Option<Stats>>, occupants: Seq<Entity>, m: int) -> Option<Entity>
    decreases m,
{
    if m <= 0 {
        None
    } else {
        match spec_first_foe(stats, occupants, m - 1) {
            Some(t) => Some(t),
            None => if stats[occupants[m - 1].id as int] is Some {
                Some(occupants[m - 1])
            } else {
                None
            },
        }
    }
}

/// What a step of the player by `(dx, dy)` comes to, from `at`.
pub enum Step {
    /// The step leaves the map, or the tile is blocked and holds no one to
    /// strike.
    Stay,
    /// Someone with stats stands on the tile: the player strikes.
    Strike(Entity),
    /// The tile is free: the player moves there.
    Move(Position),
}

/// What a step of the player from `at` by `(dx, dy)` comes to.
pub open spec fn spec_step(map: &GameMap, stats: Seq<Option<Stats>>, at: Position, dx: int, dy: int) -> Step {
    let x = at.x + dx;
    let y = at.y + dy;
    if !map.spec_in_bounds(x, y) {
        Step::Stay
    } else {
        let t = map.spec_idx(x, y);
        match spec_first_foe(stats, map.tile_content[t]@, map.tile_content[t]@.len() as int) {
            Some(foe) => Step::Strike(foe),
            None => if map.blocked_tiles[t] {
                Step::Stay
            } else {
                Step::Move(Position { x: x as i32, y: y as i32 })
            },
        }
    }
}

/// What a step of the player from `at` by `(dx, dy)` comes to.
pub fn step(map: &GameMap, stats: &Table<Stats>, at: Position, dx: i32, dy: i32) -> (s: Step)
    requires
        map.wf(),
        spec_content_in_range(map, stats.len() as int),
    ensures
        s == spec_step(map, stats@, at, dx as int, dy as int),
{
    let x: i64 = at.x as i64 + dx as i64;
    let y: i64 = at.y as i64 + dy as i64;
    if x < 0 || x >= map.width as i64 || y < 0 || y >= map.height as i64 {
        return Step::Stay;
    }
    let dest: usize = map.xy_idx(x as i32, y as i32);
    let mut m: usize = 0;
    while m < map.tile_content[dest].len()
        invariant
            dest < map.tile_content.len(),
            map.spec_in_bounds(at.x + dx, at.y + dy),
            dest == map.spec_idx(at.x + dx, at.y + dy),
            m <= map.tile_content[dest as int]@.len(),
            map.wf(),
            spec_content_in_range(map, stats.len() as int),
            spec_first_foe(stats@, map.tile_content[dest as int]@, m as int) is None,
        decreases map.tile_content[dest as int]@.len() - m,
    {
        let target: Entity = map.tile_content[dest][m];
        assert(target.id < stats.len());
        if stats[target.id].is_some() {
            proof {
                assert(spec_first_foe(stats@, map.tile_content[dest as int]@, m + 1) == Some(target));
                lemma_first_foe_stays(
                    stats@,
                    map.tile_content[dest as int]@,
                    m + 1,
                    map.tile_content[dest as int]@.len() as int,
                );
            }
            return Step::Strike(target);
        }
        m += 1;
    }
    if map.blocked_tiles[dest] {
        Step::Stay
    } else {
        Step::Move(Position { x: x as i32, y: y as i32 })
    }
}

/// Once a foe has been found among the first `a` occupants, it is the one
/// found among the first `b`.
pub proof fn lemma_first_foe_stays(stats: Seq<Option<Stats>>, occupants: Seq<Entity>, a: int, b: int)
    requires
        0 <= a <= b,
        spec_first_foe(stats, occupants, a) is Some,
    ensures
        spec_first_foe(stats, occupants, b) == spec_first_foe(stats, occupants, a),
    decreases b - a,
{
    if a < b {
        lemma_first_foe_stays(stats, occupants, a, b - 1);
    }
}

/// The player steps by `(dx, dy)`: strikes the first creature on the tile
/// stepped onto, or moves there if the tile is not blocked. The player's
/// turn has been taken either way.
pub fn try_move_player(
    dx: i32,
    dy: i32,
    player: Entity,
    map: &GameMap,
    stats: &Table<Stats>,
    positions: &mut Table<Position>,
    attacks: &mut Table<Attack>,
) -> (next: Option<RunState>)
    requires
        map.wf(),
        old(positions).len() == stats.len(),
        old(attacks).len() == stats.len(),
        spec_content_in_range(map, stats.len() as int),
        spec_positions_on_map(old(positions)@, map),
    ensures
        next == Some(RunState::PlayerTurn),
        final(positions).len() == old(positions).len(),
        final(attacks).len() == old(attacks).len(),
        spec_positions_on_map(final(positions)@, map),
        forall|e: int| 0 <= e < stats.len() && e != player.id ==> #[trigger] final(positions)[e] == old(positions)[e],
        forall|e: int| 0 <= e < stats.len() && e != player.id ==> #[trigger] final(attacks)[e] == old(attacks)[e],
        player.id < stats.len() ==> (match old(positions)[player.id as int] {
            Some(at) => match spec_step(map, stats@, at, dx as int, dy as int) {
                Step::Stay => final(positions)[player.id as int] == Some(at) && final(attacks)[player.id as int]
                    == old(attacks)[player.id as int],
                Step::Strike(foe) => final(positions)[player.id as int] == Some(at) && final(attacks)[player.id as int] == Some(Attack { attack_type: AttackType::Melee, target: foe, spell: None }),
                Step::Move(to) => final(positions)[player.id as int] == Some(to) && final(attacks)[player.id as int] == old(attacks)[player.id as int],
            },
            None => final(positions)[player.id as int] is None && final(attacks)[player.id as int] == old(attacks)[player.id as int],
        }),
{
    if player.id < stats.len() {
        match positions[player.id] {
            Some(at) => {
                match step(map, stats, at, dx, dy) {
                    Step::Stay => {},
                    Step::Strike(foe) => {
                        attacks.set(
                            player.id,
                            Some(Attack { attack_type: AttackType::Melee, target: foe, spell: None }),
                        );
                    },
                    Step::Move(to) => {
                        positions.set(player.id, Some(to));
                    },
                }
            },
            None => {},
        }
    }
    Some(RunState::PlayerTurn)
}

/// Entity `x` is an item lying at `at`.
pub open spec fn spec_item_at(items: Seq<Option<Item>>, positions: Seq<Option<Position>>, at: Position, x: int) -> bool {
    0 <= x < items.len() && x < positions.len() && items[x] is Some && positions[x] == Some(at)
}

/// The item among the first `n` entities that is picked up at `at`: the
/// one with the highest identifier of those that lie there.
pub open spec fn spec_item_here(items: Seq<Option<Item>>, positions: Seq<Option<Position>>, at: Position, n: int) -> Option<
    Entity,
>
    decreases n,
{
    if n <= 0 {
        None
    } else if spec_item_at(items, positions, at, n - 1) {
        Some(Entity { id: (n - 1) as usize })
    } else {
        spec_item_here(items, positions, at, n - 1)
    }
}

pub open spec fn spec_nothing_here_text() -> Seq<char> {
    "There is nothing here to pick up."@
}

pub open spec fn spec_out_of_range_text() -> Seq<char> {
    "Your target is out of range."@
}

/// The log `after` is the log `before` with one line added that reads
/// `text`.
pub open spec fn spec_told(before: &Logbook, after: &Logbook, text: Seq<char>) -> bool {
    &&& after.extends(before)
    &&& after.entries@.len() == before.entries@.len() + 1
    &&& spec_line_text(after.entries@.last()@) == text
}

/// The player reaches for what lies underfoot: the wish to pick up the
/// item there is recorded, or, where nothing lies there, the log says so.
/// The player's turn has been taken either way.
pub fn try_get_item(
    player: Entity,
    player_position: Position,
    items: &Table<Item>,
    positions: &Table<Position>,
    wants_pickup: &mut Table<WantsToPickupItem>,
    log: &mut Logbook,
) -> (next: Option<RunState>)
    requires
        positions.len() == items.len(),
        old(wants_pickup).len() == items.len(),
        player.id < items.len(),
    ensures
        next == Some(RunState::PlayerTurn),
        final(wants_pickup).len() == old(wants_pickup).len(),
        forall|e: int|
            0 <= e < items.len() && e != player.id ==> #[trigger] final(wants_pickup)[e] == old(wants_pickup)[e],
        final(wants_pickup)[player.id as int] == (match spec_item_here(
            items@,
            positions@,
            player_position,
            items.len() as int,
        ) {
            Some(item) => Some(WantsToPickupItem { collected_by: player, item }),
            None => old(wants_pickup)[player.id as int],
        }),
        final(log).extends(old(log)),
        spec_item_here(items@, positions@, player_position, items.len() as int) is None ==> spec_told(
            old(log),
            final(log),
            spec_nothing_here_text(),
        ),
        spec_item_here(items@, positions@, player_position, items.len() as int) is Some ==> final(log).entries@
            == old(log).entries@,
{
    let mut target: Option<Entity> = None;
    let mut x: usize = 0;
    while x < items.len()
        invariant
            x <= items.len(),
            positions.len() == items.len(),
            target == spec_item_here(items@, positions@, player_position, x as int),
        decreases items.len() - x,
    {
        match (&items[x], positions[x]) {
            (Some(_), Some(p)) => {
                if p.x == player_position.x && p.y == player_position.y {
                    target = Some(Entity { id: x });
                }
            },
            _ => {},
        }
        x += 1;
    }
    match target {
        None => {
            let line: Logger = Logger::new().append("There is nothing here to pick up.");
            assert(spec_line_text(line.fragments@) =~= spec_nothing_here_text()) by {
                assert(spec_line_text(Seq::<LogFragment>::empty()) =~= Seq::<char>::empty());
            }
            line.log(log);
        },
        Some(item) => {
            wants_pickup.set(player.id, Some(WantsToPickupItem { collected_by: player, item }));
        },
    }
    Some(RunState::PlayerTurn)
}

/// The player takes the stairs down: only from a down-staircase.
pub fn try_next_level(map: &GameMap, player_position: Position) -> (next: Option<RunState>)
    requires
        map.wf(),
    ensures
        next == (if map.spec_in_bounds(player_position.x as int, player_position.y as int) && map.tiles[map.spec_idx(
            player_position.x as int,
            player_position.y as int,
        )] == TileType::DownStairs {
            Some(RunState::Descending)
        } else {
            None
        }),
{
    if map.in_bounds(player_position.x, player_position.y) {
        let index: usize = map.xy_idx(player_position.x, player_position.y);
        if map.tiles[index] == TileType::DownStairs {
            return Some(RunState::Descending);
        }
    }
    None
}

/// The player takes the stairs up: only from an up-staircase.
pub fn try_prev_level(map: &GameMap, player_position: Position) -> (next: Option<RunState>)
    requires
        map.wf(),
    ensures
        next == (if map.spec_in_bounds(player_position.x as int, player_position.y as int) && map.tiles[map.spec_idx(
            player_position.x as int,
            player_position.y as int,
        )] == TileType::UpStairs {
            Some(RunState::Ascending)
        } else {
            None
        }),
{
    if map.in_bounds(player_position.x, player_position.y) {
        let index: usize = map.xy_idx(player_position.x, player_position.y);
        if map.tiles[index] == TileType::UpStairs {
            return Some(RunState::Ascending);
        }
    }
    None
}

/// The tile that the examining cursor is on after a move by `(dx, dy)`
/// from the tile with index `index`: the neighbour, or the same tile where
/// the move would leave the map.
pub open spec fn spec_examine(map: &GameMap, index: int, dx: int, dy: int) -> int {
    let x = index % (map.width as int) + dx;
    let y = index / (map.width as int) + dy;
    if map.spec_in_bounds(x, y) {
        map.spec_idx(x, y)
    } else {
        index
    }
}

/// Moves the examining cursor by `(dx, dy)`.
pub fn try_move_examine(map: &GameMap, index: usize, dx: i32, dy: i32) -> (next: Option<RunState>)
    requires
        map.wf(),
        index < map.tiles.len(),
    ensures
        next == Some(RunState::Examining { index: spec_examine(map, index as int, dx as int, dy as int) as usize }),
        spec_examine(map, index as int, dx as int, dy as int) < map.tiles.len(),
{
    let (x, y) = map.idx_xy(index);
    let nx: i64 = x as i64 + dx as i64;
    let ny: i64 = y as i64 + dy as i64;
    if 0 <= nx && nx < map.width as i64 && 0 <= ny && ny < map.height as i64 {
        Some(RunState::Examining { index: map.xy_idx(nx as i32, ny as i32) })
    } else {
        Some(RunState::Examining { index })
    }
}

/// What becomes of the player's wish to fire.
pub open spec fn spec_fire(
    map: &GameMap,
    alive: Seq<bool>,
    positions: Seq<Option<Position>>,
    equipped: Seq<Option<Equipped>>,
    ranged: Seq<Option<RangedWeapon>>,
    weapon: int,
) -> Option<Entity> {
    match ranged[weapon].unwrap().target {
        Some(t) => if spec_stale(map, alive, positions, equipped[weapon], ranged[weapon].unwrap().range as int, t) {
            None
        } else {
            Some(t)
        },
        None => None,
    }
}

/// The player fires the ranged weapon wielded in the weapon slot at its
/// target: a ranged attack is queued and the player's turn is taken. Where
/// the player wields no such weapon, or it has no target, nothing happens;
/// where the target is stale, the log says so, and nothing else happens.
pub fn try_ranged_target(
    player: Entity,
    map: &GameMap,
    alive: &Flags,
    positions: &Table<Position>,
    equipped: &Table<Equipped>,
    ranged_weapons: &Table<RangedWeapon>,
    attacks: &mut Table<Attack>,
    log: &mut Logbook,
) -> (next: Option<RunState>)
    requires
        map.wf(),
        alive.len() == positions.len(),
        equipped.len() == positions.len(),
        ranged_weapons.len() == positions.len(),
        old(attacks).len() == positions.len(),
        player.id < positions.len(),
        spec_positions_on_map(positions@, map),
    ensures
        final(attacks).len() == old(attacks).len(),
        final(log).extends(old(log)),
        forall|e: int| 0 <= e < positions.len() && e != player.id ==> #[trigger] final(attacks)[e] == old(attacks)[e],
        (forall|j: int| !spec_aims_with(equipped@, ranged_weapons@, player, j)) ==> next is None && final(attacks)@
            == old(attacks)@ && final(log).entries@ == old(log).entries@,
        forall|j: int|
            #[trigger] spec_first_aimed(equipped@, ranged_weapons@, player, j) ==> (match spec_fire(
                map,
                alive@,
                positions@,
                equipped@,
                ranged_weapons@,
                j,
            ) {
                Some(t) => next == Some(RunState::PlayerTurn) && final(attacks)[player.id as int] == Some(
                    Attack { attack_type: AttackType::Ranged, target: t, spell: None },
                ) && final(log).entries@ == old(log).entries@,
                None => next is None && final(attacks)@ == old(attacks)@ && (if ranged_weapons[j].unwrap().target is Some {
                    spec_told(old(log), final(log), spec_out_of_range_text())
                } else {
                    final(log).entries@ == old(log).entries@
                }),
            }),
{
    match get_player_ranged_weapon_entity(equipped, ranged_weapons, player) {
        Some(weapon) => {
            proof {
                assert forall|j: int| #[trigger] spec_first_aimed(equipped@, ranged_weapons@, player, j) implies j
                    == weapon.id by {
                    if j < weapon.id {
                    }
                    if weapon.id < j {
                        assert(spec_aims_with(equipped@, ranged_weapons@, player, weapon.id as int));
                    }
                }
            }
            let held: RangedWeapon = ranged_weapons[weapon.id].unwrap();
            match held.target {
                Some(target) => {
                    if is_stale(map, alive, positions, equipped[weapon.id], held.range, target) {
                        let line: Logger = Logger::new().append("Your target is out of range.");
                        assert(spec_line_text(line.fragments@) =~= spec_out_of_range_text()) by {
                            assert(spec_line_text(Seq::<LogFragment>::empty()) =~= Seq::<char>::empty());
                        }
                        line.log(log);
                        None
                    } else {
                        attacks.set(
                            player.id,
                            Some(Attack { attack_type: AttackType::Ranged, target, spell: None }),
                        );
                        Some(RunState::PlayerTurn)
                    }
                },
                None => None,
            }
        },
        None => None,
    }
}

/// The player casts the spell at `spell` in the spellbook at the target of
/// the magic weapon wielded in the weapon slot: a magic attack is queued
/// and the player's turn is taken. Where the player wields no such weapon,
/// or it has no target, nothing happens; where the target is stale, the log
/// says so, and nothing else happens.
pub fn try_magic_target(
    player: Entity,
    spell: usize,
    map: &GameMap,
    alive: &Flags,
    positions: &Table<Position>,
    equipped: &Table<Equipped>,
    magic_weapons: &Table<MagicWeapon>,
    attacks: &mut Table<Attack>,
    log: &mut Logbook,
) -> (next: Option<RunState>)
    requires
        map.wf(),
        alive.len() == positions.len(),
        equipped.len() == positions.len(),
        magic_weapons.len() == positions.len(),
        old(attacks).len() == positions.len(),
        player.id < positions.len(),
        spec_positions_on_map(positions@, map),
    ensures
        final(attacks).len() == old(attacks).len(),
        final(log).extends(old(log)),
        forall|e: int| 0 <= e < positions.len() && e != player.id ==> #[trigger] final(attacks)[e] == old(attacks)[e],
        (forall|j: int| !spec_channels_with(equipped@, magic_weapons@, player, j)) ==> next is None && final(attacks)@
            == old(attacks)@ && final(log).entries@ == old(log).entries@,
        forall|j: int|
            #[trigger] spec_first_channelled(equipped@, magic_weapons@, player, j) ==> (match magic_weapons[j].unwrap().target {
                Some(t) => if spec_stale(
                    map,
                    alive@,
                    positions@,
                    equipped[j],
                    magic_weapons[j].unwrap().range as int,
                    t,
                ) {
                    next is None && final(attacks)@ == old(attacks)@ && spec_told(
                        old(log),
                        final(log),
                        spec_out_of_range_text(),
                    )
                } else {
                    next == Some(RunState::PlayerTurn) && final(attacks)[player.id as int] == Some(
                        Attack { attack_type: AttackType::Magic, target: t, spell: Some(spell) },
                    ) && final(log).entries@ == old(log).entries@
                },
                None => next is None && final(attacks)@ == old(attacks)@ && final(log).entries@ == old(log).entries@,
            }),
{
    match get_player_magic_weapon_entity(equipped, magic_weapons, player) {
        Some(weapon) => {
            proof {
                assert forall|j: int| #[trigger] spec_first_channelled(equipped@, magic_weapons@, player, j) implies j
                    == weapon.id by {
                    if j < weapon.id {
                    }
                    if weapon.id < j {
                        assert(spec_channels_with(equipped@, magic_weapons@, player, weapon.id as int));
                    }
                }
            }
            let held: MagicWeapon = magic_weapons[weapon.id].unwrap();
            match held.target {
                Some(target) => {
                    if is_stale(map, alive, positions, equipped[weapon.id], held.range, target) {
                        let line: Logger = Logger::new().append("Your target is out of range.");
                        assert(spec_line_text(line.fragments@) =~= spec_out_of_range_text()) by {
                            assert(spec_line_text(Seq::<LogFragment>::empty()) =~= Seq::<char>::empty());
                        }
                        line.log(log);
                        None
                    } else {
                        attacks.set(
                            player.id,
                            Some(Attack { attack_type: AttackType::Magic, target, spell: Some(spell) }),
                        );
                        Some(RunState::PlayerTurn)
                    }
                },
                None => None,
            }
        },
        None => None,
    }
}

/// The stats once a level has been spent on the attribute with the given
/// place in the list: strength, dexterity, constitution, intelligence,
/// wisdom, charisma.
pub open spec fn spec_allocated(stats: Stats, index: int) -> Stats {
    if index == 0 {
        Stats { strength: spec_clamp(stats.strength + 1) as i32, ..stats }
    } else if index == 1 {
        Stats { dexterity: spec_clamp(stats.dexterity + 1) as i32, ..stats }
    } else if index == 2 {
        Stats { constitution: spec_clamp(stats.constitution + 1) as i32, ..stats }
    } else if index == 3 {
        Stats { intelligence: spec_clamp(stats.intelligence + 1) as i32, ..stats }
    } else if index == 4 {
        Stats { wisdom: spec_clamp(stats.wisdom + 1) as i32, ..stats }
    } else {
        Stats { charisma: spec_clamp(stats.charisma + 1) as i32, ..stats }
    }
}

/// Spends a level on the attribute at `index`.
pub fn allocate_attribute(stats: Stats, index: usize) -> (after: Stats)
    requires
        index < ATTRIBUTES,
    ensures
        after == spec_allocated(stats, index as int),
{
    if index == 0 {
        Stats { strength: clamp(stats.strength as i128 + 1), ..stats }
    } else if index == 1 {
        Stats { dexterity: clamp(stats.dexterity as i128 + 1), ..stats }
    } else if index == 2 {
        Stats { constitution: clamp(stats.constitution as i128 + 1), ..stats }
    } else if index == 3 {
        Stats { intelligence: clamp(stats.intelligence as i128 + 1), ..stats }
    } else if index == 4 {
        Stats { wisdom: clamp(stats.wisdom as i128 + 1), ..stats }
    } else {
        Stats { charisma: clamp(stats.charisma as i128 + 1), ..stats }
    }
}

/// A choice in the level-up listing.
#[derive(Clone, Copy, Debug, PartialEq, Eq, Structural)]
pub enum LevelUpInput {
    Up,
    Down,
    Confirm,
}

/// What an input in the level-up listing leads to, with the cursor at
/// `index`: the cursor moves within the list, or the level is spent on the
/// attribute under the cursor and the game waits for input again. Nothing
/// follows from a move beyond either end of the list.
pub fn level_up_input(stats: &mut Table<Stats>, player: Entity, index: usize, input: LevelUpInput) -> (next: Option<
    RunState,
>)
    requires
        index < ATTRIBUTES,
    ensures
        final(stats).len() == old(stats).len(),
        forall|e: int| 0 <= e < old(stats).len() && e != player.id ==> #[trigger] final(stats)[e] == old(stats)[e],
        match input {
            LevelUpInput::Up => final(stats)@ == old(stats)@ && next == (if index > 0 {
                Some(RunState::LevelUp { index: (index - 1) as usize })
            } else {
                None
            }),
            LevelUpInput::Down => final(stats)@ == old(stats)@ && next == (if index + 1 < ATTRIBUTES {
                Some(RunState::LevelUp { index: (index + 1) as usize })
            } else {
                None
            }),
            LevelUpInput::Confirm => next == Some(RunState::AwaitingInput) && (player.id < old(stats).len() ==> final(stats)[player.id as int] == (match old(stats)[player.id as int] {
                Some(s) => Some(spec_allocated(s, index as int)),
                None => None,
            })),
        },
{
    match input {
        LevelUpInput::Up => {
            if index > 0 {
                Some(RunState::LevelUp { index: index - 1 })
            } else {
                None
            }
        },
        LevelUpInput::Down => {
            if index + 1 < ATTRIBUTES {
                Some(RunState::LevelUp { index: index + 1 })
            } else {
                None
            }
        },
        LevelUpInput::Confirm => {
            if player.id < stats.len() {
                match stats[player.id] {
                    Some(s) => {
                        stats.set(player.id, Some(allocate_attribute(s, index)));
                    },
                    None => {},
                }
            }
            Some(RunState::AwaitingInput)
        },
    }
}

/// The player uses the first item of the stack selected in the inventory:
/// the wish to consume it is recorded. Nothing happens without an
/// inventory or with nothing selected.
pub fn try_consume_item(
    player: Entity,
    inventories: &Table<Inventory>,
    wants_consume: &mut Table<WantsToConsumeItem>,
) -> (done: bool)
    requires
        old(wants_consume).len() == inventories.len(),
    ensures
        done,
        final(wants_consume).len() == old(wants_consume).len(),
        forall|e: int|
            0 <= e < inventories.len() && e != player.id ==> #[trigger] final(wants_consume)[e] == old(wants_consume)[e],
        player.id < inventories.len() ==> final(wants_consume)[player.id as int] == (match inventories[player.id as int] {
            Some(i) => if i.index < i@.len() && i@[i.index as int].1.len() > 0 {
                Some(WantsToConsumeItem { item: i@[i.index as int].1[0] })
            } else {
                old(wants_consume)[player.id as int]
            },
            None => old(wants_consume)[player.id as int],
        }),
{
    if player.id < inventories.len() {
        match &inventories[player.id] {
            Some(inventory) => {
                match inventory.first_at(inventory.index) {
                    Some(item) => {
                        wants_consume.set(player.id, Some(WantsToConsumeItem { item }));
                    },
                    None => {},
                }
            },
            None => {},
        }
    }
    true
}

} // verus!
