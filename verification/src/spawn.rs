//! Making entities: the player, items and monsters from their content
//! definitions, and the short-lived particles that show a blow.

use crate::component::{
    Armor, Entity, Equippable, Item, Lifetime, MagicWeapon, MeleeWeapon, Name, Pool, Potion, RangedWeapon,
    Renderable, Spellbook, Stats, Triggerable, Vendor, Viewshed,
};
use crate::config::{ItemConfig, MonsterConfig, ScrollType, SpawnConfig};
use crate::geometry::{Position, Rect};
use crate::inventory::Inventory;
use crate::logbook::Tint;
use crate::random::roll_dice;
use crate::random_table::{spec_prefix, RandomTable};
use crate::world::World;
use vstd::prelude::*;
use vstd::string::*;

verus! {

/// How far the player sees.
pub const PLAYER_VIEW_RANGE: i32 = 8;

/// How long a particle lasts, in milliseconds.
pub const PARTICLE_LIFETIME_MS: u128 = 200;

/// The stats a new player starts with.
pub open spec fn spec_player_stats() -> Stats {
    Stats {
        hp: Pool { current: 50, max: 50 },
        mp: Pool { current: 10, max: 10 },
        exp: Pool { current: 0, max: 1000 },
        level: 1,
        strength: 5,
        dexterity: 1,
        constitution: 1,
        intelligence: 1,
        wisdom: 1,
        charisma: 1,
    }
}

/// Row `e` of `world` is a new player at `(x, y)`.
pub open spec fn spec_player_row(world: &World, e: int, x: i32, y: i32) -> bool {
    &&& world.alive[e]
    &&& world.player == Some(Entity { id: e as usize })
    &&& world.positions[e] == Some(Position { x, y })
    &&& world.renderables[e] == Some(Renderable { glyph: '@', fg: Tint::Yellow, bg: Tint::Black, index: 0 })
    &&& world.players[e]
    &&& (world.names[e] matches Some(n) && n.name@ == "player"@)
    &&& (world.viewsheds[e] matches Some(v) && v.range == PLAYER_VIEW_RANGE && v.visible_tiles@.len() == 0)
    &&& world.blockers[e]
    &&& world.stats[e] == Some(spec_player_stats())
    &&& (world.inventories[e] matches Some(i) && i@.len() == 0 && i.gold == 0 && i.index == 0 && i.wf())
    &&& !world.monsters[e]
    &&& !world.hidden[e]
    &&& world.attacks[e] is None
    &&& world.damages[e] is None
    &&& world.experiences[e] is None
}

/// Makes the player at `(x, y)` and records it as the entity that the
/// player steers.
pub fn spawn_player(world: &mut World, x: i32, y: i32) -> (e: Entity)
    requires
        old(world).wf(),
    ensures
        final(world).wf(),
        final(world).spec_len() == old(world).spec_len() + 1,
        e.id == old(world).spec_len(),
        spec_player_row(final(world), e.id as int, x, y),
        forall|j: int| 0 <= j < old(world).spec_len() ==> #[trigger] final(world).spec_row_same(old(world), j),
{
    let e: Entity = world.create_entity();
    let ghost made = *world;
    world.positions.set(e.id, Some(Position { x, y }));
    world.renderables.set(e.id, Some(Renderable { glyph: '@', fg: Tint::Yellow, bg: Tint::Black, index: 0 }));
    world.players.set(e.id, true);
    world.names.set(e.id, Some(Name { name: String::from_str("player") }));
    world.viewsheds.set(e.id, Some(Viewshed { visible_tiles: Vec::new(), range: PLAYER_VIEW_RANGE }));
    world.blockers.set(e.id, true);
    world.stats.set(
        e.id,
        Some(
            Stats {
                hp: Pool { current: 50, max: 50 },
                mp: Pool { current: 10, max: 10 },
                exp: Pool { current: 0, max: 1000 },
                level: 1,
                strength: 5,
                dexterity: 1,
                constitution: 1,
                intelligence: 1,
                wisdom: 1,
                charisma: 1,
            },
        ),
    );
    world.inventories.set(e.id, Some(Inventory::new()));
    world.player = Some(e);
    proof {
        assert forall|j: int| 0 <= j < old(world).spec_len() implies #[trigger] world.spec_row_same(
            old(world),
            j,
        ) by {
            assert(made.spec_row_same(old(world), j));
        }
    }
    e
}

/// Row `e` of `world` is an item of the kind `config` lying at `at`.
pub open spec fn spec_item_row(world: &World, e: int, config: &ItemConfig, at: Position) -> bool {
    &&& world.alive[e]
    &&& world.positions[e] == Some(at)
    &&& (world.names[e] matches Some(n) && n.name@ == config.name@)
    &&& (world.items[e] matches Some(i) && i.description@ == config.description@ && i.base_value
        == config.base_value)
    &&& world.renderables[e] == (match config.renderable {
        Some(r) => Some(Renderable { glyph: r.glyph, fg: r.fg, bg: r.bg, index: r.index }),
        None => None,
    })
    &&& world.potions[e] == (match config.potion {
        Some(p) => Some(Potion { heal_amount: p.heal_amount }),
        None => None,
    })
    &&& world.magic_mappers[e] == (config.scroll matches Some(s) && s.scroll_type == ScrollType::MagicMapper)
    &&& world.equippables[e] == (match config.equippable {
        Some(q) => Some(Equippable { slot: q.slot }),
        None => None,
    })
    &&& world.melee_weapons[e] == (match config.melee_weapon {
        Some(w) => Some(MeleeWeapon { damage: w.damage, damage_type: w.damage_type }),
        None => None,
    })
    &&& world.ranged_weapons[e] == (match config.ranged_weapon {
        Some(w) => Some(RangedWeapon { damage: w.damage, damage_type: w.damage_type, range: w.range, target: None }),
        None => None,
    })
    &&& world.magic_weapons[e] == (match config.magic_weapon {
        Some(w) => Some(MagicWeapon { range: w.range, target: None }),
        None => None,
    })
    &&& world.armors[e] == (match config.armor {
        Some(a) => Some(Armor { defense: a.defense }),
        None => None,
    })
    &&& world.hidden[e] == (config.hidden == Some(true))
    &&& world.triggerables[e] == (match config.triggerable {
        Some(t) => Some(Triggerable { damage: t.damage }),
        None => None,
    })
    &&& !world.players[e]
    &&& !world.monsters[e]
    &&& !world.blockers[e]
    &&& world.stats[e] is None
    &&& world.viewsheds[e] is None
    &&& world.inventories[e] is None
    &&& world.equipped[e] is None
    &&& world.backpacks[e] is None
}

/// Makes an item of the kind `config` at `at`.
pub fn spawn_item(world: &mut World, config: &ItemConfig, at: Position) -> (e: Entity)
    requires
        old(world).wf(),
    ensures
        final(world).wf(),
        final(world).spec_len() == old(world).spec_len() + 1,
        final(world).player == old(world).player,
        e.id == old(world).spec_len(),
        spec_item_row(final(world), e.id as int, config, at),
        forall|j: int| 0 <= j < old(world).spec_len() ==> #[trigger] final(world).spec_row_same(old(world), j),
{
    let e: Entity = world.create_entity();
    let ghost made = *world;
    world.positions.set(e.id, Some(at));
    world.names.set(e.id, Some(Name { name: config.name.clone() }));
    world.items.set(e.id, Some(Item { description: config.description.clone(), base_value: config.base_value }));
    world.renderables.set(
        e.id,
        match config.renderable {
            Some(r) => Some(Renderable { glyph: r.glyph, fg: r.fg, bg: r.bg, index: r.index }),
            None => None,
        },
    );
    world.potions.set(
        e.id,
        match config.potion {
            Some(p) => Some(Potion { heal_amount: p.heal_amount }),
            None => None,
        },
    );
    world.magic_mappers.set(
        e.id,
        match config.scroll {
            Some(s) => match s.scroll_type {
                ScrollType::MagicMapper => true,
            },
            None => false,
        },
    );
    world.equippables.set(
        e.id,
        match config.equippable {
            Some(q) => Some(Equippable { slot: q.slot }),
            None => None,
        },
    );
    world.melee_weapons.set(
        e.id,
        match config.melee_weapon {
            Some(w) => Some(MeleeWeapon { damage: w.damage, damage_type: w.damage_type }),
            None => None,
        },
    );
    world.ranged_weapons.set(
        e.id,
        match config.ranged_weapon {
            Some(w) => Some(
                RangedWeapon { damage: w.damage, damage_type: w.damage_type, range: w.range, target: None },
            ),
            None => None,
        },
    );
    world.magic_weapons.set(
        e.id,
        match config.magic_weapon {
            Some(w) => Some(MagicWeapon { range: w.range, target: None }),
            None => None,
        },
    );
    world.armors.set(
        e.id,
        match config.armor {
            Some(a) => Some(Armor { defense: a.defense }),
            None => None,
        },
    );
    world.hidden.set(
        e.id,
        match config.hidden {
            Some(h) => h,
            None => false,
        },
    );
    world.triggerables.set(
        e.id,
        match config.triggerable {
            Some(t) => Some(Triggerable { damage: t.damage }),
            None => None,
        },
    );
    proof {
        assert forall|j: int| 0 <= j < old(world).spec_len() implies #[trigger] world.spec_row_same(
            old(world),
            j,
        ) by {
            assert(made.spec_row_same(old(world), j));
        }
    }
    e
}

/// Row `e` of `world` is a monster of the kind `config` standing at `at`.
pub open spec fn spec_monster_row(world: &World, e: int, config: &MonsterConfig, at: Position) -> bool {
    &&& world.alive[e]
    &&& world.positions[e] == Some(at)
    &&& (world.names[e] matches Some(n) && n.name@ == config.name@)
    &&& world.monsters[e]
    &&& world.renderables[e] == (match config.renderable {
        Some(r) => Some(Renderable { glyph: r.glyph, fg: r.fg, bg: r.bg, index: r.index }),
        None => None,
    })
    &&& (match config.viewshed {
        Some(v) => world.viewsheds[e] matches Some(w) && w.range == v.range && w.visible_tiles@.len() == 0,
        None => world.viewsheds[e] is None,
    })
    &&& world.stats[e] == (match config.stats {
        Some(s) => Some(
            Stats {
                hp: s.hp,
                mp: s.mp,
                exp: s.exp,
                level: s.level,
                strength: s.strength,
                dexterity: s.dexterity,
                constitution: s.constitution,
                intelligence: s.intelligence,
                wisdom: s.wisdom,
                charisma: s.charisma,
            },
        ),
        None => None,
    })
    &&& (if config.spells@.len() > 0 {
        world.spellbooks[e] matches Some(b) && b.spells@ == config.spells@
    } else {
        world.spellbooks[e] is None
    })
    &&& !world.players[e]
    &&& !world.blockers[e]
    &&& !world.hidden[e]
    &&& world.items[e] is None
    &&& world.attacks[e] is None
    &&& world.damages[e] is None
    &&& world.experiences[e] is None
}

/// Makes a monster of the kind `config` at `at`.
pub fn spawn_monster(world: &mut World, config: &MonsterConfig, at: Position) -> (e: Entity)
    requires
        old(world).wf(),
    ensures
        final(world).wf(),
        final(world).spec_len() == old(world).spec_len() + 1,
        final(world).player == old(world).player,
        e.id == old(world).spec_len(),
        spec_monster_row(final(world), e.id as int, config, at),
        forall|j: int| 0 <= j < old(world).spec_len() ==> #[trigger] final(world).spec_row_same(old(world), j),
{
    let e: Entity = world.create_entity();
    let ghost made = *world;
    world.positions.set(e.id, Some(at));
    world.names.set(e.id, Some(Name { name: config.name.clone() }));
    world.monsters.set(e.id, true);
    world.renderables.set(
        e.id,
        match config.renderable {
            Some(r) => Some(Renderable { glyph: r.glyph, fg: r.fg, bg: r.bg, index: r.index }),
            None => None,
        },
    );
    world.viewsheds.set(
        e.id,
        match config.viewshed {
            Some(v) => Some(Viewshed { visible_tiles: Vec::new(), range: v.range }),
            None => None,
        },
    );
    world.stats.set(
        e.id,
        match config.stats {
            Some(s) => Some(
                Stats {
                    hp: s.hp,
                    mp: s.mp,
                    exp: s.exp,
                    level: s.level,
                    strength: s.strength,
                    dexterity: s.dexterity,
                    constitution: s.constitution,
                    intelligence: s.intelligence,
                    wisdom: s.wisdom,
                    charisma: s.charisma,
                },
            ),
            None => None,
        },
    );
    if config.spells.len() > 0 {
        world.spellbooks.set(e.id, Some(Spellbook { spells: config.spells.clone() }));
    }
    proof {
        assert forall|j: int| 0 <= j < old(world).spec_len() implies #[trigger] world.spec_row_same(
            old(world),
            j,
        ) by {
            assert(made.spec_row_same(old(world), j));
        }
    }
    e
}

/// Makes a particle at `at` that shows `glyph` until its lifetime is over.
pub fn spawn_particle(world: &mut World, at: Position, glyph: char, fg: Tint, bg: Tint, now_ms: u128) -> (e: Entity)
    requires
        old(world).wf(),
    ensures
        final(world).wf(),
        final(world).spec_len() == old(world).spec_len() + 1,
        final(world).player == old(world).player,
        e.id == old(world).spec_len(),
        final(world).alive[e.id as int],
        final(world).positions[e.id as int] == Some(at),
        final(world).renderables[e.id as int] == Some(Renderable { glyph, fg, bg, index: 0 }),
        final(world).lifetimes[e.id as int] == Some(
            Lifetime { created_at: now_ms, lifetime_ms: PARTICLE_LIFETIME_MS },
        ),
        final(world).names[e.id as int] is None,
        final(world).stats[e.id as int] is None,
        !final(world).blockers[e.id as int],
        !final(world).players[e.id as int],
        final(world).spec_row_quiet(e.id as int),
        forall|j: int| 0 <= j < old(world).spec_len() ==> #[trigger] final(world).spec_row_same(old(world), j),
{
    let e: Entity = world.create_entity();
    let ghost made = *world;
    world.positions.set(e.id, Some(at));
    world.renderables.set(e.id, Some(Renderable { glyph, fg, bg, index: 0 }));
    world.lifetimes.set(e.id, Some(Lifetime { created_at: now_ms, lifetime_ms: PARTICLE_LIFETIME_MS }));
    proof {
        assert forall|j: int| 0 <= j < old(world).spec_len() implies #[trigger] world.spec_row_same(
            old(world),
            j,
        ) by {
            assert(made.spec_row_same(old(world), j));
        }
    }
    e
}

/// Row `e` of `world` is a townsman called `name` who stands at `at`,
/// blocks the way, and is drawn as `glyph`.
pub open spec fn spec_townsman_row(world: &World, e: int, name: Seq<char>, glyph: char, at: Position) -> bool {
    &&& world.alive[e]
    &&& world.positions[e] == Some(at)
    &&& (world.names[e] matches Some(n) && n.name@ == name)
    &&& world.renderables[e] == Some(Renderable { glyph, fg: Tint::Cyan, bg: Tint::Black, index: 1 })
    &&& world.blockers[e]
    &&& !world.players[e]
    &&& !world.monsters[e]
    &&& !world.hidden[e]
    &&& world.stats[e] is None
    &&& world.items[e] is None
}

fn spawn_townsman(world: &mut World, name: &str, glyph: char, at: Position) -> (e: Entity)
    requires
        old(world).wf(),
    ensures
        final(world).wf(),
        final(world).spec_len() == old(world).spec_len() + 1,
        final(world).player == old(world).player,
        e.id == old(world).spec_len(),
        spec_townsman_row(final(world), e.id as int, name@, glyph, at),
        final(world).vendors[e.id as int] is None,
        forall|j: int| 0 <= j < old(world).spec_len() ==> #[trigger] final(world).spec_row_same(old(world), j),
{
    let e: Entity = world.create_entity();
    let ghost made = *world;
    world.positions.set(e.id, Some(at));
    world.names.set(e.id, Some(Name { name: String::from_str(name) }));
    world.renderables.set(e.id, Some(Renderable { glyph, fg: Tint::Cyan, bg: Tint::Black, index: 1 }));
    world.blockers.set(e.id, true);
    proof {
        assert forall|j: int| 0 <= j < old(world).spec_len() implies #[trigger] world.spec_row_same(
            old(world),
            j,
        ) by {
            assert(made.spec_row_same(old(world), j));
        }
    }
    e
}

/// Makes the captain of the village guard at `(x, y)`.
pub fn spawn_npc_captain(world: &mut World, x: i32, y: i32) -> (e: Entity)
    requires
        old(world).wf(),
    ensures
        final(world).wf(),
        final(world).spec_len() == old(world).spec_len() + 1,
        final(world).player == old(world).player,
        e.id == old(world).spec_len(),
        spec_townsman_row(final(world), e.id as int, "Captain"@, 'C', Position { x, y }),
        final(world).vendors[e.id as int] is None,
        forall|j: int| 0 <= j < old(world).spec_len() ==> #[trigger] final(world).spec_row_same(old(world), j),
{
    spawn_townsman(world, "Captain", 'C', Position { x, y })
}

/// Makes the merchant at `(x, y)`, with nothing for sale yet.
pub fn spawn_npc_merchant(world: &mut World, x: i32, y: i32) -> (e: Entity)
    requires
        old(world).wf(),
    ensures
        final(world).wf(),
        final(world).spec_len() == old(world).spec_len() + 1,
        final(world).player == old(world).player,
        e.id == old(world).spec_len(),
        spec_townsman_row(final(world), e.id as int, "Merchant"@, 'M', Position { x, y }),
        final(world).vendors[e.id as int] matches Some(v) && v.items@.len() == 0,
        forall|j: int| 0 <= j < old(world).spec_len() ==> #[trigger] final(world).spec_row_same(old(world), j),
{
    let e: Entity = spawn_townsman(world, "Merchant", 'M', Position { x, y });
    let ghost made = *world;
    world.vendors.set(e.id, Some(Vendor { items: Vec::new() }));
    proof {
        assert forall|j: int| 0 <= j < old(world).spec_len() implies #[trigger] world.spec_row_same(
            old(world),
            j,
        ) by {
            assert(made.spec_row_same(old(world), j));
        }
    }
    e
}

/// Row `x` of `world` is a ware of the kind `config`: an item of that kind
/// that lies nowhere.
pub open spec fn spec_ware_row(world: &World, x: int, config: &ItemConfig) -> bool {
    &&& world.alive[x]
    &&& world.positions[x] is None
    &&& (world.names[x] matches Some(n) && n.name@ == config.name@)
    &&& (world.items[x] matches Some(i) && i.base_value == config.base_value)
}

/// Puts one item of each of the kinds into the wares of `vendor`, after
/// what the vendor already sells, in the order of the kinds.
pub fn stock_vendor(world: &mut World, vendor: Entity, kinds: &Vec<ItemConfig>)
    requires
        old(world).wf(),
        vendor.id < old(world).spec_len(),
        old(world).vendors[vendor.id as int] is Some,
    ensures
        final(world).wf(),
        final(world).spec_len() == old(world).spec_len() + kinds@.len(),
        final(world).player == old(world).player,
        final(world).vendors[vendor.id as int] matches Some(v) && v.items@.len() == old(world).vendors[vendor.id as int].unwrap().items@.len()
            + kinds@.len(),
        forall|k: int|
            0 <= k < kinds@.len() ==> #[trigger] spec_ware_row(final(world), old(world).spec_len() + k, &kinds@[k]),
        forall|k: int|
            0 <= k < kinds@.len() ==> (#[trigger] final(world).vendors[vendor.id as int].unwrap().items@[old(world).vendors[vendor.id as int].unwrap().items@.len() + k]).id == old(world).spec_len() + k,
        forall|k: int|
            0 <= k < old(world).vendors[vendor.id as int].unwrap().items@.len() ==> #[trigger] final(world).vendors[vendor.id as int].unwrap().items@[k] == old(world).vendors[vendor.id as int].unwrap().items@[k],
        forall|j: int|
            0 <= j < old(world).spec_len() && j != vendor.id ==> #[trigger] final(world).spec_row_same(old(world), j),
        final(world).spec_row_same_but_wares(old(world), vendor.id as int),
{
    let ghost base = world.spec_len();
    let ghost wares = world.vendors[vendor.id as int].unwrap().items@;
    let mut k: usize = 0;
    while k < kinds.len()
        invariant
            k <= kinds.len(),
            base == old(world).spec_len(),
            wares == old(world).vendors[vendor.id as int].unwrap().items@,
            vendor.id < base,
            world.wf(),
            world.spec_len() == base + k,
            world.player == old(world).player,
            world.vendors[vendor.id as int] matches Some(v) && v.items@.len() == wares.len() + k,
            forall|m: int| 0 <= m < k ==> #[trigger] spec_ware_row(world, base + m, &kinds@[m]),
            forall|m: int|
                0 <= m < k ==> (#[trigger] world.vendors[vendor.id as int].unwrap().items@[wares.len() + m]).id == base
                    + m,
            forall|m: int|
                0 <= m < wares.len() ==> #[trigger] world.vendors[vendor.id as int].unwrap().items@[m] == wares[m],
            forall|j: int| 0 <= j < base && j != vendor.id ==> #[trigger] world.spec_row_same(old(world), j),
            world.spec_row_same_but_wares(old(world), vendor.id as int),
        decreases kinds.len() - k,
    {
        let ghost before = *world;
        let ware: Entity = spawn_item(world, &kinds[k], Position { x: 0, y: 0 });
        let ghost made = *world;
        world.positions.set(ware.id, None);
        assert(made.spec_row_same(&before, vendor.id as int));
        match &mut world.vendors[vendor.id] {
            Some(v) => {
                v.items.push(ware);
            },
            None => {},
        }
        proof {
            assert forall|m: int| 0 <= m < k + 1 implies #[trigger] spec_ware_row(world, base + m, &kinds@[m]) by {
                if m < k {
                    assert(made.spec_row_same(&before, base + m));
                    assert(spec_ware_row(&before, base + m, &kinds@[m]));
                }
            }
            assert forall|j: int| 0 <= j < base && j != vendor.id implies #[trigger] world.spec_row_same(
                old(world),
                j,
            ) by {
                assert(made.spec_row_same(&before, j));
                assert(before.spec_row_same(old(world), j));
            }
        }
        k += 1;
    }
}

/// Whether a kind with the spawn entry `spawn` is found on floor `floor`:
/// it has an entry, a weight above zero, and the floor is deep enough.
pub open spec fn spec_found_on(spawn: Option<SpawnConfig>, floor: u32) -> bool {
    spawn matches Some(s) && s.base_weight > 0 && s.min_floor <= floor
}

/// The entries of a table once `key` has been offered with `weight`.
pub open spec fn spec_offered(entries: Seq<(usize, i32)>, key: usize, weight: i32) -> Seq<(usize, i32)> {
    if weight > 0 && spec_prefix(entries, entries.len() as int) + weight < i32::MAX {
        entries.push((key, weight))
    } else {
        entries
    }
}

/// The entries of the table of the first `n` spawn entries for floor
/// `floor`: each kind found there, by its place in the list, with its
/// weight.
pub open spec fn spec_spawn_entries(spawns: Seq<Option<SpawnConfig>>, floor: u32, n: int) -> Seq<(usize, i32)>
    decreases n,
{
    if n <= 0 {
        Seq::empty()
    } else {
        let rest = spec_spawn_entries(spawns, floor, n - 1);
        if spec_found_on(spawns[n - 1], floor) {
            spec_offered(rest, (n - 1) as usize, spawns[n - 1].unwrap().base_weight)
        } else {
            rest
        }
    }
}

/// Every key in the entries is below `n` and names a kind found on `floor`.
pub proof fn lemma_spawn_entries_valid(spawns: Seq<Option<SpawnConfig>>, floor: u32, n: int)
    requires
        0 <= n <= spawns.len() <= usize::MAX,
    ensures
        forall|i: int|
            0 <= i < spec_spawn_entries(spawns, floor, n).len() ==> (#[trigger] spec_spawn_entries(
                spawns,
                floor,
                n,
            )[i]).0 < n && spec_found_on(spawns[spec_spawn_entries(spawns, floor, n)[i].0 as int], floor),
    decreases n,
{
    if n > 0 {
        lemma_spawn_entries_valid(spawns, floor, n - 1);
        let rest = spec_spawn_entries(spawns, floor, n - 1);
        let all = spec_spawn_entries(spawns, floor, n);
        assert forall|i: int| 0 <= i < all.len() implies (#[trigger] all[i]).0 < n && spec_found_on(
            spawns[all[i].0 as int],
            floor,
        ) by {
            if i < rest.len() {
                assert(all[i] == rest[i]);
            }
        }
    }
}

/// The spawn entries of the item kinds.
pub open spec fn spec_item_spawns(items: Seq<ItemConfig>) -> Seq<Option<SpawnConfig>> {
    items.map_values(|c: ItemConfig| c.spawn)
}

/// The spawn entries of the monster kinds.
pub open spec fn spec_monster_spawns(monsters: Seq<MonsterConfig>) -> Seq<Option<SpawnConfig>> {
    monsters.map_values(|c: MonsterConfig| c.spawn)
}

/// The table from which an item for floor `floor` is drawn.
pub fn item_table(items: &Vec<ItemConfig>, floor: u32) -> (table: RandomTable)
    ensures
        table.wf(),
        table.entries@ == spec_spawn_entries(spec_item_spawns(items@), floor, items@.len() as int),
{
    let mut table: RandomTable = RandomTable::new();
    let mut k: usize = 0;
    while k < items.len()
        invariant
            k <= items.len(),
            table.wf(),
            table.entries@ == spec_spawn_entries(spec_item_spawns(items@), floor, k as int),
        decreases items.len() - k,
    {
        match items[k].spawn {
            Some(s) => {
                if s.base_weight > 0 && s.min_floor as i64 <= floor as i64 {
                    table.push(k, s.base_weight);
                }
            },
            None => {},
        }
        assert(spec_item_spawns(items@)[k as int] == items@[k as int].spawn);
        k += 1;
    }
    table
}

/// The table from which a monster for floor `floor` is drawn.
pub fn monster_table(monsters: &Vec<MonsterConfig>, floor: u32) -> (table: RandomTable)
    ensures
        table.wf(),
        table.entries@ == spec_spawn_entries(spec_monster_spawns(monsters@), floor, monsters@.len() as int),
{
    let mut table: RandomTable = RandomTable::new();
    let mut k: usize = 0;
    while k < monsters.len()
        invariant
            k <= monsters.len(),
            table.wf(),
            table.entries@ == spec_spawn_entries(spec_monster_spawns(monsters@), floor, k as int),
        decreases monsters.len() - k,
    {
        match monsters[k].spawn {
            Some(s) => {
                if s.base_weight > 0 && s.min_floor as i64 <= floor as i64 {
                    table.push(k, s.base_weight);
                }
            },
            None => {},
        }
        assert(spec_monster_spawns(monsters@)[k as int] == monsters@[k as int].spawn);
        k += 1;
    }
    table
}

/// A place on the floor of `room`, drawn at random.
pub fn random_spot(rng: &mut rltk::RandomNumberGenerator, room: &Rect) -> (at: Position)
    requires
        room.x1 < room.x2,
        room.y1 < room.y2,
        room.x2 - room.x1 < i32::MAX,
        room.y2 - room.y1 < i32::MAX,
    ensures
        room.spec_interior(at.x as int, at.y as int),
{
    let width: i32 = room.x2 - room.x1;
    let height: i32 = room.y2 - room.y1;
    let x: i32 = room.x1 + roll_dice(rng, 1, width);
    let y: i32 = room.y1 + roll_dice(rng, 1, height);
    Position { x, y }
}

/// Row `e` is an item of one of the kinds found on floor `floor`, lying on
/// the floor of `room`.
pub open spec fn spec_item_made(world: &World, e: int, items: Seq<ItemConfig>, floor: u32, room: Rect) -> bool {
    exists|k: int, at: Position|
        0 <= k < items.len() && spec_found_on(items[k].spawn, floor) && room.spec_interior(
            at.x as int,
            at.y as int,
        ) && #[trigger] spec_item_row(world, e, &items[k], at)
}

/// Row `e` is a monster of one of the kinds found on floor `floor`,
/// standing on the floor of `room`.
pub open spec fn spec_monster_made(
    world: &World,
    e: int,
    monsters: Seq<MonsterConfig>,
    floor: u32,
    room: Rect,
) -> bool {
    exists|k: int, at: Position|
        0 <= k < monsters.len() && spec_found_on(monsters[k].spawn, floor) && room.spec_interior(
            at.x as int,
            at.y as int,
        ) && #[trigger] spec_monster_row(world, e, &monsters[k], at)
}

/// Makes an item on the floor of `room`: its kind drawn from the kinds
/// found on floor `floor_index`, each as often as its weight says, and its
/// place drawn from the room's floor. Where no kind is found on that floor
/// nothing is made.
pub fn spawn_weighted_item(
    world: &mut World,
    rng: &mut rltk::RandomNumberGenerator,
    items: &Vec<ItemConfig>,
    floor_index: u32,
    room: &Rect,
) -> (made: Option<Entity>)
    requires
        old(world).wf(),
        room.x1 < room.x2,
        room.y1 < room.y2,
        room.x2 - room.x1 < i32::MAX,
        room.y2 - room.y1 < i32::MAX,
    ensures
        final(world).wf(),
        final(world).player == old(world).player,
        forall|j: int| 0 <= j < old(world).spec_len() ==> #[trigger] final(world).spec_row_same(old(world), j),
        made matches Some(e) ==> e.id == old(world).spec_len(),
        made is Some ==> final(world).spec_len() == old(world).spec_len() + 1,
        made matches Some(e) ==> spec_item_made(final(world), e.id as int, items@, floor_index, *room),
        made is None ==> final(world).spec_len() == old(world).spec_len(),
        made is None <==> spec_spawn_entries(spec_item_spawns(items@), floor_index, items@.len() as int).len() == 0,
{
    let at: Position = random_spot(rng, room);
    let table: RandomTable = item_table(items, floor_index);
    let count: usize = items.len();
    proof {
        assert(spec_item_spawns(items@).len() == count);
        lemma_spawn_entries_valid(spec_item_spawns(items@), floor_index, count as int);
    }
    match table.roll(rng) {
        Some(k) => {
            proof {
                let entries = spec_spawn_entries(spec_item_spawns(items@), floor_index, count as int);
                let i = choose|i: int| 0 <= i < table.entries@.len() && (#[trigger] table.entries@[i]).0 == k;
                assert(entries[i].0 == k);
                assert(k < count);
                assert(spec_item_spawns(items@)[k as int] == items@[k as int].spawn);
                assert(spec_found_on(items@[k as int].spawn, floor_index));
            }
            let e: Entity = spawn_item(world, &items[k], at);
            assert(0 <= k < items@.len() && spec_found_on(items@[k as int].spawn, floor_index)
                && room.spec_interior(at.x as int, at.y as int) && spec_item_row(
                world,
                e.id as int,
                &items@[k as int],
                at,
            ));
            Some(e)
        },
        None => {
            assert forall|j: int| 0 <= j < old(world).spec_len() implies #[trigger] world.spec_row_same(
                old(world),
                j,
            ) by {}
            None
        },
    }
}

/// Makes a monster on the floor of `room`: its kind drawn from the kinds
/// found on floor `floor_index`, each as often as its weight says, and its
/// place drawn from the room's floor. Where no kind is found on that floor
/// nothing is made.
pub fn spawn_weighted_monster(
    world: &mut World,
    rng: &mut rltk::RandomNumberGenerator,
    monsters: &Vec<MonsterConfig>,
    floor_index: u32,
    room: &Rect,
) -> (made: Option<Entity>)
    requires
        old(world).wf(),
        room.x1 < room.x2,
        room.y1 < room.y2,
        room.x2 - room.x1 < i32::MAX,
        room.y2 - room.y1 < i32::MAX,
    ensures
        final(world).wf(),
        final(world).player == old(world).player,
        forall|j: int| 0 <= j < old(world).spec_len() ==> #[trigger] final(world).spec_row_same(old(world), j),
        made matches Some(e) ==> e.id == old(world).spec_len(),
        made is Some ==> final(world).spec_len() == old(world).spec_len() + 1,
        made matches Some(e) ==> spec_monster_made(final(world), e.id as int, monsters@, floor_index, *room),
        made is None ==> final(world).spec_len() == old(world).spec_len(),
        made is None <==> spec_spawn_entries(
            spec_monster_spawns(monsters@),
            floor_index,
            monsters@.len() as int,
        ).len() == 0,
{
    let at: Position = random_spot(rng, room);
    let table: RandomTable = monster_table(monsters, floor_index);
    let count: usize = monsters.len();
    proof {
        assert(spec_monster_spawns(monsters@).len() == count);
        lemma_spawn_entries_valid(spec_monster_spawns(monsters@), floor_index, count as int);
    }
    match table.roll(rng) {
        Some(k) => {
            proof {
                let entries = spec_spawn_entries(spec_monster_spawns(monsters@), floor_index, count as int);
                let i = choose|i: int| 0 <= i < table.entries@.len() && (#[trigger] table.entries@[i]).0 == k;
                assert(entries[i].0 == k);
                assert(k < count);
                assert(spec_monster_spawns(monsters@)[k as int] == monsters@[k as int].spawn);
                assert(spec_found_on(monsters@[k as int].spawn, floor_index));
            }
            let e: Entity = spawn_monster(world, &monsters[k], at);
            assert(0 <= k < monsters@.len() && spec_found_on(monsters@[k as int].spawn, floor_index)
                && room.spec_interior(at.x as int, at.y as int) && spec_monster_row(
                world,
                e.id as int,
                &monsters@[k as int],
                at,
            ));
            Some(e)
        },
        None => {
            assert forall|j: int| 0 <= j < old(world).spec_len() implies #[trigger] world.spec_row_same(
                old(world),
                j,
            ) by {}
            None
        },
    }
}

} // verus!
