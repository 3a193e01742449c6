//! Picking items up, and using what has been picked up: drinking, wearing,
//! reading.

use crate::component::{
    clamp, spec_clamp, Entity, EquipmentSlot, Equippable, Equipped, Flags, InBackpack, Name, Pool, Potion, Stats,
    Table, WantsToConsumeItem, WantsToPickupItem,
};
use crate::geometry::Position;
use crate::inventory::{spec_added, spec_last_taken, spec_stack_ends, Inventory};
use crate::logbook::{
    decimal, lemma_log_grew_by_line, lemma_log_grew_further, lemma_log_grew_once_more, spec_decimal, spec_line_text,
    spec_log_grew_by, LogFragment, Logbook, Logger,
};
use crate::map::GameMap;
use vstd::prelude::*;

verus! {

/// Every wish to pick up names an item that is an entity with a name.
pub open spec fn spec_pickups_valid(wants: Seq<Option<WantsToPickupItem>>, names: Seq<Option<Name>>) -> bool {
    forall|e: int|
        0 <= e < wants.len() ==> ((#[trigger] wants[e]) matches Some(p) ==> p.item.id < names.len()
            && names[p.item.id as int] is Some)
}

/// Every wish to consume names an item that is an entity with a name.
pub open spec fn spec_consumptions_valid(wants: Seq<Option<WantsToConsumeItem>>, names: Seq<Option<Name>>) -> bool {
    forall|e: int|
        0 <= e < wants.len() ==> ((#[trigger] wants[e]) matches Some(c) ==> c.item.id < names.len()
            && names[c.item.id as int] is Some)
}

/// Every inventory in the table is well-formed.
pub open spec fn spec_inventories_wf(inventories: Seq<Option<Inventory>>) -> bool {
    forall|e: int| 0 <= e < inventories.len() ==> ((#[trigger] inventories[e]) matches Some(i) ==> i.wf())
}

/// Entity `e` picks something up this tick: it has a name and the wish.
pub open spec fn spec_picks(wants: Seq<Option<WantsToPickupItem>>, names: Seq<Option<Name>>, e: int) -> bool {
    0 <= e < wants.len() && e < names.len() && wants[e] is Some && names[e] is Some
}

/// Who holds item `x` after the first `n` entities have picked up: the
/// collector named by the last of them that picked `x`, if any did.
pub open spec fn spec_collector(
    wants: Seq<Option<WantsToPickupItem>>,
    names: Seq<Option<Name>>,
    x: Entity,
    n: int,
) -> Option<Entity>
    decreases n,
{
    if n <= 0 {
        None
    } else if spec_picks(wants, names, n - 1) && wants[n - 1].unwrap().item == x {
        Some(wants[n - 1].unwrap().collected_by)
    } else {
        spec_collector(wants, names, x, n - 1)
    }
}

/// The stacks of collector `c` after the first `n` entities have picked up:
/// every item collected for `c` added under its name, in the order of the
/// pickers' identifiers.
pub open spec fn spec_gathered(
    stacks: Seq<(Seq<char>, Seq<Entity>)>,
    wants: Seq<Option<WantsToPickupItem>>,
    names: Seq<Option<Name>>,
    c: Entity,
    n: int,
) -> Seq<(Seq<char>, Seq<Entity>)>
    decreases n,
{
    if n <= 0 {
        stacks
    } else {
        let rest = spec_gathered(stacks, wants, names, c, n - 1);
        if spec_picks(wants, names, n - 1) && wants[n - 1].unwrap().collected_by == c {
            spec_added(rest, names[wants[n - 1].unwrap().item.id as int].unwrap().name@, wants[n - 1].unwrap().item)
        } else {
            rest
        }
    }
}

/// What an inventory holds, how much gold, and which stack is selected.
pub open spec fn spec_inventory_view(inventory: Option<Inventory>) -> Option<
    (Seq<(Seq<char>, Seq<Entity>)>, i32, usize),
> {
    match inventory {
        Some(i) => Some((i@, i.gold, i.index)),
        None => None,
    }
}

pub open spec fn spec_pickup_text(item: Seq<char>) -> Seq<char> {
    "You pick up the "@ + item + "."@
}

/// Tells the player what has been picked up.
pub fn say_picked_up(item: &Name, log: &mut Logbook)
    ensures
        final(log).entries@.len() == old(log).entries@.len() + 1,
        final(log).extends(old(log)),
        spec_line_text(final(log).entries@.last()@) == spec_pickup_text(item.name@),
{
    let line: Logger = Logger::new().append("You pick up the ").append(item.name.as_str()).append(".");
    assert(spec_line_text(line.fragments@) =~= spec_pickup_text(item.name@)) by {
        assert(spec_line_text(Seq::<LogFragment>::empty()) =~= Seq::<char>::empty());
    }
    line.log(log);
}

/// The name of an equipment slot as the narration writes it.
pub open spec fn spec_slot_name(slot: EquipmentSlot) -> Seq<char> {
    match slot {
        EquipmentSlot::Weapon => "Weapon"@,
        EquipmentSlot::Shield => "Shield"@,
        EquipmentSlot::Head => "Head"@,
        EquipmentSlot::Chest => "Chest"@,
        EquipmentSlot::Hands => "Hands"@,
        EquipmentSlot::Legs => "Legs"@,
        EquipmentSlot::Feet => "Feet"@,
    }
}

/// The name of an equipment slot as the narration writes it.
pub fn slot_name(slot: EquipmentSlot) -> (name: &'static str)
    ensures
        name@ == spec_slot_name(slot),
{
    match slot {
        EquipmentSlot::Weapon => "Weapon",
        EquipmentSlot::Shield => "Shield",
        EquipmentSlot::Head => "Head",
        EquipmentSlot::Chest => "Chest",
        EquipmentSlot::Hands => "Hands",
        EquipmentSlot::Legs => "Legs",
        EquipmentSlot::Feet => "Feet",
    }
}

/// The stats of a creature that has drunk a potion: the healing added to
/// the current health, which stops at the maximum.
pub open spec fn spec_healed(stats: Stats, heal_amount: int) -> Stats {
    let raised = spec_clamp(stats.hp.current + heal_amount);
    Stats {
        hp: Pool { current: if raised < stats.hp.max {
            raised as i32
        } else {
            stats.hp.max
        }, max: stats.hp.max },
        ..stats
    }
}

/// The stats of a creature that has drunk a potion.
pub fn healed(stats: Stats, heal_amount: i32) -> (after: Stats)
    ensures
        after == spec_healed(stats, heal_amount as int),
{
    let raised: i32 = clamp(stats.hp.current as i128 + heal_amount as i128);
    let current: i32 = if raised < stats.hp.max { raised } else { stats.hp.max };
    Stats { hp: Pool { current, max: stats.hp.max }, ..stats }
}

/// The wearer `wearer` wears the item with these links in `slot`.
pub open spec fn spec_wears(link: Option<Equipped>, wearer: Entity, slot: EquipmentSlot) -> bool {
    link matches Some(q) && q.owner == wearer && q.slot == slot
}

/// The links from items to wearers once `wearer` has put on `item` in
/// `slot`: the item is linked to the wearer, and every other item that the
/// wearer wore in that slot is no longer worn, whether it has a name or
/// not.
pub open spec fn spec_put_on(
    equipped: Seq<Option<Equipped>>,
    wearer: Entity,
    item: Entity,
    slot: EquipmentSlot,
) -> Seq<Option<Equipped>> {
    Seq::new(
        equipped.len(),
        |j: int|
            if j == item.id {
                Some(Equipped { slot, owner: wearer })
            } else if spec_wears(equipped[j], wearer, slot) {
                None
            } else {
                equipped[j]
            },
    )
}

pub open spec fn spec_unequip_text(item: Seq<char>, slot: EquipmentSlot) -> Seq<char> {
    "You unequip the "@ + item + " from the "@ + spec_slot_name(slot) + " slot."@
}

pub open spec fn spec_equip_text(item: Seq<char>, slot: EquipmentSlot) -> Seq<char> {
    "You equip the "@ + item + " to the "@ + spec_slot_name(slot) + " slot."@
}

/// The lines that tell of what `wearer` takes off in `slot` among the first
/// `upto` items: one for each item with a name, in the order of the
/// identifiers.
pub open spec fn spec_taken_off(
    equipped: Seq<Option<Equipped>>,
    names: Seq<Option<Name>>,
    wearer: Entity,
    slot: EquipmentSlot,
    upto: int,
) -> Seq<Seq<char>>
    decreases upto,
{
    if upto <= 0 {
        Seq::empty()
    } else {
        let said = spec_taken_off(equipped, names, wearer, slot, upto - 1);
        match names[upto - 1] {
            Some(name) if spec_wears(equipped[upto - 1], wearer, slot) => said.push(
                spec_unequip_text(name.name@, slot),
            ),
            _ => said,
        }
    }
}

/// The lines that putting `item` on tells: what is taken off, and then,
/// for the player alone, what is put on.
pub open spec fn spec_put_on_said(
    equipped: Seq<Option<Equipped>>,
    names: Seq<Option<Name>>,
    wearer: Entity,
    item: Entity,
    slot: EquipmentSlot,
    is_player: bool,
) -> Seq<Seq<char>> {
    let off = spec_taken_off(equipped, names, wearer, slot, names.len() as int);
    if is_player {
        off.push(spec_equip_text(names[item.id as int].unwrap().name@, slot))
    } else {
        off
    }
}

/// Puts `item` on `wearer` in `slot`, taking off what the wearer wore
/// there. At most one item is worn by one wearer in one slot afterwards.
/// What is taken off is told where it has a name.
pub fn put_on(
    equipped: &mut Table<Equipped>,
    names: &Table<Name>,
    wearer: Entity,
    item: Entity,
    slot: EquipmentSlot,
    is_player: bool,
    log: &mut Logbook,
)
    requires
        old(equipped).len() == names.len(),
        item.id < names.len(),
        names[item.id as int] is Some,
    ensures
        final(equipped)@ == spec_put_on(old(equipped)@, wearer, item, slot),
        spec_log_grew_by(old(log), final(log), spec_put_on_said(old(equipped)@, names@, wearer, item, slot, is_player)),
{
    let n: usize = names.len();
    let mut j: usize = 0;
    while j < n
        invariant
            j <= n,
            n == names.len(),
            equipped.len() == n,
            old(equipped).len() == n,
            forall|k: int|
                0 <= k < n ==> #[trigger] equipped[k] == (if k < j && spec_wears(old(equipped)[k], wearer, slot) {
                    None
                } else {
                    old(equipped)[k]
                }),
            spec_log_grew_by(old(log), log, spec_taken_off(old(equipped)@, names@, wearer, slot, j as int)),
        decreases n - j,
    {
        match equipped[j] {
            Some(q) => {
                if q.owner == wearer && q.slot == slot {
                    match &names[j] {
                        Some(name) => {
                            let line: Logger = Logger::new().append("You unequip the ").append(
                                name.name.as_str(),
                            ).append(" from the ").append(slot_name(q.slot)).append(" slot.");
                            assert(spec_line_text(line.fragments@) =~= spec_unequip_text(name.name@, slot)) by {
                                assert(spec_line_text(Seq::<LogFragment>::empty()) =~= Seq::<char>::empty());
                            }
                            let ghost log_before = *log;
                            let ghost fragments = line.fragments;
                            line.log(log);
                            proof {
                                lemma_log_grew_once_more(
                                    old(log),
                                    &log_before,
                                    log,
                                    spec_taken_off(old(equipped)@, names@, wearer, slot, j as int),
                                    fragments,
                                );
                            }
                        },
                        None => {},
                    }
                    equipped.set(j, None);
                }
            },
            None => {},
        }
        assert(spec_log_grew_by(old(log), log, spec_taken_off(old(equipped)@, names@, wearer, slot, j + 1)));
        j += 1;
    }
    equipped.set(item.id, Some(Equipped { slot, owner: wearer }));
    if is_player {
        let item_name: &Name = names[item.id].as_ref().unwrap();
        let line: Logger = Logger::new().append("You equip the ").append(item_name.name.as_str()).append(
            " to the ",
        ).append(slot_name(slot)).append(" slot.");
        assert(spec_line_text(line.fragments@) =~= spec_equip_text(item_name.name@, slot)) by {
            assert(spec_line_text(Seq::<LogFragment>::empty()) =~= Seq::<char>::empty());
        }
        let ghost log_before = *log;
        let ghost fragments = line.fragments;
        line.log(log);
        proof {
            lemma_log_grew_once_more(
                old(log),
                &log_before,
                log,
                spec_taken_off(old(equipped)@, names@, wearer, slot, n as int),
                fragments,
            );
        }
    }
    assert(equipped@ =~= spec_put_on(old(equipped)@, wearer, item, slot));
}

/// After an item has been put on, it is all that the wearer wears in that
/// slot.
pub proof fn lemma_one_per_slot(
    equipped: Seq<Option<Equipped>>,
    wearer: Entity,
    item: Entity,
    slot: EquipmentSlot,
    j: int,
)
    requires
        0 <= item.id < equipped.len(),
        0 <= j < equipped.len(),
    ensures
        spec_wears(spec_put_on(equipped, wearer, item, slot)[j], wearer, slot) <==> j == item.id,
{
}

/// Entity `e` uses an item this tick: it has stats and the wish.
pub open spec fn spec_uses(wants: Seq<Option<WantsToConsumeItem>>, stats: Seq<Option<Stats>>, e: int) -> bool {
    0 <= e < wants.len() && e < stats.len() && wants[e] is Some && stats[e] is Some
}

/// The item that entity `e` uses.
pub open spec fn spec_used(wants: Seq<Option<WantsToConsumeItem>>, e: int) -> Entity {
    wants[e].unwrap().item
}

/// The links from items to wearers after the first `n` entities have used
/// their items: each equippable item put on its user, in the order of the
/// users' identifiers.
pub open spec fn spec_worn(
    equipped: Seq<Option<Equipped>>,
    names: Seq<Option<Name>>,
    wants: Seq<Option<WantsToConsumeItem>>,
    stats: Seq<Option<Stats>>,
    equippables: Seq<Option<Equippable>>,
    n: int,
) -> Seq<Option<Equipped>>
    decreases n,
{
    if n <= 0 {
        equipped
    } else {
        let rest = spec_worn(equipped, names, wants, stats, equippables, n - 1);
        if spec_uses(wants, stats, n - 1) && equippables[spec_used(wants, n - 1).id as int] is Some {
            spec_put_on(
                rest,
                Entity { id: (n - 1) as usize },
                spec_used(wants, n - 1),
                equippables[spec_used(wants, n - 1).id as int].unwrap().slot,
            )
        } else {
            rest
        }
    }
}

/// One of the first `n` entities reads a scroll of magic mapping.
pub open spec fn spec_mapped(
    wants: Seq<Option<WantsToConsumeItem>>,
    stats: Seq<Option<Stats>>,
    magic_mappers: Seq<bool>,
    n: int,
) -> bool {
    exists|e: int| e < n && #[trigger] spec_uses(wants, stats, e) && magic_mappers[spec_used(wants, e).id as int]
}

/// The stats of entity `e` after the pass: healed where it drinks a potion.
pub open spec fn spec_stats_used(
    wants: Seq<Option<WantsToConsumeItem>>,
    stats: Seq<Option<Stats>>,
    potions: Seq<Option<Potion>>,
    e: int,
) -> Option<Stats> {
    if spec_uses(wants, stats, e) && potions[spec_used(wants, e).id as int] is Some {
        Some(spec_healed(stats[e].unwrap(), potions[spec_used(wants, e).id as int].unwrap().heal_amount as int))
    } else {
        stats[e]
    }
}

/// What entity `e` carries after the pass, given what it carried before:
/// where it drinks a potion, the last item of the potion's stack is gone.
pub open spec fn spec_inventory_used(
    wants: Seq<Option<WantsToConsumeItem>>,
    stats: Seq<Option<Stats>>,
    potions: Seq<Option<Potion>>,
    names: Seq<Option<Name>>,
    carried: Option<(Seq<(Seq<char>, Seq<Entity>)>, i32, usize)>,
    e: int,
) -> Option<(Seq<(Seq<char>, Seq<Entity>)>, i32, usize)> {
    match carried {
        Some(i) => if spec_uses(wants, stats, e) && potions[spec_used(wants, e).id as int] is Some {
            let name = names[spec_used(wants, e).id as int].unwrap().name@;
            Some(
                (spec_last_taken(i.0, name), i.1, if spec_stack_ends(i.0, name) && i.2 > 0 {
                    (i.2 - 1) as usize
                } else {
                    i.2
                }),
            )
        } else {
            carried
        },
        None => None,
    }
}

/// What collector `c` carries after the pickups, given the inventory it had
/// before.
pub open spec fn spec_inventory_gathered(
    wants: Seq<Option<WantsToPickupItem>>,
    names: Seq<Option<Name>>,
    inventory: Option<Inventory>,
    c: int,
) -> Option<(Seq<(Seq<char>, Seq<Entity>)>, i32, usize)> {
    match inventory {
        Some(i) => Some((spec_gathered(i@, wants, names, Entity { id: c as usize }, names.len() as int), i.gold, i.index)),
        None => None,
    }
}

/// The lines that the first `n` entities' pickups tell: one for each item
/// that is collected for `player`, in the order of the pickers'
/// identifiers.
pub open spec fn spec_collect_said(
    wants: Seq<Option<WantsToPickupItem>>,
    names: Seq<Option<Name>>,
    player: Entity,
    n: int,
) -> Seq<Seq<char>>
    decreases n,
{
    if n <= 0 {
        Seq::empty()
    } else {
        let rest = spec_collect_said(wants, names, player, n - 1);
        if spec_picks(wants, names, n - 1) && wants[n - 1].unwrap().collected_by == player {
            rest.push(spec_pickup_text(names[wants[n - 1].unwrap().item.id as int].unwrap().name@))
        } else {
            rest
        }
    }
}

pub open spec fn spec_heal_text(item: Seq<char>, amount: int) -> Seq<char> {
    "You consume the "@ + item + ", healing "@ + spec_decimal(amount) + " hp."@
}

pub open spec fn spec_mapped_text() -> Seq<char> {
    "The darkness lifts, and you become more aware of everything around you."@
}

pub open spec fn spec_no_effect_text(item: Seq<char>) -> Seq<char> {
    "You consume the "@ + item + ", but nothing happens."@
}

/// The lines that the use of `item` by `user` tells, with `equipped` as
/// the links from items to wearers are when it is used: for the player,
/// that a potion has healed; what putting the item on tells; that the map
/// has been read; and, of an item that is none of these, that nothing
/// happens.
pub open spec fn spec_use_said(
    equipped: Seq<Option<Equipped>>,
    names: Seq<Option<Name>>,
    potions: Seq<Option<Potion>>,
    equippables: Seq<Option<Equippable>>,
    magic_mappers: Seq<bool>,
    user: Entity,
    item: Entity,
    is_player: bool,
) -> Seq<Seq<char>> {
    let name = names[item.id as int].unwrap().name@;
    let healing = match potions[item.id as int] {
        Some(p) if is_player => seq![spec_heal_text(name, p.heal_amount as int)],
        _ => Seq::<Seq<char>>::empty(),
    };
    let wearing = match equippables[item.id as int] {
        Some(q) => spec_put_on_said(equipped, names, user, item, q.slot, is_player),
        None => Seq::<Seq<char>>::empty(),
    };
    let reading = if magic_mappers[item.id as int] {
        seq![spec_mapped_text()]
    } else {
        Seq::<Seq<char>>::empty()
    };
    let nothing = if potions[item.id as int] is None && equippables[item.id as int] is None
        && !magic_mappers[item.id as int] {
        seq![spec_no_effect_text(name)]
    } else {
        Seq::<Seq<char>>::empty()
    };
    healing + wearing + reading + nothing
}

/// The lines that the first `n` entities' uses of items tell, in the order
/// of the users' identifiers.
pub open spec fn spec_consume_said(
    equipped: Seq<Option<Equipped>>,
    names: Seq<Option<Name>>,
    wants: Seq<Option<WantsToConsumeItem>>,
    stats: Seq<Option<Stats>>,
    potions: Seq<Option<Potion>>,
    equippables: Seq<Option<Equippable>>,
    magic_mappers: Seq<bool>,
    player: Entity,
    n: int,
) -> Seq<Seq<char>>
    decreases n,
{
    if n <= 0 {
        Seq::empty()
    } else {
        let rest = spec_consume_said(
            equipped,
            names,
            wants,
            stats,
            potions,
            equippables,
            magic_mappers,
            player,
            n - 1,
        );
        if spec_uses(wants, stats, n - 1) {
            rest + spec_use_said(
                spec_worn(equipped, names, wants, stats, equippables, n - 1),
                names,
                potions,
                equippables,
                magic_mappers,
                Entity { id: (n - 1) as usize },
                spec_used(wants, n - 1),
                player == (Entity { id: (n - 1) as usize }),
            )
        } else {
            rest
        }
    }
}

pub struct InventorySystem {}

impl InventorySystem {
    /// Carries out every wish to pick an item up, in the order of the
    /// pickers' identifiers, and clears the wishes: the item loses its
    /// position, is marked as carried by the collector, and joins the stack
    /// of its name in the collector's inventory, if the collector has one.
    pub fn collect(
        &self,
        player: Entity,
        wants_pickup: &mut Table<WantsToPickupItem>,
        positions: &mut Table<Position>,
        names: &Table<Name>,
        backpacks: &mut Table<InBackpack>,
        inventories: &mut Table<Inventory>,
        log: &mut Logbook,
    )
        requires
            old(wants_pickup).len() == names.len(),
            old(positions).len() == names.len(),
            old(backpacks).len() == names.len(),
            old(inventories).len() == names.len(),
            spec_pickups_valid(old(wants_pickup)@, names@),
            spec_inventories_wf(old(inventories)@),
        ensures
            final(wants_pickup).len() == names.len(),
            final(positions).len() == names.len(),
            final(backpacks).len() == names.len(),
            final(inventories).len() == names.len(),
            forall|e: int| 0 <= e < names.len() ==> #[trigger] final(wants_pickup)[e] is None,
            forall|x: int|
                0 <= x < names.len() ==> #[trigger] final(positions)[x] == (if spec_collector(
                    old(wants_pickup)@,
                    names@,
                    Entity { id: x as usize },
                    names.len() as int,
                ) is Some {
                    None
                } else {
                    old(positions)[x]
                }),
            forall|x: int|
                0 <= x < names.len() ==> #[trigger] final(backpacks)[x] == (match spec_collector(
                    old(wants_pickup)@,
                    names@,
                    Entity { id: x as usize },
                    names.len() as int,
                ) {
                    Some(c) => Some(InBackpack { owner: c }),
                    None => old(backpacks)[x],
                }),
            forall|c: int|
                0 <= c < names.len() ==> spec_inventory_view(#[trigger] final(inventories)[c]) == (match old(
                    inventories,
                )[c] {
                    Some(i) => Some(
                        (
                            spec_gathered(
                                i@,
                                old(wants_pickup)@,
                                names@,
                                Entity { id: c as usize },
                                names.len() as int,
                            ),
                            i.gold,
                            i.index,
                        ),
                    ),
                    None => None,
                }),
            spec_inventories_wf(final(inventories)@),
            spec_log_grew_by(
                old(log),
                final(log),
                spec_collect_said(old(wants_pickup)@, names@, player, names.len() as int),
            ),
    {
        let n: usize = names.len();
        let mut e: usize = 0;
        while e < n
            invariant
                e <= n,
                n == names.len(),
                wants_pickup.len() == n,
                positions.len() == n,
                backpacks.len() == n,
                inventories.len() == n,
                old(positions).len() == n,
                old(backpacks).len() == n,
                old(inventories).len() == n,
                wants_pickup@ == old(wants_pickup)@,
                spec_pickups_valid(wants_pickup@, names@),
                spec_inventories_wf(inventories@),
                forall|x: int|
                    0 <= x < n ==> #[trigger] positions[x] == (if spec_collector(
                        wants_pickup@,
                        names@,
                        Entity { id: x as usize },
                        e as int,
                    ) is Some {
                        None
                    } else {
                        old(positions)[x]
                    }),
                forall|x: int|
                    0 <= x < n ==> #[trigger] backpacks[x] == (match spec_collector(
                        wants_pickup@,
                        names@,
                        Entity { id: x as usize },
                        e as int,
                    ) {
                        Some(c) => Some(InBackpack { owner: c }),
                        None => old(backpacks)[x],
                    }),
                forall|c: int|
                    0 <= c < n ==> spec_inventory_view(#[trigger] inventories[c]) == (match old(inventories)[c] {
                        Some(i) => Some(
                            (
                                spec_gathered(i@, wants_pickup@, names@, Entity { id: c as usize }, e as int),
                                i.gold,
                                i.index,
                            ),
                        ),
                        None => None,
                    }),
                spec_log_grew_by(old(log), log, spec_collect_said(wants_pickup@, names@, player, e as int)),
            decreases n - e,
        {
            let ghost inventories_before = inventories@;
            let ghost log_before = *log;
            let wish: Option<WantsToPickupItem> = wants_pickup[e];
            match (wish, &names[e]) {
                (Some(pickup), Some(_)) => {
                    assert(spec_picks(wants_pickup@, names@, e as int));
                    positions.set(pickup.item.id, None);
                    backpacks.set(pickup.item.id, Some(InBackpack { owner: pickup.collected_by }));
                    let item_name: &Name = names[pickup.item.id].as_ref().unwrap();
                    if pickup.collected_by.id < n {
                        match &mut inventories[pickup.collected_by.id] {
                            Some(inventory) => {
                                inventory.add(item_name.name.as_str(), pickup.item);
                            },
                            None => {},
                        }
                    }
                    if pickup.collected_by == player {
                        say_picked_up(item_name, log);
                        proof {
                            lemma_log_grew_by_line(
                                old(log),
                                &log_before,
                                log,
                                spec_collect_said(wants_pickup@, names@, player, e as int),
                                spec_pickup_text(item_name.name@),
                            );
                        }
                    }
                    proof {
                        assert forall|c: int| 0 <= c < n implies spec_inventory_view(#[trigger] inventories[c]) == (
                        match old(inventories)[c] {
                            Some(i) => Some(
                                (
                                    spec_gathered(i@, wants_pickup@, names@, Entity { id: c as usize }, e + 1),
                                    i.gold,
                                    i.index,
                                ),
                            ),
                            None => None,
                        }) by {
                            if c != pickup.collected_by.id {
                                assert(inventories[c] == inventories_before[c]);
                            }
                        }
                        assert forall|c: int| 0 <= c < n implies ((#[trigger] inventories[c]) matches Some(i)
                            ==> i.wf()) by {
                            if c != pickup.collected_by.id {
                                assert(inventories[c] == inventories_before[c]);
                            }
                        }
                    }
                },
                _ => {
                    assert(!spec_picks(wants_pickup@, names@, e as int));
                },
            }
            e += 1;
        }
        let mut j: usize = 0;
        while j < n
            invariant
                j <= n,
                wants_pickup.len() == n,
                forall|k: int| 0 <= k < j ==> #[trigger] wants_pickup[k] is None,
            decreases n - j,
        {
            wants_pickup.set(j, None);
            j += 1;
        }
    }
}

impl InventorySystem {
    /// Carries out every wish to use an item, in the order of the users'
    /// identifiers, and clears the wishes. A potion heals its user and is
    /// used up: the last item leaves the stack of its name in the user's
    /// inventory. An equippable item is put on, in place of what the user
    /// wore in its slot. A scroll of magic mapping reveals the whole map.
    pub fn consume(
        &self,
        player: Entity,
        wants_consume: &mut Table<WantsToConsumeItem>,
        names: &Table<Name>,
        stats: &mut Table<Stats>,
        inventories: &mut Table<Inventory>,
        map: &mut GameMap,
        potions: &Table<Potion>,
        magic_mappers: &Flags,
        equippables: &Table<Equippable>,
        equipped: &mut Table<Equipped>,
        log: &mut Logbook,
    )
        requires
            old(map).wf(),
            old(wants_consume).len() == names.len(),
            old(stats).len() == names.len(),
            old(inventories).len() == names.len(),
            potions.len() == names.len(),
            magic_mappers.len() == names.len(),
            equippables.len() == names.len(),
            old(equipped).len() == names.len(),
            spec_consumptions_valid(old(wants_consume)@, names@),
            spec_inventories_wf(old(inventories)@),
        ensures
            final(map).wf(),
            final(map).same_terrain(old(map)),
            final(map).tile_content@ == old(map).tile_content@,
            final(map).blocked_tiles@ == old(map).blocked_tiles@,
            final(map).bloodstains@ == old(map).bloodstains@,
            final(map).keeps_revealed(old(map)),
            forall|t: int|
                0 <= t < final(map).revealed_tiles.len() ==> #[trigger] final(map).revealed_tiles[t] == (old(
                    map,
                ).revealed_tiles[t] || spec_mapped(
                    old(wants_consume)@,
                    old(stats)@,
                    magic_mappers@,
                    names.len() as int,
                )),
            final(wants_consume).len() == names.len(),
            final(stats).len() == names.len(),
            final(inventories).len() == names.len(),
            final(equipped).len() == names.len(),
            forall|e: int| 0 <= e < names.len() ==> #[trigger] final(wants_consume)[e] is None,
            forall|e: int|
                0 <= e < names.len() ==> #[trigger] final(stats)[e] == spec_stats_used(
                    old(wants_consume)@,
                    old(stats)@,
                    potions@,
                    e,
                ),
            final(equipped)@ == spec_worn(
                old(equipped)@,
                names@,
                old(wants_consume)@,
                old(stats)@,
                equippables@,
                names.len() as int,
            ),
            forall|e: int|
                0 <= e < names.len() ==> spec_inventory_view(#[trigger] final(inventories)[e])
                    == spec_inventory_used(
                    old(wants_consume)@,
                    old(stats)@,
                    potions@,
                    names@,
                    spec_inventory_view(old(inventories)[e]),
                    e,
                ),
            spec_inventories_wf(final(inventories)@),
            spec_log_grew_by(
                old(log),
                final(log),
                spec_consume_said(
                    old(equipped)@,
                    names@,
                    old(wants_consume)@,
                    old(stats)@,
                    potions@,
                    equippables@,
                    magic_mappers@,
                    player,
                    names.len() as int,
                ),
            ),
    {
        let n: usize = names.len();
        let mut e: usize = 0;
        while e < n
            invariant
                e <= n,
                n == names.len(),
                map.wf(),
                map.same_terrain(old(map)),
                map.tile_content@ == old(map).tile_content@,
                map.blocked_tiles@ == old(map).blocked_tiles@,
                map.bloodstains@ == old(map).bloodstains@,
                map.revealed_tiles.len() == old(map).revealed_tiles.len(),
                wants_consume.len() == n,
                stats.len() == n,
                inventories.len() == n,
                potions.len() == n,
                magic_mappers.len() == n,
                equippables.len() == n,
                equipped.len() == n,
                old(stats).len() == n,
                old(inventories).len() == n,
                old(equipped).len() == n,
                wants_consume@ == old(wants_consume)@,
                spec_consumptions_valid(wants_consume@, names@),
                spec_inventories_wf(inventories@),
                forall|t: int|
                    0 <= t < map.revealed_tiles.len() ==> #[trigger] map.revealed_tiles[t] == (old(
                        map,
                    ).revealed_tiles[t] || spec_mapped(wants_consume@, old(stats)@, magic_mappers@, e as int)),
                forall|k: int|
                    0 <= k < n ==> #[trigger] stats[k] == (if k < e {
                        spec_stats_used(wants_consume@, old(stats)@, potions@, k)
                    } else {
                        old(stats)[k]
                    }),
                equipped@ == spec_worn(old(equipped)@, names@, wants_consume@, old(stats)@, equippables@, e as int),
                forall|k: int|
                    0 <= k < n ==> spec_inventory_view(#[trigger] inventories[k]) == (if k < e {
                        spec_inventory_used(
                            wants_consume@,
                            old(stats)@,
                            potions@,
                            names@,
                            spec_inventory_view(old(inventories)[k]),
                            k,
                        )
                    } else {
                        spec_inventory_view(old(inventories)[k])
                    }),
                spec_log_grew_by(
                    old(log),
                    log,
                    spec_consume_said(
                        old(equipped)@,
                        names@,
                        wants_consume@,
                        old(stats)@,
                        potions@,
                        equippables@,
                        magic_mappers@,
                        player,
                        e as int,
                    ),
                ),
            decreases n - e,
        {
            let ghost inventories_before = inventories@;
            let ghost revealed_before = map.revealed_tiles@;
            let ghost equipped_before = equipped@;
            let ghost said = spec_consume_said(
                old(equipped)@,
                names@,
                wants_consume@,
                old(stats)@,
                potions@,
                equippables@,
                magic_mappers@,
                player,
                e as int,
            );
            let ghost mut told: Seq<Seq<char>> = Seq::empty();
            assert(said + told =~= said);
            let wish: Option<WantsToConsumeItem> = wants_consume[e];
            let own: Option<Stats> = stats[e];
            match (wish, own) {
                (Some(consume), Some(stat)) => {
                    assert(spec_uses(wants_consume@, old(stats)@, e as int));
                    let user: Entity = Entity { id: e };
                    let item: Entity = consume.item;
                    let item_name: &Name = names[item.id].as_ref().unwrap();
                    let mut has_effect: bool = false;
                    let mut should_consume: bool = false;
                    match potions[item.id] {
                        Some(potion) => {
                            has_effect = true;
                            should_consume = true;
                            stats.set(e, Some(healed(stat, potion.heal_amount)));
                            if user == player {
                                let amount: String = decimal(potion.heal_amount);
                                let line: Logger = Logger::new().append("You consume the ").append(
                                    item_name.name.as_str(),
                                ).append(", healing ").append(amount.as_str()).append(" hp.");
                                assert(spec_line_text(line.fragments@) =~= spec_heal_text(
                                    item_name.name@,
                                    potion.heal_amount as int,
                                )) by {
                                    assert(spec_line_text(Seq::<LogFragment>::empty()) =~= Seq::<char>::empty());
                                }
                                let ghost log_before = *log;
                                let ghost fragments = line.fragments;
                                line.log(log);
                                proof {
                                    lemma_log_grew_once_more(old(log), &log_before, log, said + told, fragments);
                                    told = told.push(spec_heal_text(item_name.name@, potion.heal_amount as int));
                                    assert(said + told =~= (said + told.drop_last()).push(told.last()));
                                }
                            }
                        },
                        None => {},
                    }
                    match equippables[item.id] {
                        Some(equippable) => {
                            has_effect = true;
                            let ghost log_before = *log;
                            put_on(equipped, names, user, item, equippable.slot, user == player, log);
                            proof {
                                let wearing = spec_put_on_said(
                                    equipped_before,
                                    names@,
                                    user,
                                    item,
                                    equippable.slot,
                                    user == player,
                                );
                                lemma_log_grew_further(old(log), &log_before, log, said + told, wearing);
                                assert((said + told) + wearing =~= said + (told + wearing));
                                told = told + wearing;
                            }
                        },
                        None => {},
                    }
                    if magic_mappers[item.id] {
                        has_effect = true;
                        map.reveal_all();
                        let line: Logger = Logger::new().append(
                            "The darkness lifts, and you become more aware of everything around you.",
                        );
                        assert(spec_line_text(line.fragments@) =~= spec_mapped_text()) by {
                            assert(spec_line_text(Seq::<LogFragment>::empty()) =~= Seq::<char>::empty());
                        }
                        let ghost log_before = *log;
                        let ghost fragments = line.fragments;
                        line.log(log);
                        proof {
                            lemma_log_grew_once_more(old(log), &log_before, log, said + told, fragments);
                            told = told.push(spec_mapped_text());
                            assert(said + told =~= (said + told.drop_last()).push(told.last()));
                        }
                    }
                    if !has_effect {
                        let line: Logger = Logger::new().append("You consume the ").append(
                            item_name.name.as_str(),
                        ).append(", but nothing happens.");
                        assert(spec_line_text(line.fragments@) =~= spec_no_effect_text(item_name.name@)) by {
                            assert(spec_line_text(Seq::<LogFragment>::empty()) =~= Seq::<char>::empty());
                        }
                        let ghost log_before = *log;
                        let ghost fragments = line.fragments;
                        line.log(log);
                        proof {
                            lemma_log_grew_once_more(old(log), &log_before, log, said + told, fragments);
                            told = told.push(spec_no_effect_text(item_name.name@));
                            assert(said + told =~= (said + told.drop_last()).push(told.last()));
                        }
                    }
                    if should_consume {
                        match &mut inventories[e] {
                            Some(inventory) => {
                                let _ = inventory.take_last(item_name.name.as_str());
                            },
                            None => {},
                        }
                    }
                    proof {
                        assert(spec_log_grew_by(old(log), log, said + told));
                        assert(told =~= spec_use_said(
                            equipped_before,
                            names@,
                            potions@,
                            equippables@,
                            magic_mappers@,
                            user,
                            item,
                            user == player,
                        ));
                        assert forall|k: int| 0 <= k < n implies ((#[trigger] inventories[k]) matches Some(i)
                            ==> i.wf()) by {
                            if k != e {
                                assert(inventories[k] == inventories_before[k]);
                            }
                        }
                        assert forall|k: int| 0 <= k < n implies spec_inventory_view(#[trigger] inventories[k]) == (
                        if k < e + 1 {
                            spec_inventory_used(
                                wants_consume@,
                                old(stats)@,
                                potions@,
                                names@,
                                spec_inventory_view(old(inventories)[k]),
                                k,
                            )
                        } else {
                            spec_inventory_view(old(inventories)[k])
                        }) by {
                            if k != e {
                                assert(inventories[k] == inventories_before[k]);
                            }
                        }
                    }
                },
                _ => {
                    assert(!spec_uses(wants_consume@, old(stats)@, e as int));
                },
            }
            proof {
                assert forall|t: int| 0 <= t < map.revealed_tiles.len() implies #[trigger] map.revealed_tiles[t]
                    == (old(map).revealed_tiles[t] || spec_mapped(
                    wants_consume@,
                    old(stats)@,
                    magic_mappers@,
                    e + 1,
                )) by {
                    if spec_mapped(wants_consume@, old(stats)@, magic_mappers@, e as int) {
                        let u = choose|u: int|
                            u < e && #[trigger] spec_uses(wants_consume@, old(stats)@, u)
                                && magic_mappers[spec_used(wants_consume@, u).id as int];
                        assert(u < e + 1 && spec_uses(wants_consume@, old(stats)@, u));
                    }
                    if spec_mapped(wants_consume@, old(stats)@, magic_mappers@, e + 1) {
                        let u = choose|u: int|
                            u < e + 1 && #[trigger] spec_uses(wants_consume@, old(stats)@, u)
                                && magic_mappers[spec_used(wants_consume@, u).id as int];
                        if u < e {
                            assert(spec_mapped(wants_consume@, old(stats)@, magic_mappers@, e as int));
                        }
                    }
                    if spec_uses(wants_consume@, old(stats)@, e as int) && magic_mappers[spec_used(
                        wants_consume@,
                        e as int,
                    ).id as int] {
                        assert(spec_mapped(wants_consume@, old(stats)@, magic_mappers@, e + 1));
                    }
                }
            }
            e += 1;
        }
        let mut j: usize = 0;
        while j < n
            invariant
                j <= n,
                wants_consume.len() == n,
                forall|k: int| 0 <= k < j ==> #[trigger] wants_consume[k] is None,
            decreases n - j,
        {
            wants_consume.set(j, None);
            j += 1;
        }
    }

    /// Picks up, then uses: `collect` followed by `consume`.
    pub fn run(
        &self,
        player: Entity,
        wants_pickup: &mut Table<WantsToPickupItem>,
        wants_consume: &mut Table<WantsToConsumeItem>,
        positions: &mut Table<Position>,
        names: &Table<Name>,
        stats: &mut Table<Stats>,
        backpacks: &mut Table<InBackpack>,
        inventories: &mut Table<Inventory>,
        map: &mut GameMap,
        potions: &Table<Potion>,
        magic_mappers: &Flags,
        equippables: &Table<Equippable>,
        equipped: &mut Table<Equipped>,
        log: &mut Logbook,
    )
        requires
            old(map).wf(),
            old(wants_pickup).len() == names.len(),
            old(wants_consume).len() == names.len(),
            old(positions).len() == names.len(),
            old(stats).len() == names.len(),
            old(backpacks).len() == names.len(),
            old(inventories).len() == names.len(),
            potions.len() == names.len(),
            magic_mappers.len() == names.len(),
            equippables.len() == names.len(),
            old(equipped).len() == names.len(),
            spec_pickups_valid(old(wants_pickup)@, names@),
            spec_consumptions_valid(old(wants_consume)@, names@),
            spec_inventories_wf(old(inventories)@),
        ensures
            final(map).wf(),
            final(map).same_terrain(old(map)),
            final(map).tile_content@ == old(map).tile_content@,
            final(map).blocked_tiles@ == old(map).blocked_tiles@,
            final(map).bloodstains@ == old(map).bloodstains@,
            final(map).keeps_revealed(old(map)),
            forall|t: int|
                0 <= t < final(map).revealed_tiles.len() ==> #[trigger] final(map).revealed_tiles[t] == (old(
                    map,
                ).revealed_tiles[t] || spec_mapped(
                    old(wants_consume)@,
                    old(stats)@,
                    magic_mappers@,
                    names.len() as int,
                )),
            final(wants_pickup).len() == names.len(),
            final(wants_consume).len() == names.len(),
            final(positions).len() == names.len(),
            final(stats).len() == names.len(),
            final(backpacks).len() == names.len(),
            final(inventories).len() == names.len(),
            final(equipped).len() == names.len(),
            forall|e: int| 0 <= e < names.len() ==> #[trigger] final(wants_pickup)[e] is None,
            forall|e: int| 0 <= e < names.len() ==> #[trigger] final(wants_consume)[e] is None,
            forall|x: int|
                0 <= x < names.len() ==> #[trigger] final(positions)[x] == (if spec_collector(
                    old(wants_pickup)@,
                    names@,
                    Entity { id: x as usize },
                    names.len() as int,
                ) is Some {
                    None
                } else {
                    old(positions)[x]
                }),
            forall|x: int|
                0 <= x < names.len() ==> #[trigger] final(backpacks)[x] == (match spec_collector(
                    old(wants_pickup)@,
                    names@,
                    Entity { id: x as usize },
                    names.len() as int,
                ) {
                    Some(c) => Some(InBackpack { owner: c }),
                    None => old(backpacks)[x],
                }),
            forall|e: int|
                0 <= e < names.len() ==> #[trigger] final(stats)[e] == spec_stats_used(
                    old(wants_consume)@,
                    old(stats)@,
                    potions@,
                    e,
                ),
            final(equipped)@ == spec_worn(
                old(equipped)@,
                names@,
                old(wants_consume)@,
                old(stats)@,
                equippables@,
                names.len() as int,
            ),
            forall|e: int|
                0 <= e < names.len() ==> spec_inventory_view(#[trigger] final(inventories)[e])
                    == spec_inventory_used(
                    old(wants_consume)@,
                    old(stats)@,
                    potions@,
                    names@,
                    spec_inventory_gathered(old(wants_pickup)@, names@, old(inventories)[e], e),
                    e,
                ),
            spec_inventories_wf(final(inventories)@),
            final(log).extends(old(log)),
            spec_log_grew_by(
                old(log),
                final(log),
                spec_collect_said(old(wants_pickup)@, names@, player, names.len() as int) + spec_consume_said(
                    old(equipped)@,
                    names@,
                    old(wants_consume)@,
                    old(stats)@,
                    potions@,
                    equippables@,
                    magic_mappers@,
                    player,
                    names.len() as int,
                ),
            ),
    {
        self.collect(player, wants_pickup, positions, names, backpacks, inventories, log);
        let ghost collected_log = *log;
        self.consume(
            player,
            wants_consume,
            names,
            stats,
            inventories,
            map,
            potions,
            magic_mappers,
            equippables,
            equipped,
            log,
        );
        proof {
            lemma_log_grew_further(
                old(log),
                &collected_log,
                log,
                spec_collect_said(old(wants_pickup)@, names@, player, names.len() as int),
                spec_consume_said(
                    old(equipped)@,
                    names@,
                    old(wants_consume)@,
                    old(stats)@,
                    potions@,
                    equippables@,
                    magic_mappers@,
                    player,
                    names.len() as int,
                ),
            );
        }
    }
}

} // verus!
