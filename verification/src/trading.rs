//! Buying from a vendor and selling to one.

use crate::component::{clamp, spec_clamp, Entity, Item, Name, Table, Vendor, WantsToPickupItem};
use crate::inventory::{spec_first_taken, Inventory};
use crate::logbook::{decimal, spec_decimal, spec_line_text, LogFragment, Logbook, Logger, Tint};
use vstd::prelude::*;

verus! {

/// How an attempt to trade ended.
#[derive(Clone, Copy, Debug, PartialEq, Eq, Structural)]
pub enum Trade {
    /// Nothing was selected.
    Nothing,
    /// The item was paid for and is on its way to the player.
    Bought,
    /// The player has less gold than the item is worth.
    TooPoor,
    /// The item was sold.
    Sold,
}

/// The item that the trade is about: the vendor's ware at `vendor_index`
/// when buying, the first item of the player's stack at `player_index`
/// when selling.
pub open spec fn spec_on_offer(
    vendors: Seq<Option<Vendor>>,
    inventories: Seq<Option<Inventory>>,
    player: Entity,
    vendor: Entity,
    vendor_index: int,
    player_index: int,
    is_buying: bool,
) -> Option<Entity> {
    if is_buying {
        let wares = vendors[vendor.id as int].unwrap().items@;
        if 0 <= vendor_index < wares.len() {
            Some(wares[vendor_index])
        } else {
            None
        }
    } else {
        let stacks = inventories[player.id as int].unwrap()@;
        if 0 <= player_index < stacks.len() {
            Some(stacks[player_index].1[0])
        } else {
            None
        }
    }
}

pub open spec fn spec_bought_text(item: Seq<char>, worth: int) -> Seq<char> {
    "You buy the "@ + item + " for "@ + spec_decimal(worth) + " gold."@
}

pub open spec fn spec_too_poor_text(item: Seq<char>) -> Seq<char> {
    "You don't have enough gold to buy the "@ + item + "."@
}

pub open spec fn spec_sold_text(item: Seq<char>, worth: int) -> Seq<char> {
    "You sell the "@ + item + " for "@ + spec_decimal(worth) + " gold."@
}

/// The player buys the vendor's ware at `vendor_index`, or sells the first
/// item of the own stack at `player_index`.
///
/// Buying takes the item's worth from the player's gold, records the wish
/// to pick the item up, and takes the item out of the vendor's wares; a
/// player with too little gold is told so and nothing changes. Selling adds
/// the item's worth to the player's gold, takes the item off the stack of
/// its name, selects the first stack, and ends the item's being an item.
/// Each of the three is told in one line of the log.
pub fn try_buy_item(
    player: Entity,
    vendor: Entity,
    vendor_index: usize,
    player_index: usize,
    is_buying: bool,
    names: &Table<Name>,
    items: &mut Table<Item>,
    inventories: &mut Table<Inventory>,
    vendors: &mut Table<Vendor>,
    wants_pickup: &mut Table<WantsToPickupItem>,
    log: &mut Logbook,
) -> (trade: Trade)
    requires
        old(items).len() == names.len(),
        old(inventories).len() == names.len(),
        old(vendors).len() == names.len(),
        old(wants_pickup).len() == names.len(),
        player.id < names.len(),
        vendor.id < names.len(),
        old(inventories)[player.id as int] matches Some(i) && i.wf(),
        old(vendors)[vendor.id as int] is Some,
        spec_on_offer(
            old(vendors)@,
            old(inventories)@,
            player,
            vendor,
            vendor_index as int,
            player_index as int,
            is_buying,
        ) matches Some(x) ==> x.id < names.len() && names[x.id as int] is Some && old(items)[x.id as int] is Some,
    ensures
        final(items).len() == names.len(),
        final(inventories).len() == names.len(),
        final(vendors).len() == names.len(),
        final(wants_pickup).len() == names.len(),
        final(log).extends(old(log)),
        forall|e: int|
            0 <= e < names.len() && e != player.id ==> #[trigger] final(inventories)[e] == old(inventories)[e],
        forall|e: int| 0 <= e < names.len() && e != vendor.id ==> #[trigger] final(vendors)[e] == old(vendors)[e],
        forall|e: int|
            0 <= e < names.len() && e != player.id ==> #[trigger] final(wants_pickup)[e] == old(wants_pickup)[e],
        final(inventories)[player.id as int] matches Some(i) && i.wf(),
        final(vendors)[vendor.id as int] is Some,
        match spec_on_offer(
            old(vendors)@,
            old(inventories)@,
            player,
            vendor,
            vendor_index as int,
            player_index as int,
            is_buying,
        ) {
            None => {
                &&& trade == Trade::Nothing
                &&& final(items)@ == old(items)@
                &&& final(inventories)@ == old(inventories)@
                &&& final(vendors)@ == old(vendors)@
                &&& final(wants_pickup)@ == old(wants_pickup)@
                &&& final(log).entries@ == old(log).entries@
            },
            Some(x) => {
                let worth = old(items)[x.id as int].unwrap().base_value;
                let purse = old(inventories)[player.id as int].unwrap();
                let after = final(inventories)[player.id as int].unwrap();
                if is_buying {
                    if purse.gold >= worth {
                        &&& trade == Trade::Bought
                        &&& after.gold == spec_clamp(purse.gold - worth)
                        &&& after@ == purse@
                        &&& after.index == purse.index
                        &&& final(wants_pickup)[player.id as int] == Some(
                            WantsToPickupItem { collected_by: player, item: x },
                        )
                        &&& final(vendors)[vendor.id as int].unwrap().items@ == old(vendors)[vendor.id as int].unwrap().items@.remove(vendor_index as int)
                        &&& final(items)@ == old(items)@
                        &&& final(log).entries@.len() == old(log).entries@.len() + 1
                        &&& spec_line_text(final(log).entries@.last()@) == spec_bought_text(
                            names[x.id as int].unwrap().name@,
                            worth as int,
                        )
                    } else {
                        &&& trade == Trade::TooPoor
                        &&& final(log).entries@.len() == old(log).entries@.len() + 1
                        &&& spec_line_text(final(log).entries@.last()@) == spec_too_poor_text(
                            names[x.id as int].unwrap().name@,
                        )
                        &&& final(items)@ == old(items)@
                        &&& final(inventories)@ == old(inventories)@
                        &&& final(vendors)@ == old(vendors)@
                        &&& final(wants_pickup)@ == old(wants_pickup)@
                    }
                } else {
                    &&& trade == Trade::Sold
                    &&& after.gold == spec_clamp(purse.gold + worth)
                    &&& after@ == spec_first_taken(purse@, names[x.id as int].unwrap().name@)
                    &&& after.index == 0
                    &&& final(items)@ == old(items)@.update(x.id as int, None)
                    &&& final(vendors)@ == old(vendors)@
                    &&& final(wants_pickup)@ == old(wants_pickup)@
                    &&& final(log).entries@.len() == old(log).entries@.len() + 1
                    &&& spec_line_text(final(log).entries@.last()@) == spec_sold_text(
                        names[x.id as int].unwrap().name@,
                        worth as int,
                    )
                }
            },
        },
{
    let item: Option<Entity> = if is_buying {
        match &vendors[vendor.id] {
            Some(v) => if vendor_index < v.items.len() {
                Some(v.items[vendor_index])
            } else {
                None
            },
            None => None,
        }
    } else {
        match &inventories[player.id] {
            Some(i) => {
                match i.stack_at(player_index) {
                    Some(stack) => {
                        assert(stack.1@.len() > 0);
                        Some(stack.1[0])
                    },
                    None => None,
                }
            },
            None => None,
        }
    };
    let item: Entity = match item {
        Some(x) => x,
        None => {
            return Trade::Nothing;
        },
    };
    let item_name: &Name = names[item.id].as_ref().unwrap();
    let worth: i32 = match &items[item.id] {
        Some(i) => i.base_value,
        None => 0,
    };
    let amount: String = decimal(worth);
    if is_buying {
        let gold: i32 = match &inventories[player.id] {
            Some(i) => i.gold,
            None => 0,
        };
        if gold >= worth {
            match &mut inventories[player.id] {
                Some(i) => {
                    i.gold = clamp(gold as i128 - worth as i128);
                },
                None => {},
            }
            wants_pickup.set(player.id, Some(WantsToPickupItem { collected_by: player, item }));
            match &mut vendors[vendor.id] {
                Some(v) => {
                    let _ = v.items.remove(vendor_index);
                },
                None => {},
            }
            let line: Logger = Logger::new().append("You buy the ").append_with_color(
                Tint::Blue,
                item_name.name.as_str(),
            ).append(" for ").append_with_color(Tint::Yellow, amount.as_str()).append(" gold.");
            assert(spec_line_text(line.fragments@) =~= spec_bought_text(item_name.name@, worth as int)) by {
                assert(spec_line_text(Seq::<LogFragment>::empty()) =~= Seq::<char>::empty());
            }
            line.log(log);
            Trade::Bought
        } else {
            let line: Logger = Logger::new().append("You don't have enough gold to buy the ").append_with_color(
                Tint::Blue,
                item_name.name.as_str(),
            ).append(".");
            assert(spec_line_text(line.fragments@) =~= spec_too_poor_text(item_name.name@)) by {
                assert(spec_line_text(Seq::<LogFragment>::empty()) =~= Seq::<char>::empty());
            }
            line.log(log);
            assert(inventories@ =~= old(inventories)@);
            assert(vendors@ =~= old(vendors)@);
            Trade::TooPoor
        }
    } else {
        match &mut inventories[player.id] {
            Some(i) => {
                i.gold = clamp(i.gold as i128 + worth as i128);
                i.index = 0;
                let _ = i.take_first(item_name.name.as_str());
                i.index = 0;
            },
            None => {},
        }
        items.set(item.id, None);
        let line: Logger = Logger::new().append("You sell the ").append_with_color(
            Tint::Blue,
            item_name.name.as_str(),
        ).append(" for ").append_with_color(Tint::Yellow, amount.as_str()).append(" gold.");
        assert(spec_line_text(line.fragments@) =~= spec_sold_text(item_name.name@, worth as int)) by {
            assert(spec_line_text(Seq::<LogFragment>::empty()) =~= Seq::<char>::empty());
        }
        line.log(log);
        assert(vendors@ =~= old(vendors)@);
        Trade::Sold
    }
}

} // verus!
