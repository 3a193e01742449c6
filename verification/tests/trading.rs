use terminalia::component::{Entity, Item, Name, Vendor, WantsToPickupItem};
use terminalia::inventory::Inventory;
use terminalia::logbook::Logbook;
use terminalia::trading::{try_buy_item, Trade};

fn e(id: usize) -> Entity {
    Entity { id }
}

struct Market {
    names: Vec<Option<Name>>,
    items: Vec<Option<Item>>,
    inventories: Vec<Option<Inventory>>,
    vendors: Vec<Option<Vendor>>,
    wants: Vec<Option<WantsToPickupItem>>,
    log: Logbook,
}

fn market(gold: i32) -> Market {
    // 0 player, 1 merchant, 2 sword (30), 3 apple (2), 4 gem (500), 5 apple (2)
    let names: Vec<Option<Name>> = ["player", "merchant", "sword", "apple", "gem", "apple"]
        .iter()
        .map(|n| Some(Name { name: n.to_string() }))
        .collect();
    let worth = [None, None, Some(30), Some(2), Some(500), Some(2)];
    let items = worth.iter().map(|w| w.map(|v| Item { description: String::new(), base_value: v })).collect();
    let mut purse = Inventory::new();
    purse.gold = gold;
    purse.add("apple", e(3));
    purse.add("gem", e(4));
    purse.add("apple", e(5));
    purse.index = 1;
    Market {
        names,
        items,
        inventories: vec![Some(purse), None, None, None, None, None],
        vendors: vec![None, Some(Vendor { items: vec![e(4), e(2), e(3)] }), None, None, None, None],
        wants: vec![None, None, None, None, None, None],
        log: Logbook::new(),
    }
}

fn trade(m: &mut Market, vendor_index: usize, player_index: usize, is_buying: bool) -> Trade {
    try_buy_item(
        e(0),
        e(1),
        vendor_index,
        player_index,
        is_buying,
        &m.names,
        &mut m.items,
        &mut m.inventories,
        &mut m.vendors,
        &mut m.wants,
        &mut m.log,
    )
}

fn last_line(log: &Logbook) -> String {
    log.entries.last().unwrap().iter().map(|f| f.text.clone()).collect()
}

#[test]
fn buying_pays_and_takes_the_ware() {
    let mut m = market(100);
    assert_eq!(trade(&mut m, 1, 0, true), Trade::Bought);
    assert_eq!(m.inventories[0].as_ref().unwrap().gold, 70);
    assert_eq!(m.wants[0], Some(WantsToPickupItem { collected_by: e(0), item: e(2) }));
    assert_eq!(m.vendors[1].as_ref().unwrap().items, vec![e(4), e(3)]);
    assert_eq!(last_line(&m.log), "You buy the sword for 30 gold.");
    assert_eq!(m.inventories[0].as_ref().unwrap().len(), 2);
    assert_eq!(m.inventories[0].as_ref().unwrap().index, 1);
    assert!(m.items[2].is_some());
}

#[test]
fn buying_with_exactly_enough_gold() {
    let mut m = market(30);
    assert_eq!(trade(&mut m, 1, 0, true), Trade::Bought);
    assert_eq!(m.inventories[0].as_ref().unwrap().gold, 0);
}

#[test]
fn buying_without_enough_gold_changes_nothing() {
    let mut m = market(29);
    assert_eq!(trade(&mut m, 1, 0, true), Trade::TooPoor);
    assert_eq!(m.inventories[0].as_ref().unwrap().gold, 29);
    assert!(m.wants.iter().all(|w| w.is_none()));
    assert_eq!(m.vendors[1].as_ref().unwrap().items, vec![e(4), e(2), e(3)]);
    assert_eq!(last_line(&m.log), "You don't have enough gold to buy the sword.");
}

#[test]
fn selling_pays_and_takes_the_item_off_its_stack() {
    let mut m = market(10);
    assert_eq!(trade(&mut m, 0, 0, false), Trade::Sold);
    let purse = m.inventories[0].as_ref().unwrap();
    assert_eq!(purse.gold, 12);
    assert_eq!(purse.index, 0);
    assert_eq!(purse.len(), 2);
    assert_eq!(purse.first_at(0), Some(e(5)));
    assert_eq!(purse.first_at(1), Some(e(4)));
    assert!(m.items[3].is_none());
    assert!(m.items[5].is_some());
    assert_eq!(m.vendors[1].as_ref().unwrap().items.len(), 3);
    assert_eq!(last_line(&m.log), "You sell the apple for 2 gold.");
    assert_eq!(trade(&mut m, 0, 1, false), Trade::Sold);
    let purse = m.inventories[0].as_ref().unwrap();
    assert_eq!(purse.gold, 512);
    assert_eq!(purse.len(), 1);
    assert_eq!(purse.first_at(0), Some(e(5)));
}

#[test]
fn nothing_selected_nothing_traded() {
    let mut m = market(10);
    assert_eq!(trade(&mut m, 3, 0, true), Trade::Nothing);
    assert_eq!(trade(&mut m, 0, 2, false), Trade::Nothing);
    assert_eq!(trade(&mut m, usize::MAX, usize::MAX, false), Trade::Nothing);
    assert_eq!(m.log.entries.len(), 0);
    assert_eq!(m.inventories[0].as_ref().unwrap().gold, 10);
    assert_eq!(m.inventories[0].as_ref().unwrap().index, 1);
}

#[test]
fn gold_is_held_to_what_a_number_carries() {
    let mut m = market(i32::MAX - 100);
    assert_eq!(trade(&mut m, 0, 1, false), Trade::Sold);
    assert_eq!(m.inventories[0].as_ref().unwrap().gold, i32::MAX);
}
