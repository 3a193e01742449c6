use terminalia::component::{
    Entity, EquipmentSlot, Equippable, Equipped, InBackpack, Name, Pool, Potion, Stats, WantsToConsumeItem,
    WantsToPickupItem,
};
use terminalia::geometry::Position;
use terminalia::inventory::Inventory;
use terminalia::logbook::Logbook;
use terminalia::map::{GameMap, TileType};
use terminalia::system::inventory_system::{healed, put_on, slot_name, InventorySystem};

fn e(id: usize) -> Entity {
    Entity { id }
}

fn stacks(inventory: &Inventory) -> Vec<(String, Vec<usize>)> {
    let mut out = Vec::new();
    let mut index = 0;
    while let Some((name, items)) = inventory.stack_at(index) {
        out.push((name, items.iter().map(|x| x.id).collect()));
        index += 1;
    }
    assert_eq!(out.len(), inventory.len());
    out
}

fn pair(name: &str, ids: &[usize]) -> (String, Vec<usize>) {
    (name.to_string(), ids.to_vec())
}

#[test]
fn new_inventory_is_empty() {
    let inventory = Inventory::new();
    assert_eq!(inventory.len(), 0);
    assert_eq!(inventory.gold, 0);
    assert_eq!(inventory.index, 0);
    assert!(inventory.stack_at(0).is_none());
    assert_eq!(inventory.first_at(0), None);
}

#[test]
fn items_stack_by_name_in_order_of_first_pickup() {
    let mut inventory = Inventory::new();
    inventory.add("potion", e(3));
    inventory.add("dagger", e(5));
    inventory.add("potion", e(8));
    inventory.add("scroll", e(1));
    inventory.add("dagger", e(2));
    assert_eq!(
        stacks(&inventory),
        vec![pair("potion", &[3, 8]), pair("dagger", &[5, 2]), pair("scroll", &[1])]
    );
    assert_eq!(inventory.len(), 3);
    assert_eq!(inventory.first_at(0), Some(e(3)));
    assert_eq!(inventory.first_at(1), Some(e(5)));
    assert_eq!(inventory.first_at(2), Some(e(1)));
    assert_eq!(inventory.first_at(3), None);
    assert!(inventory.stack_at(3).is_none());
}

#[test]
fn taking_the_last_item_shrinks_the_stack_and_ends_it_when_empty() {
    let mut inventory = Inventory::new();
    inventory.add("potion", e(3));
    inventory.add("dagger", e(5));
    inventory.add("potion", e(8));
    inventory.add("scroll", e(1));
    inventory.index = 2;
    assert_eq!(inventory.take_last("potion"), Some(e(8)));
    assert_eq!(stacks(&inventory), vec![pair("potion", &[3]), pair("dagger", &[5]), pair("scroll", &[1])]);
    assert_eq!(inventory.index, 2);
    assert_eq!(inventory.take_last("potion"), Some(e(3)));
    // the stack is gone at once, those after it move up, and so does the selection
    assert_eq!(stacks(&inventory), vec![pair("dagger", &[5]), pair("scroll", &[1])]);
    assert_eq!(inventory.index, 1);
    assert_eq!(inventory.take_last("potion"), None);
    assert_eq!(stacks(&inventory), vec![pair("dagger", &[5]), pair("scroll", &[1])]);
    assert_eq!(inventory.index, 0);
    assert_eq!(inventory.take_last("nothing"), None);
    assert_eq!(inventory.index, 0);
    assert_eq!(inventory.take_last("scroll"), Some(e(1)));
    assert_eq!(inventory.take_last("dagger"), Some(e(5)));
    assert_eq!(inventory.len(), 0);
}

#[test]
fn taking_the_first_item() {
    let mut inventory = Inventory::new();
    inventory.add("a", e(1));
    inventory.add("b", e(2));
    inventory.add("a", e(3));
    inventory.add("a", e(4));
    inventory.index = 1;
    assert_eq!(inventory.take_first("a"), Some(e(1)));
    assert_eq!(stacks(&inventory), vec![pair("a", &[3, 4]), pair("b", &[2])]);
    assert_eq!(inventory.take_first("b"), Some(e(2)));
    assert_eq!(stacks(&inventory), vec![pair("a", &[3, 4])]);
    assert_eq!(inventory.index, 1);
    assert_eq!(inventory.take_first("b"), None);
    assert_eq!(inventory.take_first("a"), Some(e(3)));
    assert_eq!(inventory.take_first("a"), Some(e(4)));
    assert_eq!(inventory.len(), 0);
}

#[test]
fn a_stack_that_ended_starts_again_at_the_end() {
    let mut inventory = Inventory::new();
    inventory.add("a", e(1));
    inventory.add("b", e(2));
    inventory.take_last("a");
    inventory.add("a", e(3));
    assert_eq!(stacks(&inventory), vec![pair("b", &[2]), pair("a", &[3])]);
}

#[test]
fn names_are_told_apart_exactly() {
    let mut inventory = Inventory::new();
    inventory.add("Potion", e(1));
    inventory.add("potion", e(2));
    inventory.add("potion ", e(3));
    inventory.add("", e(4));
    assert_eq!(inventory.len(), 4);
    assert_eq!(inventory.take_last(""), Some(e(4)));
    assert_eq!(inventory.len(), 3);
}

#[test]
fn selection_moves_within_the_list() {
    let mut inventory = Inventory::new();
    inventory.select_next();
    assert_eq!(inventory.index, 0);
    inventory.select_previous();
    assert_eq!(inventory.index, 0);
    inventory.add("a", e(1));
    inventory.add("b", e(2));
    inventory.add("c", e(3));
    inventory.select_next();
    inventory.select_next();
    assert_eq!(inventory.index, 2);
    inventory.select_next();
    assert_eq!(inventory.index, 2);
    inventory.select_previous();
    assert_eq!(inventory.index, 1);
    inventory.index = usize::MAX;
    inventory.select_next();
    assert_eq!(inventory.index, usize::MAX);
}

fn stats(hp: i32, max: i32) -> Option<Stats> {
    Some(Stats {
        hp: Pool { current: hp, max },
        mp: Pool { current: 0, max: 0 },
        exp: Pool { current: 0, max: 1000 },
        level: 1,
        strength: 10,
        dexterity: 10,
        constitution: 10,
        intelligence: 10,
        wisdom: 10,
        charisma: 10,
    })
}

fn named(text: &str) -> Option<Name> {
    Some(Name { name: text.to_string() })
}

struct Camp {
    wants_pickup: Vec<Option<WantsToPickupItem>>,
    wants_consume: Vec<Option<WantsToConsumeItem>>,
    positions: Vec<Option<Position>>,
    names: Vec<Option<Name>>,
    stats: Vec<Option<Stats>>,
    backpacks: Vec<Option<InBackpack>>,
    inventories: Vec<Option<Inventory>>,
    map: GameMap,
    potions: Vec<Option<Potion>>,
    mappers: Vec<bool>,
    equippables: Vec<Option<Equippable>>,
    equipped: Vec<Option<Equipped>>,
    log: Logbook,
}

fn camp() -> Camp {
    // 0 player, 1 rat, 2 potion, 3 potion, 4 sword, 5 axe, 6 scroll, 7 rock
    let names = vec![
        named("player"),
        named("rat"),
        named("potion"),
        named("potion"),
        named("sword"),
        named("axe"),
        named("scroll"),
        named("rock"),
    ];
    let n = names.len();
    let mut c = Camp {
        wants_pickup: (0..n).map(|_| None).collect(),
        wants_consume: (0..n).map(|_| None).collect(),
        positions: (0..n).map(|i| Some(Position { x: i as i32, y: 0 })).collect(),
        names,
        stats: (0..n).map(|_| None).collect(),
        backpacks: (0..n).map(|_| None).collect(),
        inventories: (0..n).map(|_| None).collect(),
        map: GameMap::filled(0, 8, 2, TileType::Floor),
        potions: (0..n).map(|_| None).collect(),
        mappers: (0..n).map(|_| false).collect(),
        equippables: (0..n).map(|_| None).collect(),
        equipped: (0..n).map(|_| None).collect(),
        log: Logbook::new(),
    };
    c.stats[0] = stats(10, 50);
    c.stats[1] = stats(4, 4);
    c.inventories[0] = Some(Inventory::new());
    c.potions[2] = Some(Potion { heal_amount: 10 });
    c.potions[3] = Some(Potion { heal_amount: 10 });
    c.equippables[4] = Some(Equippable { slot: EquipmentSlot::Weapon });
    c.equippables[5] = Some(Equippable { slot: EquipmentSlot::Weapon });
    c.mappers[6] = true;
    c
}

fn run(c: &mut Camp) {
    InventorySystem {}.run(
        e(0),
        &mut c.wants_pickup,
        &mut c.wants_consume,
        &mut c.positions,
        &c.names,
        &mut c.stats,
        &mut c.backpacks,
        &mut c.inventories,
        &mut c.map,
        &c.potions,
        &c.mappers,
        &c.equippables,
        &mut c.equipped,
        &mut c.log,
    );
}

fn lines(log: &Logbook) -> Vec<String> {
    log.entries.iter().map(|l| l.iter().map(|f| f.text.clone()).collect::<String>()).collect()
}

#[test]
fn picking_up_moves_the_item_into_the_backpack() {
    let mut c = camp();
    c.wants_pickup[0] = Some(WantsToPickupItem { collected_by: e(0), item: e(2) });
    c.wants_pickup[1] = Some(WantsToPickupItem { collected_by: e(1), item: e(7) });
    run(&mut c);
    assert!(c.positions[2].is_none());
    assert_eq!(c.backpacks[2], Some(InBackpack { owner: e(0) }));
    assert!(c.positions[7].is_none());
    assert_eq!(c.backpacks[7], Some(InBackpack { owner: e(1) }));
    assert!(c.positions[3].is_some());
    assert_eq!(stacks(c.inventories[0].as_ref().unwrap()), vec![pair("potion", &[2])]);
    assert!(c.inventories[1].is_none());
    assert!(c.wants_pickup.iter().all(|w| w.is_none()));
    assert_eq!(lines(&c.log), vec!["You pick up the potion."]);
}

#[test]
fn drinking_heals_up_to_the_maximum_and_uses_the_potion_up() {
    let mut c = camp();
    c.inventories[0].as_mut().unwrap().add("potion", e(2));
    c.inventories[0].as_mut().unwrap().add("potion", e(3));
    c.inventories[0].as_mut().unwrap().add("sword", e(4));
    c.wants_consume[0] = Some(WantsToConsumeItem { item: e(2) });
    run(&mut c);
    assert_eq!(c.stats[0].unwrap().hp, Pool { current: 20, max: 50 });
    assert_eq!(stacks(c.inventories[0].as_ref().unwrap()), vec![pair("potion", &[2]), pair("sword", &[4])]);
    assert!(c.wants_consume.iter().all(|w| w.is_none()));
    assert_eq!(lines(&c.log), vec!["You consume the potion, healing 10 hp."]);

    c.stats[0] = stats(45, 50);
    c.wants_consume[0] = Some(WantsToConsumeItem { item: e(2) });
    run(&mut c);
    assert_eq!(c.stats[0].unwrap().hp, Pool { current: 50, max: 50 });
    assert_eq!(stacks(c.inventories[0].as_ref().unwrap()), vec![pair("sword", &[4])]);
    assert_eq!(healed(c.stats[0].unwrap(), 10).hp.current, 50);
    assert_eq!(healed(stats(1, 50).unwrap(), -5).hp.current, -4);
    assert_eq!(healed(stats(i32::MAX, i32::MAX).unwrap(), i32::MAX).hp.current, i32::MAX);
}

#[test]
fn equipping_replaces_what_was_worn_in_the_slot() {
    let mut c = camp();
    c.wants_consume[0] = Some(WantsToConsumeItem { item: e(4) });
    run(&mut c);
    assert_eq!(c.equipped[4], Some(Equipped { slot: EquipmentSlot::Weapon, owner: e(0) }));
    assert_eq!(lines(&c.log), vec!["You equip the sword to the Weapon slot."]);
    c.equipped[7] = Some(Equipped { slot: EquipmentSlot::Head, owner: e(0) });
    c.equipped[6] = Some(Equipped { slot: EquipmentSlot::Weapon, owner: e(1) });
    c.wants_consume[0] = Some(WantsToConsumeItem { item: e(5) });
    run(&mut c);
    assert_eq!(c.equipped[4], None);
    assert_eq!(c.equipped[5], Some(Equipped { slot: EquipmentSlot::Weapon, owner: e(0) }));
    assert_eq!(c.equipped[7], Some(Equipped { slot: EquipmentSlot::Head, owner: e(0) }));
    assert_eq!(c.equipped[6], Some(Equipped { slot: EquipmentSlot::Weapon, owner: e(1) }));
    let worn: Vec<usize> = (0..8)
        .filter(|j| c.equipped[*j] == Some(Equipped { slot: EquipmentSlot::Weapon, owner: e(0) }))
        .collect();
    assert_eq!(worn, vec![5]);
    assert_eq!(
        lines(&c.log)[1..],
        ["You unequip the sword from the Weapon slot.", "You equip the axe to the Weapon slot."]
    );
}

#[test]
fn put_on_and_slot_names() {
    let names = vec![named("a"), named("b"), None, named("d")];
    let mut equipped = vec![
        Some(Equipped { slot: EquipmentSlot::Feet, owner: e(3) }),
        None,
        Some(Equipped { slot: EquipmentSlot::Feet, owner: e(3) }),
        None,
    ];
    let mut log = Logbook::new();
    put_on(&mut equipped, &names, e(3), e(1), EquipmentSlot::Feet, false, &mut log);
    assert_eq!(equipped[0], None);
    assert_eq!(equipped[1], Some(Equipped { slot: EquipmentSlot::Feet, owner: e(3) }));
    // what has no name is taken off too, without a word
    assert_eq!(equipped[2], None);
    assert_eq!(equipped[3], None);
    assert_eq!(lines(&log), vec!["You unequip the a from the Feet slot."]);
    // at most one item to a wearer and a slot
    let worn = equipped.iter().filter(|q| **q == Some(Equipped { slot: EquipmentSlot::Feet, owner: e(3) })).count();
    assert_eq!(worn, 1);
    assert_eq!(slot_name(EquipmentSlot::Weapon), "Weapon");
    assert_eq!(slot_name(EquipmentSlot::Shield), "Shield");
    assert_eq!(slot_name(EquipmentSlot::Head), "Head");
    assert_eq!(slot_name(EquipmentSlot::Chest), "Chest");
    assert_eq!(slot_name(EquipmentSlot::Hands), "Hands");
    assert_eq!(slot_name(EquipmentSlot::Legs), "Legs");
    assert_eq!(slot_name(EquipmentSlot::Feet), "Feet");
}

#[test]
fn magic_mapping_reveals_the_whole_map() {
    let mut c = camp();
    c.map.revealed_tiles[3] = true;
    c.wants_consume[0] = Some(WantsToConsumeItem { item: e(6) });
    run(&mut c);
    assert!(c.map.revealed_tiles.iter().all(|r| *r));
    assert_eq!(lines(&c.log), vec!["The darkness lifts, and you become more aware of everything around you."]);
}

#[test]
fn using_something_useless_says_so() {
    let mut c = camp();
    c.inventories[0].as_mut().unwrap().add("rock", e(7));
    c.wants_consume[0] = Some(WantsToConsumeItem { item: e(7) });
    c.wants_consume[5] = Some(WantsToConsumeItem { item: e(2) });
    run(&mut c);
    assert_eq!(lines(&c.log), vec!["You consume the rock, but nothing happens."]);
    assert_eq!(stacks(c.inventories[0].as_ref().unwrap()), vec![pair("rock", &[7])]);
    assert_eq!(c.stats[0].unwrap().hp.current, 10);
    assert!(c.map.revealed_tiles.iter().all(|r| !*r));
    assert!(c.wants_consume.iter().all(|w| w.is_none()));
}

#[test]
fn pickup_then_use_in_one_pass() {
    let mut c = camp();
    c.wants_pickup[0] = Some(WantsToPickupItem { collected_by: e(0), item: e(3) });
    c.wants_consume[0] = Some(WantsToConsumeItem { item: e(3) });
    run(&mut c);
    assert_eq!(c.stats[0].unwrap().hp.current, 20);
    assert_eq!(c.inventories[0].as_ref().unwrap().len(), 0);
    assert_eq!(c.backpacks[3], Some(InBackpack { owner: e(0) }));
}

#[test]
fn an_inventory_is_well_formed_if_no_stack_is_empty() {
    let mut inventory = Inventory::new();
    assert!(inventory.is_wf());
    inventory.add("apple", e(1));
    inventory.add("pear", e(2));
    inventory.add("apple", e(3));
    assert!(inventory.is_wf());
    inventory.items.insert("plum".to_string(), Vec::new());
    assert!(!inventory.is_wf());
    inventory.items.insert("plum".to_string(), vec![e(4)]);
    assert!(inventory.is_wf());
}
