use terminalia::random_table::RandomTable;

#[test]
fn pick_follows_the_weights() {
    let mut table = RandomTable::new();
    table.push(10, 3);
    table.push(11, 1);
    table.push(12, 2);
    assert_eq!(table.total_weight, 6);
    assert_eq!(table.pick(0), Some(10));
    assert_eq!(table.pick(1), Some(10));
    assert_eq!(table.pick(2), Some(10));
    assert_eq!(table.pick(3), Some(11));
    assert_eq!(table.pick(4), Some(12));
    assert_eq!(table.pick(5), Some(12));
    assert_eq!(table.pick(6), None);
    assert_eq!(table.pick(-1), None);
    assert_eq!(table.pick(i32::MAX), None);
}

#[test]
fn weights_that_are_not_positive_add_nothing() {
    let mut table = RandomTable::new();
    table.push(1, 0);
    table.push(2, -5);
    assert_eq!(table.entries.len(), 0);
    assert_eq!(table.total_weight, 0);
    table.push(3, 4);
    assert_eq!(table.entries, vec![(3, 4)]);
}

#[test]
fn total_never_reaches_the_largest_number() {
    let mut table = RandomTable::new();
    table.push(1, i32::MAX - 1);
    assert_eq!(table.entries.len(), 1);
    table.push(2, 1);
    assert_eq!(table.entries.len(), 1);
    assert_eq!(table.total_weight, i32::MAX - 1);
    let mut other = RandomTable::new();
    other.push(1, i32::MAX);
    assert_eq!(other.entries.len(), 0);
}

#[test]
fn empty_table_rolls_nothing() {
    let table = RandomTable::new();
    let mut rng = rltk::RandomNumberGenerator::seeded(4);
    assert_eq!(table.roll(&mut rng), None);
    assert_eq!(table.pick(0), None);
}

#[test]
fn roll_gives_every_key_about_as_often_as_its_weight() {
    let mut table = RandomTable::new();
    table.push(0, 1);
    table.push(1, 3);
    table.push(2, 6);
    let mut rng = rltk::RandomNumberGenerator::seeded(2024);
    let mut counts = [0usize; 3];
    for _ in 0..10000 {
        let key = table.roll(&mut rng).unwrap();
        counts[key] += 1;
    }
    assert!(counts[0] > 700 && counts[0] < 1300, "{:?}", counts);
    assert!(counts[1] > 2600 && counts[1] < 3400, "{:?}", counts);
    assert!(counts[2] > 5600 && counts[2] < 6400, "{:?}", counts);
}

#[test]
fn single_entry_is_always_rolled() {
    let mut table = RandomTable::new();
    table.push(42, 1);
    let mut rng = rltk::RandomNumberGenerator::seeded(8);
    for _ in 0..50 {
        assert_eq!(table.roll(&mut rng), Some(42));
    }
}
