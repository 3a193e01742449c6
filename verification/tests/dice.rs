use terminalia::component::DiceExpr;
use terminalia::dice::{parse_dice, parse_dice_bytes, DiceError};

fn expr(count: i32, sides: i32, modifier: i32) -> DiceExpr {
    DiceExpr { dice_count: count, dice_sides: sides, modifier }
}

#[test]
fn parses_plain_expression() {
    assert_eq!(parse_dice("1d6"), Ok(expr(1, 6, 0)));
    assert_eq!(parse_dice("1d20"), Ok(expr(1, 20, 0)));
    assert_eq!(parse_dice("12d8"), Ok(expr(12, 8, 0)));
}

#[test]
fn parses_expression_with_modifier() {
    assert_eq!(parse_dice("2d6+1"), Ok(expr(2, 6, 1)));
    assert_eq!(parse_dice("1d20+4"), Ok(expr(1, 20, 4)));
    assert_eq!(parse_dice("3d6-2"), Ok(expr(3, 6, -2)));
    assert_eq!(parse_dice("0d4+0"), Ok(expr(0, 4, 0)));
    assert_eq!(parse_dice("007d06-003"), Ok(expr(7, 6, -3)));
}

#[test]
fn parses_numbers_up_to_the_limit() {
    assert_eq!(parse_dice("10000d10000+10000"), Ok(expr(10000, 10000, 10000)));
    assert_eq!(parse_dice("10000d10000-10000"), Ok(expr(10000, 10000, -10000)));
    assert_eq!(parse_dice("46340d46340"), Ok(expr(46340, 46340, 0)));
    assert_eq!(parse_dice("2147483647d1+2147483647"), Ok(expr(i32::MAX, 1, i32::MAX)));
    assert_eq!(parse_dice("1d2147483646-2147483647"), Ok(expr(1, i32::MAX - 1, -i32::MAX)));
    assert_eq!(parse_dice("0d0"), Ok(expr(0, 0, 0)));
    assert_eq!(parse_dice("0d2147483647"), Ok(expr(0, i32::MAX, 0)));
}

#[test]
fn rejects_malformed_text() {
    for text in [
        "", "d", "d6", "2d", "2", "2x6", "2D6", "2d6+", "2d6-", "2d6 +1", " 2d6", "2d6 ", "2d6+1x", "2d6++1",
        "+2d6", "-2d6", "2d-6", "2d6+1+1", "2d6*2", "two", "2d6+1d4", "２d6",
    ] {
        assert_eq!(parse_dice(text), Err(DiceError::Syntax), "text {:?}", text);
    }
}

#[test]
fn rejects_numbers_out_of_range() {
    assert_eq!(parse_dice("1d0"), Err(DiceError::OutOfRange));
    assert_eq!(parse_dice("1d2147483647"), Err(DiceError::OutOfRange));
    assert_eq!(parse_dice("2147483648d1"), Err(DiceError::OutOfRange));
    assert_eq!(parse_dice("0d2147483648"), Err(DiceError::OutOfRange));
    assert_eq!(parse_dice("46341d46341"), Err(DiceError::OutOfRange));
    assert_eq!(parse_dice("2d1073741824"), Err(DiceError::OutOfRange));
    assert_eq!(parse_dice("1d6+2147483648"), Err(DiceError::OutOfRange));
    assert_eq!(parse_dice("1d6-2147483648"), Err(DiceError::OutOfRange));
    assert_eq!(parse_dice("99999999999999999999999999d6"), Err(DiceError::OutOfRange));
    assert_eq!(parse_dice("1d6+99999999999999999999999999"), Err(DiceError::OutOfRange));
}

#[test]
fn syntax_is_judged_before_range() {
    assert_eq!(parse_dice("99999d0x"), Err(DiceError::Syntax));
    assert_eq!(parse_dice("99999d"), Err(DiceError::Syntax));
}

#[test]
fn bytes_and_text_agree() {
    assert_eq!(parse_dice_bytes(b"4d4+4"), parse_dice("4d4+4"));
    assert_eq!(parse_dice_bytes(b"4d"), parse_dice("4d"));
    assert_eq!(parse_dice_bytes(&[0x32, 0x64, 0xff]), Err(DiceError::Syntax));
}

#[test]
fn total_adds_the_modifier() {
    assert_eq!(expr(2, 6, 1).total(7), 8);
    assert_eq!(expr(2, 6, -3).total(2), -1);
    assert_eq!(expr(1, 1, i32::MAX).total(5), i32::MAX);
    assert_eq!(expr(1, 1, i32::MIN).total(-5), i32::MIN);
}

#[test]
fn roll_stays_within_the_dice() {
    let mut rng = rltk::RandomNumberGenerator::seeded(77);
    let dice = expr(3, 4, 2);
    let mut seen_low = false;
    let mut seen_high = false;
    for _ in 0..2000 {
        let total = dice.roll(&mut rng);
        assert!((5..=14).contains(&total));
        seen_low |= total <= 6;
        seen_high |= total >= 13;
    }
    assert!(seen_low && seen_high);
    assert_eq!(expr(0, 6, 3).roll(&mut rng), 3);
    assert_eq!(expr(5, 1, 0).roll(&mut rng), 5);
    assert!(expr(1, 6, 0).is_wf());
    assert!(!expr(1, 0, 0).is_wf());
    assert!(expr(-1, 6, 0).is_wf());
    assert_eq!(expr(-1, 6, 4).roll(&mut rng), 4);
    assert!(expr(10001, 6, 0).is_wf());
}

#[test]
fn rolls_repeat_for_a_seed() {
    let dice = expr(4, 8, 0);
    let mut a = rltk::RandomNumberGenerator::seeded(123);
    let mut b = rltk::RandomNumberGenerator::seeded(123);
    for _ in 0..100 {
        assert_eq!(dice.roll(&mut a), dice.roll(&mut b));
    }
}
