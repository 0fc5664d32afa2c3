use diceroll::Dice;
use diceroll::expr::DropRule;

#[test]
fn dice_parse_valid() {
    let dice = Dice::new("4d4").unwrap();
    assert_eq!(
        Dice {
            count: 4,
            sides: 4,
            modifier: 0,
            drop: None,
        },
        dice
    );
}

#[test]
fn dice_parse_modifier() {
    let dice = Dice::new("4d4+4-H").unwrap();
    assert_eq!(
        Dice {
            count: 4,
            sides: 4,
            modifier: 4,
            drop: Some(DropRule::High),
        },
        dice
    );
}

#[test]
fn dice_parse_invalid() {
    assert!(
        Dice::new("asdf").is_err(),
        "Invalid dice expression \"asdf\""
    );
}

#[test]
fn dice_expr() {
    let dice = Dice::new("4d4-4-l").unwrap();
    assert_eq!("4d4-4-L", dice.expr());
}

#[test]
fn dice_roll() {
    let dice = Dice::new("4d4").unwrap();
    let (r, _) = dice.roll();
    assert!(r >= 4);
    assert!(r <= 16);
}

#[test]
fn lib_parse_valid() {
    let dice = Dice::new("4d4").unwrap();
    assert_eq!(
        Dice {
            count: 4,
            sides: 4,
            modifier: 0,
            drop: None,
        },
        dice
    );
}

#[test]
fn lib_parse_modifier() {
    let dice = Dice::new("4d4+4-H").unwrap();
    assert_eq!(
        Dice {
            count: 4,
            sides: 4,
            modifier: 4,
            drop: Some(DropRule::High),
        },
        dice
    );
}

#[test]
fn lib_parse_invalid() {
    assert!(
        Dice::new("asdf").is_err(),
        "Invalid dice expression \"asdf\""
    );
}

#[test]
fn lib_expr() {
    let dice = Dice::new("4d4-4-l").unwrap();
    assert_eq!("4d4-4-L", dice.expr());
}

#[test]
fn lib_roll() {
    let dice = Dice::new("4d4").unwrap();
    let (r, _) = dice.roll();
    assert!(r >= 4);
    assert!(r <= 16);
}

#[test]
fn lib_expr_keeps_count_of_one() {
    let dice = Dice::new("1d6").unwrap();
    assert_eq!("1d6", dice.expr());
}

#[test]
fn lib_message() {
    let e = Dice::new("4d4-J").unwrap_err();
    assert_eq!("Invalid dice expression \"4d4-J\"", e.message());
}
