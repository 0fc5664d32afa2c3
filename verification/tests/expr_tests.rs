use diceroll::expr::{DiceExpr, DiceExprError, DropRule};

#[test]
fn try_from_str() {
    let expr = "4d4";

    assert_eq!(
        Ok(DiceExpr {
            count: 4,
            sides: 4,
            modifier: 0,
            drop: None,
        }),
        DiceExpr::try_from(expr)
    )
}

#[test]
fn try_from_str_modifier() {
    let expr = "4d4+1";

    assert_eq!(
        Ok(DiceExpr {
            count: 4,
            sides: 4,
            modifier: 1,
            drop: None,
        }),
        DiceExpr::try_from(expr)
    )
}

#[test]
fn try_from_str_modifier_lt_0() {
    let expr = "4d4-1";

    assert_eq!(
        Ok(DiceExpr {
            count: 4,
            sides: 4,
            modifier: -1,
            drop: None,
        }),
        DiceExpr::try_from(expr)
    )
}

#[test]
fn try_from_str_modifier_too_negative() {
    let expr = "4d4-16";

    assert_eq!(
        Err(DiceExprError::Expr(String::from(expr))),
        DiceExpr::try_from(expr)
    )
}

#[test]
fn try_from_drop_high() {
    let expr = "4d4-H";

    assert_eq!(
        Ok(DiceExpr {
            count: 4,
            sides: 4,
            modifier: 0,
            drop: Some(DropRule::High),
        }),
        DiceExpr::try_from(expr)
    )
}

#[test]
fn try_from_drop_single_die() {
    let expr = "d4-H";

    assert_eq!(
        Err(DiceExprError::Expr(String::from(expr))),
        DiceExpr::try_from(expr)
    )
}

#[test]
fn try_from_drop_invalid() {
    let expr = "4d4-J";

    assert_eq!(
        Err(DiceExprError::Drop(String::from("j"))),
        DiceExpr::try_from(expr)
    )
}

#[test]
fn try_from_str_invalid() {
    let expr = "asdf";

    assert_eq!(
        Err(DiceExprError::Expr(String::from(expr))),
        DiceExpr::try_from(expr)
    )
}

#[test]
fn try_from_count_overflow() {
    assert_eq!(
        Err(DiceExprError::ParseIntError(String::from("99999"))),
        DiceExpr::try_from("99999d4")
    )
}

#[test]
fn try_from_sides_overflow() {
    assert_eq!(
        Err(DiceExprError::ParseIntError(String::from("99999"))),
        DiceExpr::try_from("4d99999")
    )
}

#[test]
fn try_from_modifier_overflow() {
    assert_eq!(
        Err(DiceExprError::ParseIntError(String::from("+99999"))),
        DiceExpr::try_from("4d4+99999")
    )
}

#[test]
fn try_from_zero_sides() {
    assert_eq!(
        Err(DiceExprError::Expr(String::from("d0"))),
        DiceExpr::try_from("d0")
    )
}

#[test]
fn try_from_trailing_garbage() {
    assert_eq!(
        Err(DiceExprError::Expr(String::from("4d4x"))),
        DiceExpr::try_from("4d4x")
    )
}

#[test]
fn to_text_full() {
    let dice = DiceExpr::try_from("4d4+4-H").unwrap();
    assert_eq!("4d4+4-H", dice.to_text());
}

#[test]
fn to_text_one_die_omits_count() {
    let dice = DiceExpr::try_from("1d6").unwrap();
    assert_eq!("d6", dice.to_text());
    let dice = DiceExpr::try_from("d6").unwrap();
    assert_eq!("d6", dice.to_text());
}

#[test]
fn to_text_normalises() {
    let dice = DiceExpr::try_from("04d06-03-l").unwrap();
    assert_eq!("4d6-3-L", dice.to_text());
}

#[test]
fn to_text_reparses() {
    let dice = DiceExpr::try_from("2d8-1-h").unwrap();
    let again = DiceExpr::try_from(dice.to_text().as_str()).unwrap();
    assert_eq!(dice, again);
}

#[test]
fn message_expr() {
    let e = DiceExpr::try_from("asdf").unwrap_err();
    assert_eq!("Invalid dice expression \"asdf\"", e.message());
}

#[test]
fn message_drop() {
    let e = DiceExpr::try_from("4d4-J").unwrap_err();
    assert_eq!("Invalid drop modifier \"j\"", e.message());
}

#[test]
fn message_int() {
    let e = DiceExpr::try_from("99999d4").unwrap_err();
    assert_eq!(
        "Integer parsing error: number too large to fit in target type",
        e.message()
    );
}

#[test]
fn message_int_negative() {
    let e = DiceExpr::try_from("4d4-99999").unwrap_err();
    assert_eq!(
        Err(DiceExprError::ParseIntError(String::from("-99999"))),
        DiceExpr::try_from("4d4-99999")
    );
    assert_eq!(
        "Integer parsing error: number too small to fit in target type",
        e.message()
    );
}

#[test]
fn roll_in_range() {
    let dice = DiceExpr::try_from("4d4").unwrap();
    let (total, rolls) = dice.roll();
    assert_eq!(4, rolls.len());
    for r in &rolls {
        assert!(*r >= 1);
        assert!(*r <= 4);
    }
    assert_eq!(total, rolls.iter().sum::<u16>());
}

#[test]
fn roll_drop_high() {
    let dice = DiceExpr::try_from("4d6-H").unwrap();
    let (total, rolls) = dice.roll();
    assert_eq!(4, rolls.len());
    let sum: u16 = rolls.iter().sum();
    let max: u16 = *rolls.iter().max().unwrap();
    assert_eq!(total, sum - max);
}

#[test]
fn roll_zero_dice() {
    let dice = DiceExpr::try_from("0d4").unwrap();
    let (total, rolls) = dice.roll();
    assert_eq!(0, rolls.len());
    assert_eq!(0, total);
}
