use diceroll::die::Die;
use diceroll::eval::tally;
use diceroll::expr::DropRule;

#[test]
fn tally_plain_sum() {
    let rolls: Vec<u16> = vec![1, 1, 1, 1];
    assert_eq!(4, tally(&rolls, 0, None));
}

#[test]
fn tally_minimum_rolls_with_modifier() {
    let rolls: Vec<u16> = vec![1, 1, 1, 1];
    assert_eq!(7, tally(&rolls, 3, None));
    assert_eq!(1, tally(&rolls, -3, None));
}

#[test]
fn tally_floor_boundary() {
    // the check is strict: a total of exactly zero is clamped
    let rolls: Vec<u16> = vec![1, 1, 1, 1];
    assert_eq!(0, tally(&rolls, -4, None));
    assert_eq!(0, tally(&rolls, -5, None));
    let maxed: Vec<u16> = vec![4, 4, 4, 4];
    assert_eq!(0, tally(&maxed, -16, None));
    assert_eq!(1, tally(&maxed, -15, None));
}

#[test]
fn tally_drop_high_and_low() {
    let rolls: Vec<u16> = vec![2, 3, 4];
    assert_eq!(5, tally(&rolls, 0, Some(DropRule::High)));
    assert_eq!(7, tally(&rolls, 0, Some(DropRule::Low)));
}

#[test]
fn tally_drop_removes_one_occurrence() {
    let rolls: Vec<u16> = vec![3, 3];
    assert_eq!(3, tally(&rolls, 0, Some(DropRule::High)));
    assert_eq!(3, tally(&rolls, 0, Some(DropRule::Low)));
}

#[test]
fn tally_minimum_rolls_with_drop() {
    // all rolls at the minimum: the drop removes one occurrence of it
    let rolls: Vec<u16> = vec![1, 1, 1, 1];
    assert_eq!(3, tally(&rolls, 0, Some(DropRule::Low)));
    assert_eq!(3, tally(&rolls, 0, Some(DropRule::High)));
    assert_eq!(5, tally(&rolls, 2, Some(DropRule::Low)));
    assert_eq!(0, tally(&rolls, -3, Some(DropRule::Low)));
}

#[test]
fn die_roll_in_range() {
    let die = Die::new(6);
    let mut rng = rand::thread_rng();
    for _ in 0..50 {
        let r = die.roll(&mut rng);
        assert!(r >= 1);
        assert!(r <= 6);
    }
}

#[test]
fn one_sided_die_is_constant() {
    let die = Die::new(1);
    let mut rng = rand::thread_rng();
    assert_eq!(1, die.roll(&mut rng));
}
