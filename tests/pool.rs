use aoz_sc_land_chest_opening::commit::pool_contains;
use aoz_sc_land_chest_opening::payment::{copy_bytes, same_bytes, Payment};
use aoz_sc_land_chest_opening::pool::{draw_at, get_full_set_len, select_index, take_unit, DropItem};
use aoz_sc_land_chest_opening::session::{chance_roll_wins, descriptors_of};

fn item(name: &str, amount: usize) -> DropItem {
    DropItem::new(Payment::new(name.as_bytes().to_vec(), 1, vec![5]), amount)
}

#[test]
fn full_set_len_sums_units() {
    assert_eq!(get_full_set_len(&vec![]), 0);
    assert_eq!(get_full_set_len(&vec![item("A", 3), item("B", 2), item("C", 9)]), 14);
}

#[test]
fn select_index_follows_running_sum() {
    let set = vec![item("A", 3), item("B", 2)];
    assert_eq!(select_index(&set, 0), 0);
    assert_eq!(select_index(&set, 2), 0);
    assert_eq!(select_index(&set, 3), 0);
    assert_eq!(select_index(&set, 4), 1);
}

#[test]
fn take_unit_reappends_or_removes() {
    let mut set = vec![item("A", 1), item("B", 2)];
    assert_eq!(take_unit(&mut set, 1), item("B", 0).drop_content);
    assert_eq!(set, vec![item("A", 1), item("B", 1)]);
    assert_eq!(take_unit(&mut set, 0), item("A", 0).drop_content);
    assert_eq!(set, vec![item("B", 1)]);
}

#[test]
fn draw_at_position_four() {
    let mut set = vec![item("A", 3), item("B", 2)];
    let p = draw_at(&mut set, 4);
    assert_eq!(p, item("B", 0).drop_content);
    assert_eq!(set, vec![item("A", 3), item("B", 1)]);
    let p = draw_at(&mut set, 1);
    assert_eq!(p, item("A", 0).drop_content);
    assert_eq!(set, vec![item("B", 1), item("A", 2)]);
}

#[test]
fn chance_roll_outcomes() {
    assert!(chance_roll_wins(0, 1));
    assert!(chance_roll_wins(4, 4));
    assert!(!chance_roll_wins(5, 4));
    assert!(!chance_roll_wins(0, 0));
}

#[test]
fn byte_helpers() {
    assert_eq!(copy_bytes(&vec![1, 2, 3]), vec![1, 2, 3]);
    assert!(same_bytes(&vec![1, 2], &vec![1, 2]));
    assert!(!same_bytes(&vec![1, 2], &vec![1, 3]));
    assert!(!same_bytes(&vec![1], &vec![1, 0]));
}

#[test]
fn payment_equality_and_amount_override() {
    let a = Payment::new(b"TOK-1".to_vec(), 4, vec![1]);
    assert_eq!(a.duplicate(), a);
    assert_ne!(a, Payment::new(b"TOK-1".to_vec(), 5, vec![1]));
    assert_ne!(a, Payment::new(b"TOK-2".to_vec(), 4, vec![1]));
    let b = a.with_amount(vec![9, 9]);
    assert_eq!(b, Payment::new(b"TOK-1".to_vec(), 4, vec![9, 9]));
    assert!(!a.same_as(&b));
}

#[test]
fn descriptors_and_membership() {
    let set = vec![item("A", 3), item("B", 2)];
    let keys = descriptors_of(&set);
    assert_eq!(keys, vec![item("A", 0).drop_content, item("B", 0).drop_content]);
    assert!(pool_contains(&set, &item("B", 0).drop_content));
    assert!(!pool_contains(&set, &item("C", 0).drop_content));
}
