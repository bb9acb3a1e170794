use aoz_sc_land_chest_opening::commit::{SessionWrites, StoreWrite};
use aoz_sc_land_chest_opening::entropy::{EntropySource, ScriptedEntropy};
use aoz_sc_land_chest_opening::payment::Payment;
use aoz_sc_land_chest_opening::pool::DropItem;
use aoz_sc_land_chest_opening::session::StorageCache;

fn pay(name: &str) -> Payment {
    Payment::new(name.as_bytes().to_vec(), 0, vec![1])
}

fn item(name: &str, amount: usize) -> DropItem {
    DropItem::new(pay(name), amount)
}

fn units(set: &[DropItem]) -> usize {
    set.iter().map(|d| d.amount_left).sum()
}

fn amount_of(set: &[DropItem], name: &str) -> Option<usize> {
    set.iter().find(|d| d.drop_content == pay(name)).map(|d| d.amount_left)
}

/// A store mapping as a list of (descriptor, units), in insertion order.
type Store = Vec<(Payment, usize)>;

fn apply(store: &mut Store, writes: &[StoreWrite]) {
    for w in writes {
        match w {
            StoreWrite::Upsert(k, v) => {
                if let Some(e) = store.iter_mut().find(|e| e.0 == *k) {
                    e.1 = *v;
                } else {
                    store.push((k.clone(), *v));
                }
            }
            StoreWrite::Delete(k) => store.retain(|e| e.0 != *k),
        }
    }
}

fn load(store: &Store) -> Vec<DropItem> {
    store.iter().map(|(k, v)| DropItem::new(k.clone(), *v)).collect()
}

fn session(guaranteed: Vec<DropItem>, chance: Vec<DropItem>, script: Vec<usize>) -> StorageCache<ScriptedEntropy> {
    StorageCache::new(7, guaranteed, chance, pay("HEAD"), ScriptedEntropy::new(script))
}

#[test]
fn weighted_trace_against_three_and_two() {
    let mut s = session(vec![item("A", 3), item("B", 2)], vec![], vec![4, 1]);
    assert_eq!(s.remaining_guaranteed_drops, 5);
    let first = s.get_guaranteed_drop_from_set();
    assert_eq!(first, pay("B"));
    assert_eq!(s.remaining_guaranteed_set, vec![item("A", 3), item("B", 1)]);
    let second = s.get_guaranteed_drop_from_set();
    assert_eq!(second, pay("A"));
    assert_eq!(s.remaining_guaranteed_set, vec![item("B", 1), item("A", 2)]);
    assert_eq!(s.remaining_guaranteed_drops, 3);
}

#[test]
fn boundary_position_selects_earlier_item() {
    // position 3 lands on the end of A's three units: the running sum 3 reaches it
    let mut s = session(vec![item("A", 3), item("B", 2)], vec![], vec![3]);
    assert_eq!(s.get_guaranteed_drop_from_set(), pay("A"));
    assert_eq!(s.remaining_guaranteed_set, vec![item("B", 2), item("A", 2)]);
}

#[test]
fn counters_match_units_after_draws() {
    let mut s = session(
        vec![item("A", 3), item("B", 2), item("C", 1)],
        vec![item("X", 2), item("Y", 4)],
        vec![5, 0, 2, 9, 1, 3, 4, 8],
    );
    for _ in 0..4 {
        s.get_guaranteed_drop_from_set();
        assert_eq!(units(&s.remaining_guaranteed_set), s.remaining_guaranteed_drops);
        s.get_chance_drop();
        assert_eq!(units(&s.remaining_chance_set), s.remaining_chance_drops);
    }
    assert_eq!(s.remaining_guaranteed_drops, 2);
    assert_eq!(s.remaining_chance_drops, 2);
    assert!(s.remaining_guaranteed_set.iter().all(|d| d.amount_left > 0));
}

#[test]
fn drawing_every_unit_empties_the_pool() {
    let mut s = session(vec![item("A", 3), item("B", 2)], vec![], vec![2, 7, 1, 0, 11]);
    let n = s.remaining_guaranteed_drops;
    let mut drawn = Vec::new();
    for _ in 0..n {
        drawn.push(s.get_guaranteed_drop_from_set());
    }
    assert_eq!(s.remaining_guaranteed_drops, 0);
    assert!(s.remaining_guaranteed_set.is_empty());
    assert_eq!(drawn.iter().filter(|p| **p == pay("A")).count(), 3);
    assert_eq!(drawn.iter().filter(|p| **p == pay("B")).count(), 2);
}

#[test]
fn empty_store_gives_empty_pools() {
    let s = session(vec![], vec![], vec![]);
    assert_eq!(s.remaining_guaranteed_drops, 0);
    assert_eq!(s.remaining_chance_drops, 0);
    let w = s.commit();
    assert!(w.guaranteed.is_empty());
    assert!(w.chance.is_empty());
}

#[test]
fn chance_drop_draws_from_chance_pool() {
    let mut s = session(vec![item("A", 1)], vec![item("X", 1), item("Y", 2)], vec![2]);
    assert_eq!(s.get_chance_drop(), pay("Y"));
    assert_eq!(s.remaining_chance_drops, 2);
    assert_eq!(s.remaining_chance_set, vec![item("X", 1), item("Y", 1)]);
    assert_eq!(s.remaining_guaranteed_set, vec![item("A", 1)]);
    assert_eq!(s.remaining_guaranteed_drops, 1);
}

#[test]
fn chance_roll_uses_guaranteed_range() {
    // draws fold into [0, 10): 3 <= 4 wins, 7 > 4 loses
    let mut s = session(vec![item("A", 10)], vec![item("X", 4)], vec![3, 7, 14]);
    assert!(s.has_won_chance_drop());
    assert!(!s.has_won_chance_drop());
    assert!(s.has_won_chance_drop());
    assert_eq!(s.remaining_chance_drops, 4);
    assert_eq!(s.remaining_guaranteed_drops, 10);
}

#[test]
fn chance_roll_loses_without_chance_units() {
    let mut s = session(vec![item("A", 10)], vec![], vec![0]);
    assert!(!s.has_won_chance_drop());
}

#[test]
fn commit_deletes_exhausted_and_keeps_untouched() {
    let mut store_g: Store = vec![(pay("A"), 1), (pay("B"), 2)];
    let store_c: Store = vec![(pay("X"), 5)];
    let mut s = session(load(&store_g), load(&store_c), vec![0]);
    assert_eq!(s.get_guaranteed_drop_from_set(), pay("A"));
    let SessionWrites { guaranteed, chance } = s.commit();
    assert_eq!(guaranteed.len(), 2);
    assert!(matches!(&guaranteed[0], StoreWrite::Upsert(k, 2) if *k == pay("B")));
    assert!(matches!(&guaranteed[1], StoreWrite::Delete(k) if *k == pay("A")));
    apply(&mut store_g, &guaranteed);
    assert_eq!(store_g, vec![(pay("B"), 2)]);
    let mut after_c = store_c.clone();
    apply(&mut after_c, &chance);
    assert_eq!(after_c, store_c);
}

#[test]
fn commit_without_draws_leaves_store_unchanged() {
    let store_g: Store = vec![(pay("A"), 3), (pay("B"), 2)];
    let store_c: Store = vec![(pay("X"), 1)];
    let s = session(load(&store_g), load(&store_c), vec![]);
    let w = s.commit();
    let mut g = store_g.clone();
    let mut c = store_c.clone();
    apply(&mut g, &w.guaranteed);
    apply(&mut c, &w.chance);
    assert_eq!(g, store_g);
    assert_eq!(c, store_c);
    assert!(w.guaranteed.iter().all(|x| matches!(x, StoreWrite::Upsert(_, _))));
}

#[test]
fn fixed_quantity_leaves_pools_alone() {
    let mut s = session(vec![item("A", 3)], vec![item("X", 1)], vec![]);
    let p = s.get_guaranteed_drop_with_quantity(vec![0x12, 0x34]);
    assert_eq!(p, Payment::new(b"HEAD".to_vec(), 0, vec![0x12, 0x34]));
    assert_eq!(s.remaining_guaranteed_drops, 3);
    assert_eq!(s.remaining_guaranteed_set, vec![item("A", 3)]);
    assert_eq!(s.get_guaranteed_drop(), pay("HEAD"));
    assert_eq!(s.remaining_chance_set, vec![item("X", 1)]);
}

#[test]
fn rehydration_reproduces_final_state() {
    let mut store_g: Store = vec![(pay("A"), 3), (pay("B"), 1), (pay("C"), 2)];
    let mut store_c: Store = vec![(pay("X"), 2)];
    let mut s = session(load(&store_g), load(&store_c), vec![3, 0, 1]);
    s.get_guaranteed_drop_from_set();
    s.get_guaranteed_drop_from_set();
    s.get_chance_drop();
    let final_g = s.remaining_guaranteed_set.clone();
    let final_c = s.remaining_chance_set.clone();
    let counts = (s.remaining_guaranteed_drops, s.remaining_chance_drops);
    let w = s.commit();
    apply(&mut store_g, &w.guaranteed);
    apply(&mut store_c, &w.chance);
    let again = session(load(&store_g), load(&store_c), vec![]);
    assert_eq!((again.remaining_guaranteed_drops, again.remaining_chance_drops), counts);
    assert_eq!(again.remaining_guaranteed_set.len(), final_g.len());
    for d in &final_g {
        let name = String::from_utf8(d.drop_content.token_identifier.clone()).unwrap();
        assert_eq!(amount_of(&again.remaining_guaranteed_set, &name), Some(d.amount_left));
    }
    assert_eq!(again.remaining_chance_set, final_c);
}

#[test]
fn scripted_entropy_folds_into_range() {
    let mut e = ScriptedEntropy::new(vec![17, 2]);
    assert_eq!(e.next_usize_in_range(10, 15), 12);
    assert_eq!(e.next_usize_in_range(0, 2), 0);
    assert_eq!(e.next_usize_in_range(3, 9), 3);
}
