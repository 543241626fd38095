use openmines_server::inventory::{give_all_items, give_all_money, PlayerInventory};

fn count(inv: &PlayerInventory, k: i32) -> Option<i32> {
    inv.items.iter().find(|e| e.0 == k).map(|e| e.1)
}

#[test]
fn give_adds_to_an_existing_item_or_creates_it() {
    let mut inv = PlayerInventory { items: vec![(3, 4)], selected: -1, minv: true, miniq: vec![] };
    inv.add_item(3, 2);
    inv.add_item(7, 1);
    assert_eq!(count(&inv, 3), Some(6));
    assert_eq!(count(&inv, 7), Some(1));
    assert_eq!(inv.items.len(), 2);
    inv.add_item(7, -1);
    assert_eq!(count(&inv, 7), Some(0));
}

#[test]
fn giveall_hands_ten_of_every_item_and_refills_the_quick_bar() {
    let mut inv = PlayerInventory {
        items: vec![(5, 1), (-2, 3), (90, 1)],
        selected: 4,
        minv: false,
        miniq: vec![90],
    };
    give_all_items(&mut inv);
    for k in 0..=50 {
        let expected = if k == 5 { 11 } else { 10 };
        assert_eq!(count(&inv, k), Some(expected));
    }
    assert_eq!(count(&inv, -2), Some(3));
    assert_eq!(count(&inv, 90), Some(1));
    assert_eq!(inv.items.len(), 53);
    assert!(inv.minv);
    assert_eq!(inv.selected, 4);
    assert_eq!(inv.miniq, vec![-2, 0, 1, 2]);
}

#[test]
fn quick_bar_holds_fewer_than_four_when_few_items() {
    let mut inv = PlayerInventory { items: vec![(9, 1), (4, 2)], selected: -1, minv: true, miniq: vec![1] };
    inv.refill_quick_bar();
    assert_eq!(inv.miniq, vec![4, 9]);
    let mut empty = PlayerInventory { items: vec![], selected: -1, minv: true, miniq: vec![3] };
    empty.refill_quick_bar();
    assert!(empty.miniq.is_empty());
}

#[test]
fn giveall_money_saturates() {
    assert_eq!(give_all_money(5, 7), (1_000_005, 100_007));
    assert_eq!(give_all_money(i64::MAX - 1, i64::MAX), (i64::MAX, i64::MAX));
}

#[test]
fn mini_inventory_uses_show_with_total_count() {
    let inv = PlayerInventory {
        items: vec![(1, 5), (2, 3), (3, 1), (4, 2), (5, 9)],
        selected: 2,
        minv: true,
        miniq: vec![2, 5],
    };
    assert_eq!(inv.inventory_payload().as_bytes(), b"show:5:2:1#5#2#3#3#1#5#9");
}

#[test]
fn full_inventory_uses_full_without_padding() {
    let inv = PlayerInventory {
        items: vec![(1, 5), (2, 3), (3, 1), (4, 2)],
        selected: -1,
        minv: false,
        miniq: vec![1, 2],
    };
    assert_eq!(inv.inventory_payload().as_bytes(), b"full:-1:1#5#2#3#3#1#4#2");
}

#[test]
fn inventory_payload_lists_items_in_increasing_order() {
    let inv = PlayerInventory {
        items: vec![(9, 1), (-3, 2), (4, 7)],
        selected: 4,
        minv: false,
        miniq: vec![],
    };
    assert_eq!(inv.inventory_payload(), "full:4:-3#2#4#7#9#1");
    let empty = PlayerInventory { items: vec![], selected: -1, minv: true, miniq: vec![] };
    assert_eq!(empty.inventory_payload(), "show:0:-1:");
    let many_on_bar = PlayerInventory {
        items: vec![(1, 1), (2, 1), (3, 1), (4, 1), (5, 1), (6, 1)],
        selected: -1,
        minv: true,
        miniq: vec![6, 5, 4, 3, 2],
    };
    assert_eq!(many_on_bar.inventory_payload(), "show:6:-1:2#1#3#1#4#1#5#1#6#1");
}
