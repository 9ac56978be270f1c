use homeworks::borrows::{increased_by_first_item, nth_item, TwoValues};
use homeworks::items::Item;
use homeworks::storage::Storage;

#[test]
fn test_two_values_new() {
    let values = TwoValues::new(&1, &2);
    assert_eq!(&1, values.get_first());
    assert_eq!(&2, values.get_second());
}

#[test]
fn test_increased_by_first_item() {
    let arr = [500, 1, 2, 3];
    let mut n = 100_000;
    increased_by_first_item(&arr, &mut n);
    assert_eq!(n, 100_500);
}

#[test]
fn test_nth_item() {
    let arr = [2, 4, 8, 16];
    assert_eq!(*nth_item(&arr, &2), 8_usize);
}

#[test]
fn borrows_walkthrough() {
    let arr = [2, 4, 8, 16];
    let mut n = 2;
    let nth = nth_item(&arr, &n);
    let increased = increased_by_first_item(&arr, &mut n);
    let value = {
        let values = TwoValues::new(&arr[3], increased);
        assert_eq!(*values.get_first(), 16);
        values.get_second()
    };
    assert_eq!(*value, 4);
    assert_eq!(*nth, 8);
}

#[test]
fn storage_main() {
    let (x, y) = (10, 20);
    let ref_x = {
        let mut storage = Storage::<i32>::new();
        storage.push(&x);
        storage.push(&y);
        match storage.get(0) {
            Some(ref_x) => ref_x,
            _ => unreachable!(),
        }
    };
    println!("{ref_x}");
    assert_eq!(*ref_x, 10);
}

#[test]
fn storage_get_past_the_end_is_none() {
    let x = 1;
    let mut storage = Storage::<i32>::new();
    assert!(storage.get(0).is_none());
    storage.push(&x);
    assert_eq!(storage.get(0), Some(&1));
    assert!(storage.get(1).is_none());
}

#[test]
fn item_indices() {
    assert_eq!(Item::First.index(), 0);
    assert_eq!(Item::Second.index(), 1);
    assert_eq!(Item::Third.index(), 2);
}
