use homeworks::linked_list::LinkedList;

fn values(list: &LinkedList<i32>) -> Vec<i32> {
    let mut out = Vec::new();
    let mut it = list.iter();
    while let Some(v) = it.next() {
        out.push(*v);
    }
    out
}

#[test]
fn test_push_back() {
    let mut list: LinkedList<i32> = LinkedList::new();
    list.push_back(1);
    list.push_back(2);
    list.push_back(3);

    let result: Vec<i32> = values(&list);
    assert_eq!(result, vec![1, 2, 3]);
}

#[test]
fn test_push_front() {
    let mut list: LinkedList<i32> = LinkedList::new();
    list.push_front(1);
    list.push_front(2);
    list.push_front(3);

    let result: Vec<i32> = values(&list);
    assert_eq!(result, vec![3, 2, 1]);
}

#[test]
fn test_insert_after() {
    let mut list: LinkedList<i32> = LinkedList::new();
    list.push_back(1);
    list.push_back(2);
    list.push_back(4);
    assert_eq!(values(&list), vec![1, 2, 4]);
    list.insert_after(1, 3);

    let result: Vec<i32> = values(&list);
    assert_eq!(result, vec![1, 2, 3, 4]);
}

#[test]
fn test_split_at() {
    let mut list: LinkedList<i32> = LinkedList::new();
    list.push_back(1);
    list.push_back(2);
    list.push_back(3);
    list.push_back(4);

    let new_list = list.split_at(2).unwrap();

    let result2: Vec<i32> = values(&new_list);
    assert_eq!(result2, vec![3, 4]);

    let result1: Vec<i32> = values(&list);
    assert_eq!(result1, vec![1, 2]);
}

#[test]
fn test_push_back2() {
    let mut list: LinkedList<i32> = LinkedList::new();
    list.push_back(1);
    list.push_back(2);
    list.push_back(3);

    let result: Vec<i32> = values(&list);
    assert_eq!(result, vec![1, 2, 3]);
}

#[test]
fn test_iter() {
    let mut list: LinkedList<i32> = LinkedList::new();
    list.push_back(1);
    list.push_back(2);
    list.push_back(3);

    let result: Vec<i32> = values(&list);
    assert_eq!(result, vec![1, 2, 3]);
}

#[test]
fn test_push_front_and_back() {
    let mut list: LinkedList<i32> = LinkedList::new();
    list.push_front(1);
    list.push_back(2);
    let result: Vec<i32> = values(&list);
    assert_eq!(result, vec![1, 2]);
    list.push_front(3);
    let result: Vec<i32> = values(&list);
    assert_eq!(result, vec![3, 1, 2]);
    list.push_back(4);

    let result: Vec<i32> = values(&list);
    assert_eq!(result, vec![3, 1, 2, 4]);
}

#[test]
fn test_insert_after_invalid_index() {
    let mut list: LinkedList<i32> = LinkedList::new();
    list.push_back(1);
    list.push_back(2);
    list.push_back(3);

    list.insert_after(5, 4);

    let result: Vec<i32> = values(&list);
    assert_eq!(result, vec![1, 2, 3]);
}

#[test]
fn test_split_at_invalid_index() {
    let mut list: LinkedList<i32> = LinkedList::new();
    list.push_back(1);
    list.push_back(2);
    list.push_back(3);

    let new_list = list.split_at(5);

    assert!(new_list.is_none());

    let result: Vec<i32> = values(&list);
    assert_eq!(result, vec![1, 2, 3]);
}

#[test]
fn test_split_at_empty_list() {
    let mut list: LinkedList<i32> = LinkedList::new();
    let new_list = list.split_at(0);
    assert!(new_list.is_none());
}

#[test]
fn test_split() {
    let mut list: LinkedList<i32> = LinkedList::new();
    list.push_back(1);
    list.push_back(2);
    list.push_back(3);
    list.push_back(4);
    let new_list = list.split_at(2);
    assert!(new_list.is_some());
    let new_list = new_list.unwrap();
    let result: Vec<i32> = values(&new_list);
    assert_eq!(result, vec![3, 4]);
    assert_eq!(values(&list), vec![1, 2]);
}

#[test]
fn test_split_odd_elements() {
    let mut list: LinkedList<i32> = LinkedList::new();
    list.push_back(1);
    list.push_back(2);
    list.push_back(3);
    list.push_back(4);
    list.push_back(5);
    let new_list = list.split_at(2);
    assert!(new_list.is_some());
    let new_list = new_list.unwrap();
    let result: Vec<i32> = values(&new_list);
    assert_eq!(result, vec![3, 4, 5]);
    assert_eq!(values(&list), vec![1, 2]);
}

#[test]
fn test_len() {
    let mut list: LinkedList<i32> = LinkedList::new();
    list.push_back(1);
    list.push_back(2);
    list.push_back(3);
    assert_eq!(list.len(), 3);
}

#[test]
fn test_change_value_by_index() {
    let mut list: LinkedList<i32> = LinkedList::new();
    list.push_back(1);
    list.push_back(2);
    list.push_back(3);
    list.change_value_by_index(1, 4);
    let result: Vec<i32> = values(&list);
    assert_eq!(result, vec![1, 4, 3]);
}

#[test]
fn change_value_past_the_end_changes_nothing() {
    let mut list: LinkedList<i32> = LinkedList::new();
    list.push_back(1);
    list.push_back(2);
    list.change_value_by_index(2, 9);
    assert_eq!(values(&list), vec![1, 2]);
    assert_eq!(list.len(), 2);
}

#[test]
fn insert_after_zero_puts_in_front() {
    let mut list: LinkedList<i32> = LinkedList::new();
    list.push_back(1);
    list.push_back(2);
    list.insert_after(0, 7);
    assert_eq!(values(&list), vec![7, 1, 2]);
    assert_eq!(list.len(), 3);
}

#[test]
fn insert_after_the_last_position_counts_without_inserting() {
    let mut list: LinkedList<i32> = LinkedList::new();
    list.push_back(1);
    list.push_back(2);
    list.insert_after(2, 9);
    assert_eq!(values(&list), vec![1, 2]);
    assert_eq!(list.len(), 3);
    assert!(!list.is_empty());
}

#[test]
fn split_then_rejoin_gives_the_same_values() {
    let mut list: LinkedList<i32> = LinkedList::new();
    for v in [5, 6, 7, 8, 9] {
        list.push_back(v);
    }
    let rest = list.split_at(3).unwrap();
    let mut joined = values(&list);
    joined.extend(values(&rest));
    assert_eq!(joined, vec![5, 6, 7, 8, 9]);
    assert_eq!(list.len() + rest.len(), 5);
}

#[test]
fn describe_lists_the_values() {
    let mut list: LinkedList<i32> = LinkedList::new();
    list.push_back(1);
    list.push_back(2);
    list.push_back(3);
    let texts = vec!["1".to_string(), "2".to_string(), "3".to_string()];
    assert_eq!(list.describe(&texts), "LinkedList: Size: 3; Chain : 1 => 2 => 3  ");
    let empty: LinkedList<i32> = LinkedList::default();
    assert_eq!(empty.describe(&Vec::new()), "LinkedList: Size: 0; Chain :   ");
    assert!(empty.is_empty());
}

#[test]
fn describe_after_counting_a_missing_value() {
    let mut list: LinkedList<i32> = LinkedList::new();
    list.push_back(1);
    list.push_back(2);
    list.push_back(3);
    list.insert_after(3, 9);
    let texts = vec!["1".to_string(), "2".to_string(), "3".to_string()];
    assert_eq!(list.len(), 4);
    assert_eq!(list.describe(&texts), "LinkedList: Size: 4; Chain : 1 => 2 => 3 =>   ");
}
