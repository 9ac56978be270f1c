use homeworks::slices::{
    get_element_from_end, get_element_from_pair, get_element_from_slice, split_slice_by2,
    split_slice_by4,
};

struct Mock {
    test: usize,
}

#[test]
fn get_element_from_pair_test_get_element() {
    let a = Mock { test: 0 };
    let b = Mock { test: 1 };
    let mut values = (a, b);
    let first = get_element_from_pair(&mut values, false);
    first.test += 1;
    assert_eq!(first.test, 1);
    let second = get_element_from_pair(&mut values, true);
    second.test += 2;
    assert_eq!(second.test, 3);
}

#[test]
fn test_get_element_from_end() {
    let mut vec = vec![Mock { test: 0 }, Mock { test: 1 }];
    let res = get_element_from_end(&mut vec[0..2], 1);
    assert_eq!(res.test, 0);
    let res = get_element_from_end(&mut vec[0..2], 0);
    assert_eq!(res.test, 1);
}

#[test]
fn get_n_element_from_slice_test_get_element() {
    let mut vec = vec![Mock { test: 0 }, Mock { test: 1 }];
    let res = get_element_from_slice(&mut vec[0..2], 1);
    assert_eq!(res.test, 1);
    let res = get_element_from_slice(&mut vec[0..2], 0);
    assert_eq!(res.test, 0);
}

#[test]
fn element_from_slice_changes_in_place() {
    let mut vec = vec![Mock { test: 0 }, Mock { test: 1 }, Mock { test: 2 }];
    get_element_from_slice(&mut vec[..], 2).test = 9;
    assert_eq!(vec[2].test, 9);
    assert_eq!(vec[1].test, 1);
}

#[test]
fn split_slice_by2_test_get_element() {
    let mut vec = vec![
        Mock { test: 0 },
        Mock { test: 1 },
        Mock { test: 2 },
        Mock { test: 3 },
    ];
    let vec = split_slice_by2(&mut vec[0..4], 1);
    assert_eq!(vec.get(0).unwrap().len(), 1);
    assert_eq!(vec.get(0).unwrap().get(0).unwrap().test, 0);
    assert_eq!(vec.get(1).unwrap().len(), 3);
    assert_eq!(vec.get(1).unwrap().get(2).unwrap().test, 3);
}

#[test]
fn test_get_element_for_4() {
    let mut vec = vec![
        Mock { test: 0 },
        Mock { test: 1 },
        Mock { test: 2 },
        Mock { test: 3 },
    ];
    let vec = split_slice_by4(&mut vec[0..4]);
    assert_eq!(vec[0].len(), 1);
    assert_eq!(vec[0].get(0).unwrap().test, 0);
    assert_eq!(vec[1].len(), 1);
    assert_eq!(vec[2].len(), 1);
    assert_eq!(vec[3].len(), 1);
    assert_eq!(vec[3].get(0).unwrap().test, 3);
    assert_eq!(vec.len(), 4);
}

#[test]
fn test_get_element_for_6() {
    let mut vec = vec![
        Mock { test: 0 },
        Mock { test: 1 },
        Mock { test: 2 },
        Mock { test: 3 },
        Mock { test: 4 },
        Mock { test: 5 },
    ];
    let vec = split_slice_by4(&mut vec[0..6]);
    assert_eq!(vec[0].len(), 1);
    assert_eq!(vec[0].get(0).unwrap().test, 0);
    assert_eq!(vec[1].len(), 2);
    assert_eq!(vec[1].get(1).unwrap().test, 2);
    assert_eq!(vec[2].len(), 1);
    assert_eq!(vec[3].len(), 2);
    assert_eq!(vec[3].get(1).unwrap().test, 5);
    assert_eq!(vec.len(), 4);
}

#[test]
fn split_by4_of_an_empty_or_tiny_slice() {
    let empty: [u8; 0] = [];
    let parts = split_slice_by4(&empty);
    assert!(parts.iter().all(|p| p.is_empty()));
    let three = [1u8, 2, 3];
    let parts = split_slice_by4(&three);
    assert_eq!(parts[0], &[] as &[u8]);
    assert_eq!(parts[1], &[1u8]);
    assert_eq!(parts[2], &[2u8]);
    assert_eq!(parts[3], &[3u8]);
}
