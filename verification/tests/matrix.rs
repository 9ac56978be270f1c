use homeworks::matrix::{Matrix, MatrixSet};
use homeworks::linked_list::LinkedList;

#[test]
fn test_matrix_new() {
    let matrix = Matrix::<i32, 3>::new([1, 2, 3]);
    assert_eq!(matrix.elements(), [1, 2, 3]);
}

#[test]
fn test_matrix_add() {
    let mut matrix = Matrix::<u32, 3>::new([1, 2, 3]);
    matrix.add(10);
    assert_eq!(matrix.elements(), [11, 12, 13]);
}

#[test]
fn test_matrix_bound_add_and_multiply() {
    let matrix = Matrix::<char, 3>::new(['a', 'b', 'c']);
    assert_eq!(matrix.elements(), ['a', 'b', 'c']);
}

#[test]
fn test_matrix_multiply() {
    let mut matrix1 = Matrix::<i32, 4>::new([1, 2, 3, 4]);
    matrix1.multiply(2);
    assert_eq!(matrix1.elements(), [2, 4, 6, 8]);
}

#[test]
fn test_matrix_set_new() {
    let matrix1 = Matrix::<i32, 3>::new([1, 2, 3]);
    let matrix2 = Matrix::<i32, 3>::new([4, 5, 6]);
    let binding = [matrix1, matrix2];
    let matrix_set = MatrixSet::new(&binding);
    assert_eq!(matrix_set.get_matrix(0).elements(), [1, 2, 3]);
    assert_eq!(matrix_set.get_matrix(1).elements(), [4, 5, 6]);
}

#[test]
fn test_matrix_set_sum_all_elements() {
    let matrix1 = Matrix::<i32, 3>::new([1, 2, 3]);
    let matrix2 = Matrix::<i32, 3>::new([4, 5, 6]);
    let binding = [matrix1, matrix2];
    let matrix_set = MatrixSet::new(&binding);
    assert_eq!(matrix_set.sum_all_elements(), 1 + 2 + 3 + 4 + 5 + 6);
}

#[test]
fn test_matrix_set_multiply_all_elements() {
    let matrix1 = Matrix::<i32, 3>::new([2, 1, 3]);
    let matrix2 = Matrix::<i32, 3>::new([4, 5, 6]);
    let binding = [matrix1, matrix2];
    let matrix_set = MatrixSet::new(&binding);
    assert_eq!(matrix_set.multiply_all_elements(), 1 * 2 * 3 * 4 * 5 * 6);
}

#[test]
fn empty_set_sums_to_default() {
    let binding: [Matrix<i64, 2>; 0] = [];
    let matrix_set = MatrixSet::new(&binding);
    assert_eq!(matrix_set.sum_all_elements(), 0);
}

#[test]
fn product_divides_by_the_first_element_once() {
    let binding = [Matrix::<i32, 2>::new([3, 2])];
    let matrix_set = MatrixSet::new(&binding);
    assert_eq!(matrix_set.multiply_all_elements(), 6);
}

#[test]
fn float_matrices_sum_and_multiply() {
    let group = [Matrix::<f64, 2>::new([1.5, 2.0]), Matrix::<f64, 2>::new([0.5, 4.0])];
    let ms = MatrixSet::new(&group);
    assert_eq!(ms.sum_all_elements(), 8.0);
    assert_eq!(ms.multiply_all_elements(), 6.0);
}

#[test]
fn list_counter_follows_the_values() {
    let mut list: LinkedList<i32> = LinkedList::new();
    list.push_back(1);
    list.push_front(0);
    list.insert_after(1, 5);
    list.change_value_by_index(1, 7);
    let rest = list.split_at(2).unwrap();
    let mut count = 0;
    let mut it = list.iter();
    while it.next().is_some() {
        count += 1;
    }
    assert_eq!(list.len(), count);
    assert_eq!(rest.len(), 1);
}
