use homeworks::pairs::{default_pair, pair_scalar_sum, pair_vector_sum, Pair, PairOps};
use homeworks::vec3::{default_vec3, vec3_scalar_sum, vec3_vector_sum, Vec3, Vec3Ops};

#[test]
fn pairs_ops_test_default_pair() {
    assert_eq!(default_pair(), (0, 0));
    let default_pair: Pair = PairOps::default_pair();
    assert_eq!(default_pair, (0, 0));
}

#[test]
fn pairs_ops_test_pair_vector_sum() {
    assert_eq!(pair_vector_sum((1, 2), (3, 4)), (4, 6));
    assert_eq!(pair_vector_sum((0, 0), (0, 0)), (0, 0));
    assert_eq!(pair_vector_sum((-1, 1), (1, -1)), (0, 0));

    let mut pair: Pair = PairOps::default_pair();
    assert_eq!(pair.pair_vector_sum((3, 4)), &(3, 4));
    assert_eq!(pair.pair_vector_sum((0, 0)), &(3, 4));
    assert_eq!(pair.pair_vector_sum((1, -1)), &(4, 3));
}

#[test]
fn pairs_ops_test_pair_scalar_sum() {
    assert_eq!(pair_scalar_sum((1, 2), (3, 4)), 10);
    assert_eq!(pair_scalar_sum((0, 0), (0, 0)), 0);
    assert_eq!(pair_scalar_sum((-1, 1), (1, -1)), 0);

    let pair: Pair = PairOps::default_pair();
    assert_eq!(pair.pair_scalar_sum((3, 4)), 7);
    assert_eq!(pair.pair_scalar_sum((0, 0)), 0);
    assert_eq!(pair.pair_scalar_sum((-1, 1)), 0);
}

#[test]
fn vector_ops_test_vec3_vector_sum() {
    let a = [1, 2, 3];
    let b = [4, 5, 6];
    let c = vec3_vector_sum(a, b);
    assert_eq!(c[0], 5);
    assert_eq!(c[1], 7);
    assert_eq!(c[2], 9);

    let mut a: Vec3 = Vec3Ops::default_vec3();
    let b = [4, 5, 6];
    let c = a.vec3_vector_sum(b);
    assert_eq!(c[0], 4);
    assert_eq!(c[1], 5);
    assert_eq!(c[2], 6);
}

#[test]
fn vector_ops_test_vec3_vector_sum_with_zero_vec() {
    let a = default_vec3();
    let b = [1, 2, 3];
    let c = vec3_vector_sum(a, b);
    assert_eq!(c[0], 1);
    assert_eq!(c[1], 2);
    assert_eq!(c[2], 3);

    let mut a: Vec3 = Vec3Ops::default_vec3();
    let b = [1, 2, 3];
    let c = a.vec3_vector_sum(b);
    assert_eq!(c[0], 1);
    assert_eq!(c[1], 2);
    assert_eq!(c[2], 3);
}

#[test]
fn vector_ops_test_vec3_scalar_sum() {
    let a = [1, 2, 3];
    let b = [4, 4, 6];
    let c = vec3_scalar_sum(a, b);
    assert_eq!(c, 20);

    let mut a: Vec3 = Vec3Ops::default_vec3();
    let b = [1, 2, 3];
    let c = a.vec3_vector_sum(b);
    let b = [4, 4, 6];
    let c = c.vec3_scalar_sum(b);
    assert_eq!(c, 20);
}

#[test]
fn vector_ops_test_vec3_scalar_sum_with_zero_vec() {
    let a = default_vec3();
    let b = [4, 4, 6];
    let c = vec3_scalar_sum(a, b);
    assert_eq!(c, 14);

    let a: Vec3 = Vec3Ops::default_vec3();
    let b = [4, 4, 6];
    let c = a.vec3_scalar_sum(b);
    assert_eq!(c, 14);
}

#[test]
fn vector_sum_with_negative_components() {
    assert_eq!(vec3_vector_sum([-1, 0, 7], [1, -5, -7]), [0, -5, 0]);
    assert_eq!(vec3_scalar_sum([-1, 0, 7], [1, -5, -7]), -5);
}
