//! Three-component `i32` vectors added component-wise or all together.
use vstd::prelude::*;

verus! {

pub const VEC3_LEN: usize = 3;

pub type Vec3 = [i32; 3];

/// Whether every component-wise sum fits in `i32`.
pub open spec fn components_fit(a: Vec3, b: Vec3) -> bool {
    forall|i: int| 0 <= i < 3 ==> i32::MIN <= #[trigger] a[i] + b[i] <= i32::MAX
}

/// The sum of `a[i] + b[i]` over the first `k` components.
pub open spec fn prefix_total(a: Vec3, b: Vec3, k: int) -> int
    decreases k,
{
    if k <= 0 {
        0
    } else {
        prefix_total(a, b, k - 1) + a[k - 1] + b[k - 1]
    }
}

/// Whether the running total `sum (a[i] + b[i])`, taken left to right with
/// each pair added first, stays within `i32` at every step.
pub open spec fn total_fits(a: Vec3, b: Vec3) -> bool {
    &&& components_fit(a, b)
    &&& forall|k: int| 0 < k <= 3 ==> i32::MIN <= #[trigger] prefix_total(a, b, k) <= i32::MAX
}

/// The zero vector.
pub fn default_vec3() -> (v: Vec3)
    ensures
        forall|i: int| 0 <= i < 3 ==> v[i] == 0,
{
    [0; 3]
}

/// The component-wise sum.
pub fn vec3_vector_sum(a: Vec3, b: Vec3) -> (c: Vec3)
    requires
        components_fit(a, b),
    ensures
        forall|i: int| 0 <= i < 3 ==> c[i] == a[i] + b[i],
{
    let mut c = default_vec3();
    for i in 0..VEC3_LEN
        invariant
            components_fit(a, b),
            forall|j: int| 0 <= j < i ==> c[j] == a[j] + b[j],
    {
        c[i] = a[i] + b[i];
    }
    c
}

/// The sum of all six numbers.
pub fn vec3_scalar_sum(a: Vec3, b: Vec3) -> (s: i32)
    requires
        total_fits(a, b),
    ensures
        s == prefix_total(a, b, 3),
        s == a[0] + a[1] + a[2] + b[0] + b[1] + b[2],
{
    let mut c: i32 = 0;
    for i in 0..VEC3_LEN
        invariant
            total_fits(a, b),
            c == prefix_total(a, b, i as int),
    {
        assert(i32::MIN <= prefix_total(a, b, i + 1) <= i32::MAX);
        c = c + (a[i] + b[i]);
    }
    assert(prefix_total(a, b, 3) == a[0] + a[1] + a[2] + b[0] + b[1] + b[2]) by {
        reveal_with_fuel(prefix_total, 4);
    }
    c
}

/// The same operations as methods of a vector.
pub trait Vec3Ops: Sized {
    /// Whether adding `b` into `self` stays within `i32` in every component.
    spec fn can_add(&self, b: Vec3) -> bool;

    /// Whether summing all numbers of `self` and `b` stays within `i32`.
    spec fn can_sum_all(&self, b: Vec3) -> bool;

    fn default_vec3() -> Self;

    fn vec3_vector_sum(&mut self, b: Vec3) -> &Self
        requires
            old(self).can_add(b),
    ;

    fn vec3_scalar_sum(self, b: Vec3) -> i32
        requires
            self.can_sum_all(b),
    ;
}

impl Vec3Ops for Vec3 {
    open spec fn can_add(&self, b: Vec3) -> bool {
        components_fit(*self, b)
    }

    open spec fn can_sum_all(&self, b: Vec3) -> bool {
        total_fits(*self, b)
    }

    /// The zero vector.
    fn default_vec3() -> (v: Vec3)
        ensures
            forall|i: int| 0 <= i < 3 ==> v[i] == 0,
    {
        [0; 3]
    }

    /// Adds `b` into `self` and hands back the updated vector.
    fn vec3_vector_sum(&mut self, b: Vec3) -> (r: &Vec3)
        ensures
            forall|i: int| 0 <= i < 3 ==> final(self)[i] == old(self)[i] + b[i],
            *r == *final(self),
    {
        let ghost start = *self;
        for i in 0..VEC3_LEN
            invariant
                components_fit(start, b),
                forall|j: int| 0 <= j < i ==> self[j] == start[j] + b[j],
                forall|j: int| i <= j < 3 ==> self[j] == start[j],
        {
            assert(i32::MIN <= start[i as int] + b[i as int] <= i32::MAX);
            self[i] = self[i] + b[i];
        }
        self
    }

    /// The sum of all six numbers.
    fn vec3_scalar_sum(self, b: Vec3) -> (s: i32)
        ensures
            s == self[0] + self[1] + self[2] + b[0] + b[1] + b[2],
    {
        let mut c: i32 = 0;
        for i in 0..VEC3_LEN
            invariant
                total_fits(self, b),
                c == prefix_total(self, b, i as int),
        {
            assert(i32::MIN <= prefix_total(self, b, i + 1) <= i32::MAX);
            c = c + (self[i] + b[i]);
        }
        assert(prefix_total(self, b, 3) == self[0] + self[1] + self[2] + b[0] + b[1] + b[2]) by {
            reveal_with_fuel(prefix_total, 4);
        }
        c
    }
}

} // verus!
