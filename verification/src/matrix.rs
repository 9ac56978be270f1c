//! Fixed-size matrices (stored as a flat array of `N` elements) and sets of
//! them, over any element type with the needed operators.
use vstd::prelude::*;
use std::ops::{Add, Div, Mul};
use vstd::std_specs::ops::{AddSpec, DivSpec, MulSpec};

verus! {

pub struct Matrix<T, const N: usize> {
    elements: [T; N],
}

impl<T, const N: usize> View for Matrix<T, N> {
    type V = Seq<T>;

    closed spec fn view(&self) -> Seq<T> {
        self.elements@
    }
}

impl<T: Copy, const N: usize> Matrix<T, N> {
    pub fn new(elements: [T; N]) -> (m: Self)
        ensures
            m@ == elements@,
    {
        Self { elements }
    }

    /// The elements, in order.
    pub fn elements(&self) -> (e: [T; N])
        ensures
            e@ == self@,
    {
        self.elements
    }
}

impl<T: Add<Output = T> + Copy, const N: usize> Matrix<T, N> {
    /// Adds `value` to every element.
    pub fn add(&mut self, value: T)
        requires
            forall|i: int| 0 <= i < N ==> (#[trigger] old(self)@[i]).add_req(value),
        ensures
            final(self)@.len() == N,
            T::obeys_add_spec() ==> forall|i: int|
                0 <= i < N ==> #[trigger] final(self)@[i] == old(self)@[i].add_spec(value),
    {
        let ghost start = self@;
        for i in 0..N
            invariant
                start.len() == N,
                self@.len() == N,
                forall|j: int| 0 <= j < N ==> (#[trigger] start[j]).add_req(value),
                forall|j: int| i <= j < N ==> #[trigger] self@[j] == start[j],
                T::obeys_add_spec() ==> forall|j: int|
                    0 <= j < i ==> #[trigger] self@[j] == start[j].add_spec(value),
        {
            let e = self.elements[i];
            assert(e == start[i as int]);
            self.elements[i] = e + value;
        }
    }
}

impl<T: Mul<Output = T> + Copy, const N: usize> Matrix<T, N> {
    /// Multiplies every element by `value`.
    pub fn multiply(&mut self, value: T)
        requires
            forall|i: int| 0 <= i < N ==> (#[trigger] old(self)@[i]).mul_req(value),
        ensures
            final(self)@.len() == N,
            T::obeys_mul_spec() ==> forall|i: int|
                0 <= i < N ==> #[trigger] final(self)@[i] == old(self)@[i].mul_spec(value),
    {
        let ghost start = self@;
        for i in 0..N
            invariant
                start.len() == N,
                self@.len() == N,
                forall|j: int| 0 <= j < N ==> (#[trigger] start[j]).mul_req(value),
                forall|j: int| i <= j < N ==> #[trigger] self@[j] == start[j],
                T::obeys_mul_spec() ==> forall|j: int|
                    0 <= j < i ==> #[trigger] self@[j] == start[j].mul_spec(value),
        {
            let e = self.elements[i];
            assert(e == start[i as int]);
            self.elements[i] = e * value;
        }
    }
}

/// All elements of the matrices, matrix by matrix, each in order.
pub open spec fn flatten<T, const N: usize>(ms: Seq<Matrix<T, N>>) -> Seq<T>
    decreases ms.len(),
{
    if ms.len() == 0 {
        Seq::empty()
    } else {
        ms[0]@ + flatten(ms.drop_first())
    }
}

/// `acc + xs[0] + xs[1] + ...`, added left to right with the type's `+`.
pub open spec fn fold_add<T: Add<Output = T>>(acc: T, xs: Seq<T>) -> T
    decreases xs.len(),
{
    if xs.len() == 0 {
        acc
    } else {
        fold_add(acc, xs.drop_last()).add_spec(xs.last())
    }
}

/// Whether every step of `fold_add(acc, xs)` meets the precondition of `+`.
pub open spec fn adds_allowed<T: Add<Output = T>>(acc: T, xs: Seq<T>) -> bool
    decreases xs.len(),
{
    xs.len() == 0 || (adds_allowed(acc, xs.drop_last()) && fold_add(acc, xs.drop_last()).add_req(
        xs.last(),
    ))
}

/// `acc * xs[0] * xs[1] * ...`, multiplied left to right with the type's `*`.
pub open spec fn fold_mul<T: Mul<Output = T>>(acc: T, xs: Seq<T>) -> T
    decreases xs.len(),
{
    if xs.len() == 0 {
        acc
    } else {
        fold_mul(acc, xs.drop_last()).mul_spec(xs.last())
    }
}

/// Whether every step of `fold_mul(acc, xs)` meets the precondition of `*`.
pub open spec fn muls_allowed<T: Mul<Output = T>>(acc: T, xs: Seq<T>) -> bool
    decreases xs.len(),
{
    xs.len() == 0 || (muls_allowed(acc, xs.drop_last()) && fold_mul(acc, xs.drop_last()).mul_req(
        xs.last(),
    ))
}

proof fn lemma_adds_allowed_prefix<T: Add<Output = T>>(acc: T, xs: Seq<T>, k: int)
    requires
        adds_allowed(acc, xs),
        0 <= k <= xs.len(),
    ensures
        adds_allowed(acc, xs.take(k)),
    decreases xs.len(),
{
    if k == xs.len() {
        assert(xs.take(k) =~= xs);
    } else {
        assert(xs.drop_last().take(k) =~= xs.take(k));
        lemma_adds_allowed_prefix(acc, xs.drop_last(), k);
    }
}

proof fn lemma_muls_allowed_prefix<T: Mul<Output = T>>(acc: T, xs: Seq<T>, k: int)
    requires
        muls_allowed(acc, xs),
        0 <= k <= xs.len(),
    ensures
        muls_allowed(acc, xs.take(k)),
    decreases xs.len(),
{
    if k == xs.len() {
        assert(xs.take(k) =~= xs);
    } else {
        assert(xs.drop_last().take(k) =~= xs.take(k));
        lemma_muls_allowed_prefix(acc, xs.drop_last(), k);
    }
}

proof fn lemma_flatten_split<T, const N: usize>(ms: Seq<Matrix<T, N>>, i: int)
    requires
        0 <= i <= ms.len(),
    ensures
        flatten(ms) == flatten(ms.take(i)) + flatten(ms.skip(i)),
    decreases i,
{
    if i == 0 {
        assert(ms.skip(0) =~= ms);
        assert(flatten(ms.take(0)) =~= Seq::<T>::empty());
        assert(flatten(ms) =~= flatten(ms.take(0)) + flatten(ms.skip(0)));
    } else {
        lemma_flatten_split(ms.drop_first(), i - 1);
        assert(ms.drop_first().take(i - 1) =~= ms.take(i).drop_first());
        assert(ms.drop_first().skip(i - 1) =~= ms.skip(i));
        assert(ms.take(i)[0] == ms[0]);
        assert(flatten(ms) =~= flatten(ms.take(i)) + flatten(ms.skip(i)));
    }
}

/// The elements seen after `i` whole matrices and `j` elements of the next
/// form a prefix of all elements, and the next element follows it.
proof fn lemma_flatten_step<T, const N: usize>(ms: Seq<Matrix<T, N>>, i: int, j: int)
    requires
        0 <= i < ms.len(),
        0 <= j < ms[i]@.len(),
    ensures
        ({
            let seen = flatten(ms.take(i)) + ms[i]@.take(j);
            &&& seen.len() + 1 <= flatten(ms).len()
            &&& flatten(ms).take(seen.len() as int + 1) == seen.push(ms[i]@[j])
        }),
{
    lemma_flatten_split(ms, i);
    let rest = ms.skip(i);
    assert(rest.drop_first() =~= ms.skip(i + 1));
    assert(flatten(rest) == ms[i]@ + flatten(ms.skip(i + 1)));
    let seen = flatten(ms.take(i)) + ms[i]@.take(j);
    assert(flatten(ms).take(seen.len() as int + 1) =~= seen.push(ms[i]@[j]));
}

/// After a whole matrix, the elements seen are those of one more matrix.
proof fn lemma_flatten_next<T, const N: usize>(ms: Seq<Matrix<T, N>>, i: int)
    requires
        0 <= i < ms.len(),
    ensures
        flatten(ms.take(i)) + ms[i]@ == flatten(ms.take(i + 1)),
{
    let t = ms.take(i + 1);
    lemma_flatten_split(t, i);
    assert(t.take(i) =~= ms.take(i));
    let last = t.skip(i);
    assert(last.drop_first() =~= Seq::<Matrix<T, N>>::empty());
    assert(flatten(Seq::<Matrix<T, N>>::empty()) =~= Seq::<T>::empty());
    assert(last[0] == ms[i]);
    assert(flatten(last) =~= ms[i]@);
}

/// A borrowed group of matrices of the same size.
pub struct MatrixSet<'a, T, const N: usize> {
    matrices: &'a [Matrix<T, N>],
}

impl<'a, T, const N: usize> View for MatrixSet<'a, T, N> {
    type V = Seq<Matrix<T, N>>;

    closed spec fn view(&self) -> Seq<Matrix<T, N>> {
        self.matrices@
    }
}

impl<'a, T, const N: usize> MatrixSet<'a, T, N> {
    pub fn new(matrices: &'a [Matrix<T, N>]) -> (set: Self)
        ensures
            set@ == matrices@,
    {
        Self { matrices }
    }

    /// The matrix at `index`.
    pub fn get_matrix(&self, index: usize) -> (m: &'a Matrix<T, N>)
        requires
            index < self@.len(),
        ensures
            *m == self@[index as int],
    {
        &self.matrices[index]
    }
}

impl<'a, T: Add<Output = T> + Copy + Default, const N: usize> MatrixSet<'a, T, N> {
    /// The sum of every element of every matrix, starting from the type's
    /// default value and adding in order.
    pub fn sum_all_elements(&self) -> (sum: T)
        requires
            T::obeys_add_spec() ==> forall|d: T|
                call_ensures(T::default, (), d) ==> adds_allowed(d, flatten(self@)),
            !T::obeys_add_spec() ==> forall|a: T, b: T| #[trigger] a.add_req(b),
        ensures
            T::obeys_add_spec() ==> exists|d: T|
                call_ensures(T::default, (), d) && sum == fold_add(d, flatten(self@)),
    {
        let start = T::default();
        let ghost d = start;
        let ghost all = flatten(self@);
        let mut sum: T = start;
        let mut i: usize = 0;
        while i < self.matrices.len()
            invariant
                call_ensures(T::default, (), d),
                T::obeys_add_spec() ==> adds_allowed(d, all),
                !T::obeys_add_spec() ==> forall|a: T, b: T| #[trigger] a.add_req(b),
                all == flatten(self@),
                0 <= i <= self@.len(),
                T::obeys_add_spec() ==> sum == fold_add(d, flatten(self@.take(i as int))),
            decreases self@.len() - i,
        {
            let matrix = &self.matrices[i];
            let mut j: usize = 0;
            while j < N
                invariant
                    T::obeys_add_spec() ==> adds_allowed(d, all),
                    !T::obeys_add_spec() ==> forall|a: T, b: T| #[trigger] a.add_req(b),
                    all == flatten(self@),
                    0 <= i < self@.len(),
                    *matrix == self@[i as int],
                    matrix@.len() == N,
                    0 <= j <= N,
                    T::obeys_add_spec() ==> sum == fold_add(
                        d,
                        flatten(self@.take(i as int)) + matrix@.take(j as int),
                    ),
                decreases N - j,
            {
                let element = matrix.elements[j];
                proof {
                    let seen = flatten(self@.take(i as int)) + matrix@.take(j as int);
                    lemma_flatten_step(self@, i as int, j as int);
                    if T::obeys_add_spec() {
                        lemma_adds_allowed_prefix(d, all, seen.len() as int + 1);
                    } else {
                        assert(sum.add_req(element));
                    }
                    assert(seen.push(element).drop_last() =~= seen);
                    assert(matrix@.take(j + 1) =~= matrix@.take(j as int).push(element));
                    assert(flatten(self@.take(i as int)) + matrix@.take(j + 1) =~= seen.push(
                        element,
                    ));
                }
                sum = sum + element;
                j = j + 1;
            }
            proof {
                assert(matrix@.take(N as int) =~= matrix@);
                lemma_flatten_next(self@, i as int);
            }
            i = i + 1;
        }
        assert(self@.take(self@.len() as int) =~= self@);
        sum
    }
}

impl<'a, T: Mul<Output = T> + Copy + Div<Output = T>, const N: usize> MatrixSet<'a, T, N> {
    /// The product of every element, computed as the first element times
    /// every element in order, divided by the first element at the end.
    pub fn multiply_all_elements(&self) -> (product: T)
        requires
            self@.len() > 0,
            N > 0,
            T::obeys_mul_spec() ==> muls_allowed(self@[0]@[0], flatten(self@)) && fold_mul(
                self@[0]@[0],
                flatten(self@),
            ).div_req(self@[0]@[0]),
            !T::obeys_mul_spec() ==> forall|a: T, b: T| #[trigger] a.mul_req(b) && a.div_req(b),
        ensures
            T::obeys_mul_spec() && T::obeys_div_spec() ==> product == fold_mul(
                self@[0]@[0],
                flatten(self@),
            ).div_spec(self@[0]@[0]),
    {
        let first = self.matrices[0].elements[0];
        let ghost all = flatten(self@);
        let mut product: T = first;
        let mut i: usize = 0;
        while i < self.matrices.len()
            invariant
                first == self@[0]@[0],
                T::obeys_mul_spec() ==> muls_allowed(first, all),
                !T::obeys_mul_spec() ==> forall|a: T, b: T| #[trigger] a.mul_req(b) && a.div_req(b),
                all == flatten(self@),
                0 <= i <= self@.len(),
                T::obeys_mul_spec() ==> product == fold_mul(first, flatten(self@.take(i as int))),
            decreases self@.len() - i,
        {
            let matrix = &self.matrices[i];
            let mut j: usize = 0;
            while j < N
                invariant
                    T::obeys_mul_spec() ==> muls_allowed(first, all),
                    !T::obeys_mul_spec() ==> forall|a: T, b: T| #[trigger] a.mul_req(b) && a.div_req(b),
                    all == flatten(self@),
                    0 <= i < self@.len(),
                    *matrix == self@[i as int],
                    matrix@.len() == N,
                    0 <= j <= N,
                    T::obeys_mul_spec() ==> product == fold_mul(
                        first,
                        flatten(self@.take(i as int)) + matrix@.take(j as int),
                    ),
                decreases N - j,
            {
                let element = matrix.elements[j];
                proof {
                    let seen = flatten(self@.take(i as int)) + matrix@.take(j as int);
                    lemma_flatten_step(self@, i as int, j as int);
                    if T::obeys_mul_spec() {
                        lemma_muls_allowed_prefix(first, all, seen.len() as int + 1);
                    } else {
                        assert(product.mul_req(element));
                    }
                    assert(seen.push(element).drop_last() =~= seen);
                    assert(matrix@.take(j + 1) =~= matrix@.take(j as int).push(element));
                    assert(flatten(self@.take(i as int)) + matrix@.take(j + 1) =~= seen.push(
                        element,
                    ));
                }
                product = product * element;
                j = j + 1;
            }
            proof {
                assert(matrix@.take(N as int) =~= matrix@);
                lemma_flatten_next(self@, i as int);
            }
            i = i + 1;
        }
        assert(self@.take(self@.len() as int) =~= self@);
        proof {
            if !T::obeys_mul_spec() {
                assert(product.mul_req(first));
            }
        }
        product / first
    }
}

} // verus!
