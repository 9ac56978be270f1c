//! Small puzzles over numbers and strings: digit products, a missing
//! number, a unique digit and bracket matching.
use vstd::prelude::*;
use vstd::set_lib::{lemma_int_range, lemma_len_subset, set_int_range};
use vstd::string::*;
use std::collections::HashSet;

verus! {

broadcast use vstd::std_specs::hash::group_hash_axioms;

/// A digit counted in a product of digits: zero counts as one.
pub open spec fn product_factor(d: nat) -> nat {
    if d == 0 {
        1
    } else {
        d
    }
}

/// The product of the non-zero decimal digits of `n` (1 when there are none).
pub open spec fn nonzero_digit_product(n: nat) -> nat
    decreases n,
{
    if n == 0 {
        1
    } else {
        nonzero_digit_product(n / 10) * product_factor(n % 10)
    }
}

/// The product of the non-zero digits is at least 1, at most the number itself
/// (for a positive number) and below it (for two or more digits).
pub proof fn lemma_digit_product_bounds(n: nat)
    ensures
        1 <= nonzero_digit_product(n),
        n >= 1 ==> nonzero_digit_product(n) <= n,
        n >= 10 ==> nonzero_digit_product(n) < n,
    decreases n,
{
    if n > 0 {
        let q = n / 10;
        let r = n % 10;
        let f = product_factor(r);
        lemma_digit_product_bounds(q);
        let p = nonzero_digit_product(q);
        assert(nonzero_digit_product(n) == p * f);
        assert(n == 10 * q + r);
        assert(1 <= f <= 9);
        assert(p * f >= 1) by (nonlinear_arith)
            requires
                p >= 1,
                f >= 1,
        ;
        if q == 0 {
            assert(p == 1);
            assert(p * f == f) by (nonlinear_arith)
                requires
                    p == 1,
            ;
            assert(f == n);
        } else {
            if r == 0 {
                assert(p * f == p) by (nonlinear_arith)
                    requires
                        f == 1,
                ;
            } else {
                assert(p * f <= q * 9) by (nonlinear_arith)
                    requires
                        1 <= p <= q,
                        1 <= f <= 9,
                ;
            }
        }
    }
}

/// Multiplies the digits of `n` (ignoring zeros) over and over until a
/// single digit remains.
pub open spec fn digit_root_product(n: nat) -> nat
    decreases n,
{
    if n < 10 {
        n
    } else {
        proof {
            lemma_digit_product_bounds(n);
        }
        digit_root_product(nonzero_digit_product(n))
    }
}

/// Appending a decimal digit multiplies the product of the non-zero digits
/// by that digit, a zero counting as one; a number with no digits has
/// product one.
pub proof fn lemma_digit_product_appends_digit(n: nat, d: nat)
    requires
        d < 10,
    ensures
        nonzero_digit_product(0) == 1,
        nonzero_digit_product(10 * n + d) == nonzero_digit_product(n) * if d == 0 {
            1
        } else {
            d
        },
{
    assert((10 * n + d) / 10 == n && (10 * n + d) % 10 == d) by (nonlinear_arith)
        requires
            d < 10,
    ;
    if n == 0 && d == 0 {
        assert(10 * n + d == 0);
    }
}

/// Repeating the product: a number of one digit is its own result, and a
/// number of two or more digits has the result of the product of its
/// non-zero digits, which is always a single digit.
pub proof fn lemma_digit_product_repeats(n: nat)
    ensures
        n < 10 ==> digit_root_product(n) == n,
        n >= 10 ==> digit_root_product(n) == digit_root_product(nonzero_digit_product(n)),
        digit_root_product(n) < 10,
{
    lemma_digit_root_is_digit(n);
}

/// Repeating the product always ends in a single digit.
pub proof fn lemma_digit_root_is_digit(n: nat)
    ensures
        digit_root_product(n) < 10,
    decreases n,
{
    if n >= 10 {
        lemma_digit_product_bounds(n);
        lemma_digit_root_is_digit(nonzero_digit_product(n));
    }
}

/// The product of the non-zero decimal digits of `n`.
fn digit_product_once(n: u32) -> (p: u32)
    ensures
        p == nonzero_digit_product(n as nat),
{
    proof {
        lemma_digit_product_bounds(n as nat);
    }
    let mut p: u32 = 1;
    let mut m: u32 = n;
    while m > 0
        invariant
            p * nonzero_digit_product(m as nat) == nonzero_digit_product(n as nat),
            nonzero_digit_product(n as nat) <= u32::MAX,
            p >= 1,
        decreases m,
    {
        let d = m % 10;
        let ghost old_p = p as int;
        proof {
            lemma_digit_product_bounds((m / 10) as nat);
            let rest = nonzero_digit_product((m / 10) as nat);
            let f = product_factor(d as nat);
            let total = nonzero_digit_product(n as nat);
            assert(nonzero_digit_product(m as nat) == rest * f);
            assert(old_p * (rest * f) == total);
            assert((old_p * f) * rest == total) by (nonlinear_arith)
                requires
                    old_p * (rest * f) == total,
            ;
            assert(old_p * f <= total) by (nonlinear_arith)
                requires
                    (old_p * f) * rest == total,
                    rest >= 1,
                    old_p >= 1,
                    f >= 1,
            ;
            assert(old_p * f >= 1) by (nonlinear_arith)
                requires
                    old_p >= 1,
                    f >= 1,
            ;
        }
        if d != 0 {
            p = p * d;
        }
        assert(p == old_p * product_factor(d as nat));
        m = m / 10;
    }
    assert(nonzero_digit_product(0) == 1);
    assert(p * 1 == p);
    p
}

/// Repeats taking the product of the non-zero digits until one digit is
/// left, and returns it.
pub fn digit_product(n: u32) -> (r: u8)
    ensures
        r == digit_root_product(n as nat),
        r < 10,
    decreases n,
{
    proof {
        lemma_digit_root_is_digit(n as nat);
    }
    let next = digit_product_once(n);
    if n < 10 {
        n as u8
    } else {
        proof {
            lemma_digit_product_bounds(n as nat);
        }
        digit_product(next)
    }
}

/// The smallest `i` from 0 up to the length of `nums` (as an `i32`) that
/// `nums` lacks, or 0 when it lacks none of them.
pub open spec fn first_missing(nums: Seq<i32>) -> i32 {
    if exists|i: int| 0 <= i <= nums.len() && #[trigger] lacks(nums, i) {
        (choose|i: int|
            0 <= i <= nums.len() && #[trigger] lacks(nums, i) && forall|j: int|
                0 <= j < i ==> !#[trigger] lacks(nums, j)) as i32
    } else {
        0
    }
}

/// Whether `nums` lacks the number `i` (taken as an `i32`).
pub open spec fn lacks(nums: Seq<i32>, i: int) -> bool {
    !nums.contains(i as i32)
}

/// The number in `0..=nums.len()` that `nums` lacks (the smallest one).
pub fn missing_num(nums: &[i32]) -> (r: i32)
    ensures
        r == first_missing(nums@),
{
    let mut set: HashSet<i32> = HashSet::new();
    let mut k: usize = 0;
    while k < nums.len()
        invariant
            0 <= k <= nums@.len(),
            forall|x: i32| set@.contains(x) == nums@.take(k as int).contains(x),
        decreases nums@.len() - k,
    {
        let ghost before = nums@.take(k as int);
        let ghost after = nums@.take(k + 1);
        let ghost old_set = set@;
        set.insert(nums[k]);
        assert(set@ == old_set.insert(nums@[k as int]));
        assert(after =~= before.push(nums@[k as int]));
        assert forall|x: i32| set@.contains(x) == after.contains(x) by {
            assert(after[k as int] == nums@[k as int]);
            if before.contains(x) {
                let j = choose|j: int| 0 <= j < before.len() && before[j] == x;
                assert(after[j] == x);
            }
            if after.contains(x) && x != nums@[k as int] {
                let j = choose|j: int| 0 <= j < after.len() && after[j] == x;
                assert(before[j] == x);
            }
        }
        k = k + 1;
    }
    assert(nums@.take(nums@.len() as int) =~= nums@);
    let mut i: usize = 0;
    while i <= nums.len()
        invariant
            0 <= i <= nums@.len() + 1,
            forall|x: i32| set@.contains(x) == nums@.contains(x),
            forall|j: int| 0 <= j < i ==> !#[trigger] lacks(nums@, j),
        ensures
            forall|j: int| 0 <= j <= nums@.len() ==> !#[trigger] lacks(nums@, j),
        decreases nums@.len() + 1 - i,
    {
        let candidate = #[verifier::truncate] (i as i32);
        if !set.contains(&candidate) {
            proof {
                assert(lacks(nums@, i as int));
                let w = choose|w: int|
                    0 <= w <= nums@.len() && #[trigger] lacks(nums@, w) && forall|j: int|
                        0 <= j < w ==> !#[trigger] lacks(nums@, j);
                if w < i {
                    assert(!lacks(nums@, w));
                } else if w > i {
                    assert(!lacks(nums@, i as int));
                }
            }
            return candidate;
        }
        assert(!lacks(nums@, i as int));
        if i == nums.len() {
            break;
        }
        i = i + 1;
    }
    0
}

/// Under the promise of the task (the numbers are distinct and lie in
/// `0..=n`, `n` being how many there are) exactly one number of `0..=n` is
/// missing, and it is the one that `missing_num` returns.
pub proof fn lemma_missing_num_unique(nums: Seq<i32>)
    requires
        nums.no_duplicates(),
        forall|i: int| 0 <= i < nums.len() ==> 0 <= #[trigger] nums[i] <= nums.len(),
        nums.len() <= i32::MAX,
    ensures
        0 <= first_missing(nums) <= nums.len(),
        lacks(nums, first_missing(nums) as int),
        forall|j: int| 0 <= j <= nums.len() && #[trigger] lacks(nums, j) ==> j == first_missing(nums),
{
    let n = nums.len() as int;
    let ints = nums.map_values(|x: i32| x as int);
    assert forall|i: int, j: int| 0 <= i < ints.len() && 0 <= j < ints.len() && i != j implies ints[i]
        != ints[j] by {
        assert(nums[i] != nums[j]);
    }
    ints.unique_seq_to_set();
    let present = ints.to_set();
    let range = set_int_range(0, n + 1);
    lemma_int_range(0, n + 1);
    assert(present.subset_of(range)) by {
        assert forall|v: int| present.contains(v) implies range.contains(v) by {
            let i = choose|i: int| 0 <= i < ints.len() && ints[i] == v;
            assert(0 <= nums[i] <= n);
        }
    }
    // Some number of the range is missing: else the range would fit in `present`.
    if forall|j: int| 0 <= j <= n ==> !#[trigger] lacks(nums, j) {
        assert(range.subset_of(present)) by {
            assert forall|v: int| range.contains(v) implies present.contains(v) by {
                assert(!lacks(nums, v));
                let i = choose|i: int| 0 <= i < nums.len() && nums[i] == v as i32;
                assert(ints[i] == v);
            }
        }
        lemma_len_subset(range, present);
        assert(false);
    }
    let w = choose|j: int| 0 <= j <= n && #[trigger] lacks(nums, j);
    // No other number is missing: else `present` would fit in a range two short.
    assert forall|j: int| 0 <= j <= n && #[trigger] lacks(nums, j) implies j == w by {
        if j != w {
            let smaller = range.remove(w).remove(j);
            assert(present.subset_of(smaller)) by {
                assert forall|v: int| present.contains(v) implies smaller.contains(v) by {
                    let i = choose|i: int| 0 <= i < ints.len() && ints[i] == v;
                    assert(0 <= nums[i] <= n);
                    if v == w {
                        assert(nums.contains(w as i32));
                    }
                    if v == j {
                        assert(nums.contains(j as i32));
                    }
                }
            }
            lemma_len_subset(present, smaller);
            assert(false);
        }
    }
    assert(forall|j: int| 0 <= j < w ==> !#[trigger] lacks(nums, j));
}

/// The characters of `s`, one by one.
pub fn chars_of(s: &str) -> (chars: Vec<char>)
    ensures
        chars@ == s@,
{
    let n = s.unicode_len();
    let mut chars: Vec<char> = Vec::new();
    let mut i: usize = 0;
    while i < n
        invariant
            n == s@.len(),
            0 <= i <= n,
            chars@ == s@.take(i as int),
        decreases n - i,
    {
        chars.push(s.get_char(i));
        assert(chars@ =~= s@.take(i + 1));
        i = i + 1;
    }
    assert(s@.take(n as int) =~= s@);
    chars
}

/// How many times `c` occurs in `s`.
pub open spec fn occurrences(s: Seq<char>, c: char) -> nat
    decreases s.len(),
{
    if s.len() == 0 {
        0
    } else {
        occurrences(s.drop_last(), c) + if s.last() == c {
            1nat
        } else {
            0nat
        }
    }
}

/// How many positions of `s` hold `c`.
pub open spec fn positions_holding(s: Seq<char>, c: char) -> nat {
    s.filter(|x: char| x == c).len()
}

/// The count of `c` is the number of positions that hold it, one more for
/// each `c` appended and none for any other character, whatever stands
/// before.
pub proof fn lemma_occurrences_counts_positions(s: Seq<char>, c: char)
    ensures
        occurrences(s, c) == positions_holding(s, c),
        forall|x: char|
            #[trigger] occurrences(s.push(x), c) == occurrences(s, c) + if x == c {
                1nat
            } else {
                0nat
            },
    decreases s.len(),
{
    reveal(Seq::filter);
    if s.len() > 0 {
        lemma_occurrences_counts_positions(s.drop_last(), c);
    }
    assert forall|x: char|
        #[trigger] occurrences(s.push(x), c) == occurrences(s, c) + if x == c {
            1nat
        } else {
            0nat
        } by {
        assert(s.push(x).drop_last() =~= s);
    }
}

/// Whether `c` is one of '0'..='9'.
pub open spec fn is_decimal_digit(c: char) -> bool {
    '0' <= c <= '9'
}

/// The value of a decimal digit character.
pub open spec fn digit_value(c: char) -> int {
    c as int - '0' as int
}

/// Whether the character at position `i` of `s` occurs nowhere else.
pub open spec fn unique_at(s: Seq<char>, i: int) -> bool {
    occurrences(s, s[i]) == 1
}

/// The number of times `c` occurs in `chars`.
fn count_in(chars: &Vec<char>, c: char) -> (n: usize)
    ensures
        n == occurrences(chars@, c),
        n == positions_holding(chars@, c),
{
    proof {
        lemma_occurrences_counts_positions(chars@, c);
    }
    let mut n: usize = 0;
    let mut j: usize = 0;
    while j < chars.len()
        invariant
            0 <= j <= chars@.len(),
            n == occurrences(chars@.take(j as int), c),
            n <= j,
        decreases chars@.len() - j,
    {
        assert(chars@.take(j + 1).drop_last() =~= chars@.take(j as int));
        if chars[j] == c {
            n = n + 1;
        }
        j = j + 1;
    }
    assert(chars@.take(chars@.len() as int) =~= chars@);
    n
}

/// The digit that occurs exactly once in `s`. When several characters occur
/// once, all of them must be digits and any one of them may come back.
pub fn uniq_digit(s: &str) -> (d: u8)
    requires
        exists|i: int| 0 <= i < s@.len() && #[trigger] unique_at(s@, i),
        forall|i: int| 0 <= i < s@.len() && #[trigger] unique_at(s@, i) ==> is_decimal_digit(s@[i]),
    ensures
        exists|i: int| 0 <= i < s@.len() && #[trigger] unique_at(s@, i) && d == digit_value(s@[i]),
        exists|i: int|
            0 <= i < s@.len() && #[trigger] positions_holding(s@, s@[i]) == 1 && d == digit_value(
                s@[i],
            ),
{
    let chars = chars_of(s);
    let mut i: usize = 0;
    while i < chars.len()
        invariant
            chars@ == s@,
            0 <= i <= chars@.len(),
            forall|j: int| 0 <= j < i ==> !#[trigger] unique_at(s@, j),
            exists|j: int| 0 <= j < s@.len() && #[trigger] unique_at(s@, j),
            forall|j: int|
                0 <= j < s@.len() && #[trigger] unique_at(s@, j) ==> is_decimal_digit(s@[j]),
        decreases chars@.len() - i,
    {
        let c = chars[i];
        if count_in(&chars, c) == 1 {
            assert(unique_at(s@, i as int));
            assert(positions_holding(s@, s@[i as int]) == 1);
            let v = c as u32 - '0' as u32;
            return v as u8;
        }
        i = i + 1;
    }
    let ghost w = choose|w: int| 0 <= w < s@.len() && #[trigger] unique_at(s@, w);
    assert(!unique_at(s@, w));
    0
}

/// Whether `c` is one of the six bracket characters.
pub open spec fn is_bracket(c: char) -> bool {
    c == '{' || c == '[' || c == '(' || c == ')' || c == '}' || c == ']'
}

/// Whether `c` opens a bracket pair.
pub open spec fn is_opener(c: char) -> bool {
    c == '{' || c == '[' || c == '('
}

/// The bracket that closes the opener `c`.
pub open spec fn closer_of(c: char) -> char {
    if c == '{' {
        '}'
    } else if c == '[' {
        ']'
    } else {
        ')'
    }
}

/// The closers still owed after reading `s` left to right, innermost last,
/// or `None` once a closer does not match the innermost open bracket.
pub open spec fn owed_closers(s: Seq<char>) -> Option<Seq<char>>
    decreases s.len(),
{
    if s.len() == 0 {
        Some(Seq::empty())
    } else {
        match owed_closers(s.drop_last()) {
            None => None,
            Some(owed) => {
                let c = s.last();
                if is_opener(c) {
                    Some(owed.push(closer_of(c)))
                } else if owed.len() == 0 || owed.last() != c {
                    None
                } else {
                    Some(owed.drop_last())
                }
            },
        }
    }
}

/// Whether `s` is a non-empty string of brackets only.
pub fn valid_paren_str(s: &str) -> (ok: bool)
    ensures
        ok == (s@.len() > 0 && forall|i: int| 0 <= i < s@.len() ==> is_bracket(#[trigger] s@[i])),
{
    let chars = chars_of(s);
    if chars.len() == 0 {
        return false;
    }
    let mut i: usize = 0;
    while i < chars.len()
        invariant
            chars@ == s@,
            0 <= i <= chars@.len(),
            forall|j: int| 0 <= j < i ==> is_bracket(#[trigger] s@[j]),
        decreases chars@.len() - i,
    {
        let c = chars[i];
        match c {
            '{' => {},
            '[' => {},
            '(' => {},
            ')' => {},
            '}' => {},
            ']' => {},
            _ => {
                assert(!is_bracket(s@[i as int]));
                return false;
            },
        }
        i = i + 1;
    }
    true
}

/// Whether `s` is a non-empty string of brackets only in which every
/// bracket is closed, in the right order, by one of its own kind.
pub fn validate_paren(s: &str) -> (ok: bool)
    ensures
        ok == (s@.len() > 0 && (forall|i: int| 0 <= i < s@.len() ==> is_bracket(#[trigger] s@[i]))
            && owed_closers(s@) == Some(Seq::<char>::empty())),
        ok == (s@.len() > 0 && balanced(s@)),
{
    proof {
        lemma_validate_paren_grammar(s@);
    }
    if !valid_paren_str(s) {
        return false;
    }
    let chars = chars_of(s);
    let mut stack: Vec<char> = Vec::new();
    let mut i: usize = 0;
    while i < chars.len()
        invariant
            chars@ == s@,
            0 <= i <= chars@.len(),
            forall|j: int| 0 <= j < s@.len() ==> is_bracket(#[trigger] s@[j]),
            owed_closers(s@.take(i as int)) == Some(stack@),
            balanced(s@) == (owed_closers(s@) == Some(Seq::<char>::empty())),
        decreases chars@.len() - i,
    {
        let c = chars[i];
        assert(s@.take(i + 1).drop_last() =~= s@.take(i as int));
        assert(s@.take(i + 1).last() == c);
        match c {
            '{' => stack.push('}'),
            '[' => stack.push(']'),
            '(' => stack.push(')'),
            _ => {
                if stack.len() == 0 {
                    proof {
                        lemma_failure_persists(s@, i as int + 1);
                    }
                    return false;
                }
                if stack[stack.len() - 1] != c {
                    proof {
                        lemma_failure_persists(s@, i as int + 1);
                    }
                    return false;
                }
                stack.pop();
            },
        }
        i = i + 1;
    }
    assert(s@.take(s@.len() as int) =~= s@);
    assert(stack@.len() == 0 ==> stack@ =~= Seq::<char>::empty());
    stack.len() == 0
}

/// Once a prefix has failed, every longer prefix fails too.
pub proof fn lemma_failure_persists(s: Seq<char>, k: int)
    requires
        0 <= k <= s.len(),
        owed_closers(s.take(k)) is None,
    ensures
        owed_closers(s) is None,
    decreases s.len() - k,
{
    if k == s.len() {
        assert(s.take(k) =~= s);
    } else {
        assert(s.take(k + 1).drop_last() =~= s.take(k));
        lemma_failure_persists(s, k + 1);
    }
}

/// The strings of the bracket grammar `B ::= ε | o B c B`, where `o` is an
/// opening bracket and `c` the bracket that closes it: every opener is
/// closed by one of its kind, in the right order, and every closer has its
/// opener.
pub open spec fn balanced(s: Seq<char>) -> bool
    decreases s.len(), 1int, 0int,
{
    if s.len() == 0 {
        true
    } else {
        is_opener(s[0]) && splits_by_then(s, s.len() - 1)
    }
}

/// Whether `s` is `o B c B` with the closer `c` of its first bracket at some
/// position from 1 to `last`.
pub open spec fn splits_by_then(s: Seq<char>, last: int) -> bool
    decreases s.len(), 0int, last,
{
    if last < 1 || last >= s.len() {
        false
    } else {
        splits_at(s, last) || splits_by_then(s, last - 1)
    }
}

/// Whether `s` is `o B c B` with the closer `c` of its first bracket at `k`.
pub open spec fn splits_at(s: Seq<char>, k: int) -> bool
    decreases s.len(), 0int, 0int,
{
    &&& 1 <= k < s.len()
    &&& s[k] == closer_of(s[0])
    &&& balanced(s.subrange(1, k))
    &&& balanced(s.subrange(k + 1, s.len() as int))
}

proof fn lemma_split_point(s: Seq<char>, last: int) -> (k: int)
    requires
        splits_by_then(s, last),
    ensures
        1 <= k <= last,
        splits_at(s, k),
    decreases last,
{
    if splits_at(s, last) {
        last
    } else {
        lemma_split_point(s, last - 1)
    }
}

proof fn lemma_split_intro(s: Seq<char>, k: int, last: int)
    requires
        splits_at(s, k),
        k <= last < s.len(),
    ensures
        splits_by_then(s, last),
    decreases last,
{
    if last > k {
        lemma_split_intro(s, k, last - 1);
    }
}

/// One step of reading: an opener owes its closer; anything else must be the
/// innermost closer owed.
pub open spec fn read_bracket(owed: Seq<char>, c: char) -> Option<Seq<char>> {
    if is_opener(c) {
        Some(owed.push(closer_of(c)))
    } else if owed.len() == 0 || owed.last() != c {
        None
    } else {
        Some(owed.drop_last())
    }
}

/// The closers owed after reading `s`, starting with `owed` owed.
pub open spec fn owed_after(owed: Seq<char>, s: Seq<char>) -> Option<Seq<char>>
    decreases s.len(),
{
    if s.len() == 0 {
        Some(owed)
    } else {
        match owed_after(owed, s.drop_last()) {
            None => None,
            Some(o) => read_bracket(o, s.last()),
        }
    }
}

proof fn lemma_owed_closers_from_nothing(s: Seq<char>)
    ensures
        owed_closers(s) == owed_after(Seq::empty(), s),
    decreases s.len(),
{
    if s.len() > 0 {
        lemma_owed_closers_from_nothing(s.drop_last());
    }
}

/// Reading `a + b` is reading `a`, then `b` from where `a` left off.
proof fn lemma_owed_after_concat(w: Seq<char>, a: Seq<char>, b: Seq<char>)
    ensures
        owed_after(w, a + b) == match owed_after(w, a) {
            None => None,
            Some(v) => owed_after(v, b),
        },
    decreases b.len(),
{
    if b.len() == 0 {
        assert(a + b =~= a);
    } else {
        assert((a + b).drop_last() =~= a + b.drop_last());
        assert((a + b).last() == b.last());
        lemma_owed_after_concat(w, a, b.drop_last());
    }
}

/// Reading `t` on top of `w` either never reaches `w`, or first comes back
/// to what it found at some `k`, where it takes the innermost closer of `w`.
proof fn lemma_owed_after_split(w: Seq<char>, t: Seq<char>)
    requires
        owed_after(w, t) is Some,
    ensures
        (owed_after(Seq::empty(), t) is Some && owed_after(w, t)->0 == w + owed_after(
            Seq::empty(),
            t,
        )->0) || (exists|k: int|
            0 <= k < t.len() && w.len() > 0 && #[trigger] owed_after(Seq::empty(), t.take(k))
                == Some(Seq::<char>::empty()) && t[k] == w.last() && owed_after(
                w.drop_last(),
                t.skip(k + 1),
            ) == owed_after(w, t)),
    decreases t.len(),
{
    if t.len() == 0 {
        assert(w + Seq::<char>::empty() =~= w);
    } else {
        let t0 = t.drop_last();
        let x = t.last();
        lemma_owed_after_split(w, t0);
        let v0 = owed_after(w, t0)->0;
        if owed_after(Seq::empty(), t0) is Some && v0 == w + owed_after(Seq::empty(), t0)->0 {
            let y = owed_after(Seq::empty(), t0)->0;
            if is_opener(x) {
                assert(w + y.push(closer_of(x)) =~= (w + y).push(closer_of(x)));
            } else if y.len() > 0 {
                assert((w + y).last() == y.last());
                assert(w + y.drop_last() =~= (w + y).drop_last());
            } else {
                assert(w + y =~= w);
                let k = t0.len() as int;
                assert(t.take(k) =~= t0);
                assert(t.skip(k + 1) =~= Seq::<char>::empty());
                assert(y =~= Seq::<char>::empty());
            }
        } else {
            let k = choose|k: int|
                0 <= k < t0.len() && w.len() > 0 && #[trigger] owed_after(Seq::empty(), t0.take(k))
                    == Some(Seq::<char>::empty()) && t0[k] == w.last() && owed_after(
                    w.drop_last(),
                    t0.skip(k + 1),
                ) == owed_after(w, t0);
            assert(t.take(k) =~= t0.take(k));
            assert(t.skip(k + 1).drop_last() =~= t0.skip(k + 1));
            assert(t.skip(k + 1).last() == x);
        }
    }
}

/// A balanced string read on top of `w` leaves `w` owed.
proof fn lemma_balanced_leaves_owed(w: Seq<char>, s: Seq<char>)
    requires
        balanced(s),
    ensures
        owed_after(w, s) == Some(w),
    decreases s.len(),
{
    if s.len() > 0 {
        let k = lemma_split_point(s, s.len() - 1);
        let o = s[0];
        let c = closer_of(o);
        let inner = s.subrange(1, k);
        let rest = s.subrange(k + 1, s.len() as int);
        lemma_balanced_leaves_owed(w.push(c), inner);
        lemma_balanced_leaves_owed(w, rest);
        assert(s =~= seq![o] + inner + seq![c] + rest);
        lemma_owed_after_concat(w, seq![o] + inner + seq![c], rest);
        lemma_owed_after_concat(w, seq![o] + inner, seq![c]);
        lemma_owed_after_concat(w, seq![o], inner);
        assert(seq![o].drop_last() =~= Seq::<char>::empty());
        assert(seq![c].drop_last() =~= Seq::<char>::empty());
        assert(w.push(c).drop_last() =~= w);
        assert(owed_after(w, Seq::<char>::empty()) == Some(w));
        assert(owed_after(w, seq![o]) == Some(w.push(c)));
        assert(owed_after(w, seq![o] + inner) == Some(w.push(c)));
        assert(owed_after(w.push(c), Seq::<char>::empty()) == Some(w.push(c)));
        assert(owed_after(w.push(c), seq![c]) == Some(w));
        assert(owed_after(w, seq![o] + inner + seq![c]) == Some(w));
    }
}

/// A string read from nothing that leaves nothing owed is balanced.
proof fn lemma_nothing_owed_is_balanced(s: Seq<char>)
    requires
        owed_after(Seq::empty(), s) == Some(Seq::<char>::empty()),
    ensures
        balanced(s),
    decreases s.len(),
{
    if s.len() > 0 {
        let o = s[0];
        let t = s.drop_first();
        assert(s =~= seq![o] + t);
        lemma_owed_after_concat(Seq::empty(), seq![o], t);
        assert(seq![o].drop_last() =~= Seq::<char>::empty());
        assert(owed_after(Seq::empty(), Seq::<char>::empty()) == Some(Seq::<char>::empty()));
        assert(owed_after(Seq::empty(), seq![o]) == read_bracket(Seq::empty(), o));
        if !is_opener(o) {
            assert(owed_after(Seq::empty(), seq![o]) is None);
            assert(false);
        }
        let c = closer_of(o);
        assert(Seq::<char>::empty().push(c) =~= seq![c]);
        assert(owed_after(Seq::empty(), seq![o]) == Some(seq![c]));
        assert(owed_after(seq![c], t) == Some(Seq::<char>::empty()));
        lemma_owed_after_split(seq![c], t);
        if owed_after(Seq::empty(), t) is Some && owed_after(seq![c], t)->0 == seq![c] + owed_after(
            Seq::empty(),
            t,
        )->0 {
            assert((seq![c] + owed_after(Seq::empty(), t)->0).len() > 0);
            assert(false);
        }
        let k = choose|k: int|
            0 <= k < t.len() && seq![c].len() > 0 && #[trigger] owed_after(Seq::empty(), t.take(k))
                == Some(Seq::<char>::empty()) && t[k] == seq![c].last() && owed_after(
                seq![c].drop_last(),
                t.skip(k + 1),
            ) == owed_after(seq![c], t);
        assert(seq![c].drop_last() =~= Seq::<char>::empty());
        lemma_nothing_owed_is_balanced(t.take(k));
        lemma_nothing_owed_is_balanced(t.skip(k + 1));
        assert(s.subrange(1, k + 1) =~= t.take(k));
        assert(s.subrange(k + 2, s.len() as int) =~= t.skip(k + 1));
        assert(s[k + 1] == c);
        assert(splits_at(s, k + 1));
        lemma_split_intro(s, k + 1, s.len() - 1);
    }
}

/// Every character of a balanced string is a bracket.
proof fn lemma_balanced_brackets(s: Seq<char>)
    requires
        balanced(s),
    ensures
        forall|i: int| 0 <= i < s.len() ==> is_bracket(#[trigger] s[i]),
    decreases s.len(),
{
    if s.len() > 0 {
        let k = lemma_split_point(s, s.len() - 1);
        let inner = s.subrange(1, k);
        let rest = s.subrange(k + 1, s.len() as int);
        lemma_balanced_brackets(inner);
        lemma_balanced_brackets(rest);
        assert forall|i: int| 0 <= i < s.len() implies is_bracket(#[trigger] s[i]) by {
            if 1 <= i < k {
                assert(s[i] == inner[i - 1]);
            } else if k < i {
                assert(s[i] == rest[i - k - 1]);
            }
        }
    }
}

/// `validate_paren` accepts exactly the strings of the bracket grammar.
pub proof fn lemma_validate_paren_grammar(s: Seq<char>)
    ensures
        ((forall|i: int| 0 <= i < s.len() ==> is_bracket(#[trigger] s[i])) && owed_closers(s)
            == Some(Seq::<char>::empty())) == balanced(s),
{
    lemma_owed_closers_from_nothing(s);
    if balanced(s) {
        lemma_balanced_leaves_owed(Seq::empty(), s);
        lemma_balanced_brackets(s);
    }
    if owed_closers(s) == Some(Seq::<char>::empty()) {
        lemma_nothing_owed_is_balanced(s);
    }
}

} // verus!
