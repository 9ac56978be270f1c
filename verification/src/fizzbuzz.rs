//! The words of the FizzBuzz game.
use vstd::prelude::*;
use vstd::string::*;
use crate::text::{decimal, push_decimal};

verus! {

/// What is said for `i`: `FizzBuzz` for a multiple of 3 and 5, `Fizz` for
/// one of 3, `Buzz` for one of 5, and the number itself otherwise.
pub open spec fn fizz_buzz_text(i: nat) -> Seq<char> {
    if i % 3 == 0 && i % 5 == 0 {
        "FizzBuzz"@
    } else if i % 3 == 0 {
        "Fizz"@
    } else if i % 5 == 0 {
        "Buzz"@
    } else {
        decimal(i)
    }
}

/// What is said for each number: a multiple of both 3 and 5 says
/// `FizzBuzz`, any other multiple of 3 says `Fizz`, any other multiple of 5
/// says `Buzz`, and every other number says itself in decimal.
pub proof fn lemma_fizz_buzz_words(i: nat)
    ensures
        i % 3 == 0 && i % 5 == 0 ==> fizz_buzz_text(i) == "FizzBuzz"@,
        i % 3 == 0 && i % 5 != 0 ==> fizz_buzz_text(i) == "Fizz"@,
        i % 3 != 0 && i % 5 == 0 ==> fizz_buzz_text(i) == "Buzz"@,
        i % 3 != 0 && i % 5 != 0 ==> fizz_buzz_text(i) == decimal(i),
{
}

/// The word said for `i`.
pub fn fizz_buzz(i: u64) -> (word: String)
    ensures
        word@ == fizz_buzz_text(i as nat),
        i % 3 == 0 && i % 5 == 0 ==> word@ == "FizzBuzz"@,
        i % 3 == 0 && i % 5 != 0 ==> word@ == "Fizz"@,
        i % 3 != 0 && i % 5 == 0 ==> word@ == "Buzz"@,
        i % 3 != 0 && i % 5 != 0 ==> word@ == decimal(i as nat),
{
    proof {
        lemma_fizz_buzz_words(i as nat);
    }
    if i % 3 == 0 && i % 5 == 0 {
        String::from_str("FizzBuzz")
    } else if i % 3 == 0 {
        String::from_str("Fizz")
    } else if i % 5 == 0 {
        String::from_str("Buzz")
    } else {
        let mut word = String::new();
        push_decimal(&mut word, i);
        assert(word@ =~= decimal(i as nat));
        word
    }
}

/// The words said for `0`, `1`, ..., `count - 1`.
pub fn fizz_buzz_words(count: u64) -> (words: Vec<String>)
    ensures
        words@.len() == count,
        forall|i: int| 0 <= i < count ==> #[trigger] words@[i]@ == fizz_buzz_text(i as nat),
        forall|i: int| 0 <= i < count && i % 3 == 0 && i % 5 != 0 ==> #[trigger] words@[i]@ == "Fizz"@,
        forall|i: int| 0 <= i < count && i % 3 != 0 && i % 5 == 0 ==> #[trigger] words@[i]@ == "Buzz"@,
        forall|i: int|
            0 <= i < count && i % 3 == 0 && i % 5 == 0 ==> #[trigger] words@[i]@ == "FizzBuzz"@,
        forall|i: int|
            0 <= i < count && i % 3 != 0 && i % 5 != 0 ==> #[trigger] words@[i]@ == decimal(
                i as nat,
            ),
{
    let mut words: Vec<String> = Vec::new();
    let mut i: u64 = 0;
    while i < count
        invariant
            i <= count,
            words@.len() == i,
            forall|j: int| 0 <= j < i ==> #[trigger] words@[j]@ == fizz_buzz_text(j as nat),
        decreases count - i,
    {
        words.push(fizz_buzz(i));
        i = i + 1;
    }
    words
}

} // verus!
