use homeworks::fizzbuzz::{fizz_buzz, fizz_buzz_words};

#[test]
fn words_for_multiples_and_others() {
    assert_eq!(fizz_buzz(0), "FizzBuzz");
    assert_eq!(fizz_buzz(3), "Fizz");
    assert_eq!(fizz_buzz(10), "Buzz");
    assert_eq!(fizz_buzz(15), "FizzBuzz");
    assert_eq!(fizz_buzz(98), "98");
    assert_eq!(fizz_buzz(u64::MAX), "FizzBuzz");
    assert_eq!(fizz_buzz(u64::MAX - 1), "18446744073709551614");
}

#[test]
fn first_words_of_the_game() {
    let words = fizz_buzz_words(6);
    assert_eq!(words, vec!["FizzBuzz", "1", "2", "Fizz", "4", "Buzz"]);
    assert_eq!(fizz_buzz_words(100).len(), 100);
    assert!(fizz_buzz_words(0).is_empty());
}
