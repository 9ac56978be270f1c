use homeworks::puzzles::{digit_product, missing_num, uniq_digit, valid_paren_str, validate_paren};

#[test]
fn digit_product_it_works() {
    assert_eq!(digit_product(0), 0);
    assert_eq!(digit_product(9), 9);
    assert_eq!(digit_product(10), 1);
    assert_eq!(digit_product(987), 2);
    assert_eq!(digit_product(123456), 4);
    assert_eq!(digit_product(123454321), 6);
}

#[test]
fn digit_product_of_the_largest_input() {
    assert_eq!(digit_product(u32::MAX), 1);
}

#[test]
fn missing_num_it_works() {
    assert_eq!(missing_num(&[1, 2]), 0);
    assert_eq!(missing_num(&[1, 0, 4, 2]), 3);
    assert_eq!(missing_num(&[0, 4, 2, 5, 3, 6]), 1);
}

#[test]
fn missing_num_finds_the_top_number() {
    assert_eq!(missing_num(&[0, 1]), 2);
    assert_eq!(missing_num(&[]), 0);
}

#[test]
fn uniq_digit_it_works() {
    assert_eq!(uniq_digit("3"), 3);
    assert_eq!(uniq_digit("010"), 1);
    assert_eq!(uniq_digit("47343077"), 0);
    assert_eq!(uniq_digit("123454321"), 5);
    assert_eq!(uniq_digit("0987654321234567890"), 1);
    assert_eq!(uniq_digit("4444444444424444444444444"), 2);
}

#[test]
fn validate_paren_it_works() {
    assert_eq!(validate_paren("()"), true);
    assert_eq!(validate_paren("()[]{}"), true);
    assert_eq!(validate_paren("({[]()})"), true);
    assert_eq!(validate_paren("(}"), false);
    assert_eq!(validate_paren("()]"), false);
    assert_eq!(validate_paren("(){"), false);
}

#[test]
fn validate_paren_refuses_other_characters() {
    assert_eq!(validate_paren("(a)"), false);
    assert_eq!(validate_paren(""), false);
    assert_eq!(validate_paren(")("), false);
}

#[test]
fn valid_paren_str_checks_the_alphabet_only() {
    assert_eq!(valid_paren_str("()"), true);
    assert_eq!(valid_paren_str("(}"), true);
    assert_eq!(valid_paren_str("(){"), true);
    assert_eq!(valid_paren_str("(q){"), false);
    assert_eq!(valid_paren_str("222"), false);
    assert_eq!(valid_paren_str(""), false);
}

#[test]
fn validate_paren_follows_the_bracket_grammar() {
    assert_eq!(validate_paren("([)]"), false);
    assert_eq!(validate_paren("{[()()]}[]"), true);
    assert_eq!(validate_paren("((("), false);
    assert_eq!(validate_paren("[]}"), false);
}
