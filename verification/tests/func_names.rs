use homeworks::func_names::{even_len_name_func_invoke, gen_dummy_function};

fn names(items: &[&str]) -> Vec<String> {
    items.iter().map(|s| s.to_string()).collect()
}

#[test]
fn test_2() {
    let picked = even_len_name_func_invoke(&names(&["\"fo\"", "\"foo\"", "\"fooo\""]));
    assert_eq!(picked, names(&["fo", "fooo"]));
}

#[test]
fn punctuation_and_odd_names_are_dropped() {
    let picked = even_len_name_func_invoke(&names(&["f", ",", "ab", "\"\"", "abc", "\u{e9}"]));
    assert_eq!(picked, names(&["ab", "", "\u{e9}"]));
}

#[test]
fn dummy_function_names_grow_with_length() {
    assert_eq!(gen_dummy_function(0), "fn f() -> u32 { 1 }");
    assert_eq!(gen_dummy_function(3), "fn fooo() -> u32 { 4 }");
    assert_eq!(gen_dummy_function(9), "fn fooooooooo() -> u32 { 10 }");
}
