//! The text logic of two code generators: picking the function names of
//! even length out of a list of (possibly quoted) names, and writing the
//! source of a dummy function whose name grows with a number.
use vstd::prelude::*;
use vstd::string::*;
use vstd::utf8::encode_utf8;
use crate::text::{decimal, push_char, push_decimal, strip_char, without_char};

verus! {

/// Whether the UTF-8 encoding of `s` has an even number of bytes.
pub open spec fn even_byte_length(s: Seq<char>) -> bool {
    encode_utf8(s).len() % 2 == 0
}

/// The names, unquoted, whose unquoted UTF-8 length is even, in order.
pub open spec fn even_names(names: Seq<Seq<char>>) -> Seq<Seq<char>>
    decreases names.len(),
{
    if names.len() == 0 {
        Seq::empty()
    } else {
        let name = without_char(names.last(), '"');
        if even_byte_length(name) {
            even_names(names.drop_last()).push(name)
        } else {
            even_names(names.drop_last())
        }
    }
}

/// The names (quotes removed) whose length in UTF-8 bytes is even, in
/// their order: the functions that the generated code calls.
pub fn even_len_name_func_invoke(names: &Vec<String>) -> (picked: Vec<String>)
    ensures
        picked@.map_values(|p: String| p@) == even_names(names@.map_values(|n: String| n@)),
{
    let ghost views = names@.map_values(|n: String| n@);
    let mut picked: Vec<String> = Vec::new();
    let mut i: usize = 0;
    while i < names.len()
        invariant
            0 <= i <= names@.len(),
            views == names@.map_values(|n: String| n@),
            picked@.map_values(|p: String| p@) == even_names(views.take(i as int)),
        decreases names@.len() - i,
    {
        assert(views.take(i + 1).drop_last() =~= views.take(i as int));
        assert(views.take(i + 1).last() == names@[i as int]@);
        let name = strip_char(names[i].as_str(), '"');
        let ghost before = picked@;
        let byte_len = name.as_str().as_bytes().len();
        if byte_len % 2 == 0 {
            picked.push(name);
            assert(picked@.map_values(|p: String| p@) =~= before.map_values(|p: String| p@).push(
                name@,
            ));
        }
        i = i + 1;
    }
    assert(views.take(names@.len() as int) =~= views);
    picked
}

/// `fn f<o repeated length times>() -> u32 { <length + 1> }`.
pub open spec fn dummy_function_source(length: nat) -> Seq<char> {
    "fn f"@ + Seq::new(length, |i: int| 'o') + "() -> u32 { "@ + decimal(length + 1) + " }"@
}

/// The source of a function named `f` followed by `length` letters `o`
/// that returns `length + 1`.
pub fn gen_dummy_function(length: usize) -> (source: String)
    requires
        length < usize::MAX,
    ensures
        source@ == dummy_function_source(length as nat),
{
    let mut source = String::from_str("fn f");
    let ghost head = source@;
    let mut i: usize = 0;
    while i < length
        invariant
            0 <= i <= length,
            source@ == head + Seq::new(i as nat, |k: int| 'o'),
        decreases length - i,
    {
        push_char(&mut source, 'o');
        assert(source@ =~= head + Seq::new((i + 1) as nat, |k: int| 'o'));
        i = i + 1;
    }
    source.append("() -> u32 { ");
    push_decimal(&mut source, (length + 1) as u64);
    source.append(" }");
    source
}

} // verus!
