//! Strings as sequences of characters.
use vstd::prelude::*;

verus! {

/// The characters of `text`.
pub fn chars_of(text: &str) -> (chars: Vec<char>)
    ensures
        chars@ == text@,
{
    let mut chars: Vec<char> = Vec::new();
    for c in it: text.chars()
        invariant
            chars@ == it.seq().take(it.index()),
            it.seq() == text@,
    {
        chars.push(c);
    }
    chars
}

/// `==` of `str`: the two strings have the same characters.
#[verifier::external_body]
pub(crate) fn same_text(a: &str, b: &str) -> (same: bool)
    ensures
        same == (a@ == b@),
{
    a == b
}

/// `String::push`: the character is then the last one.
pub assume_specification[ std::string::String::push ](text: &mut String, c: char)
    ensures
        final(text)@ == old(text)@.push(c),
;

/// The characters of each string.
pub open spec fn texts(list: Seq<String>) -> Seq<Seq<char>> {
    list.map_values(|text: String| text@)
}

/// The characters of each string slice.
pub open spec fn str_texts(list: Seq<&str>) -> Seq<Seq<char>> {
    list.map_values(|text: &str| text@)
}

/// Whether `name` is among `list`.
pub fn contains_text(list: &Vec<String>, name: &str) -> (found: bool)
    ensures
        found == texts(list@).contains(name@),
{
    let mut i: usize = 0;
    while i < list.len()
        invariant
            i <= list.len(),
            forall|j: int| 0 <= j < i ==> #[trigger] texts(list@)[j] != name@,
        decreases list.len() - i,
    {
        assert(texts(list@)[i as int] == list@[i as int]@);
        if same_text(list[i].as_str(), name) {
            return true;
        }
        i += 1;
    }
    false
}

/// Whether `name` is among `list`.
pub fn contains_str(list: &[&str], name: &str) -> (found: bool)
    ensures
        found == str_texts(list@).contains(name@),
{
    let mut i: usize = 0;
    while i < list.len()
        invariant
            i <= list.len(),
            forall|j: int| 0 <= j < i ==> #[trigger] str_texts(list@)[j] != name@,
        decreases list.len() - i,
    {
        assert(str_texts(list@)[i as int] == list@[i as int]@);
        if same_text(list[i], name) {
            return true;
        }
        i += 1;
    }
    false
}

/// The strings of `list`, borrowed.
pub fn borrow_all(list: &Vec<String>) -> (borrowed: Vec<&str>)
    ensures
        str_texts(borrowed@) == texts(list@),
{
    let mut borrowed: Vec<&str> = Vec::new();
    let mut i: usize = 0;
    while i < list.len()
        invariant
            i <= list.len(),
            borrowed.len() == i,
            forall|j: int| 0 <= j < i ==> (#[trigger] borrowed@[j])@ == list@[j]@,
        decreases list.len() - i,
    {
        borrowed.push(list[i].as_str());
        i += 1;
    }
    proof {
        assert(str_texts(borrowed@) =~= texts(list@));
    }
    borrowed
}

} // verus!
