//! JSON documents: `serde_json` values, seen through what their objects and arrays hold.
use serde_json::Value;
use std::path::PathBuf;
use vstd::prelude::*;

verus! {

/// The object at the root of a JSON document.
pub type JsonMap = serde_json::Map<String, Value>;

/// `serde_json::Map`, opaque.
#[verifier::external_type_specification]
#[verifier::external_body]
#[verifier::reject_recursive_types(K)]
#[verifier::reject_recursive_types(V)]
pub struct ExJsonMap<K, V>(serde_json::Map<K, V>);

/// `serde_json::Value`, opaque.
#[verifier::external_type_specification]
#[verifier::external_body]
pub struct ExJsonValue(Value);

/// `serde_json::Error`, opaque.
#[verifier::external_type_specification]
#[verifier::external_body]
pub struct ExJsonError(serde_json::Error);

/// The members of an object, by name.
pub uninterp spec fn object_members(object: JsonMap) -> Map<Seq<char>, Value>;

/// The elements of an array; `None` of any other value.
pub uninterp spec fn array_elements(value: Value) -> Option<Seq<Value>>;

/// The object that a value is; `None` of any other value.
pub uninterp spec fn value_object(value: Value) -> Option<JsonMap>;

/// The members of an object that has none.
pub open spec fn no_members() -> Map<Seq<char>, Value> {
    Map::empty()
}

/// The member of `object` under `key`, if there is one.
pub open spec fn member(object: JsonMap, key: Seq<char>) -> Option<Value> {
    if object_members(object).contains_key(key) {
        Some(object_members(object)[key])
    } else {
        None
    }
}

/// `Map::new`: an object without members.
#[verifier::external_body]
pub(crate) fn new_object() -> (object: JsonMap)
    ensures
        object_members(object) == no_members(),
{
    JsonMap::new()
}

/// `Map::get`: the member under `key`.
#[verifier::external_body]
pub(crate) fn get_member<'a>(object: &'a JsonMap, key: &str) -> (value: Option<&'a Value>)
    ensures
        (match value {
            Some(found) => member(*object, key@) == Some(*found),
            None => member(*object, key@) is None,
        }),
{
    object.get(key)
}

/// `Map::get_mut`: the member under `key`, to be changed in place.
#[verifier::external_body]
pub(crate) fn get_member_mut<'a>(object: &'a mut JsonMap, key: &str) -> (value: Option<
    &'a mut Value,
>)
    ensures
        (match value {
            Some(found) => member(*old(object), key@) == Some(*found) && object_members(
                *final(object),
            ) == object_members(*old(object)).insert(key@, *final(found)),
            None => member(*old(object), key@) is None && object_members(*final(object))
                == object_members(*old(object)),
        }),
{
    object.get_mut(key)
}

/// `Map::insert`: sets the member under `key`.
#[verifier::external_body]
pub(crate) fn insert_member(object: &mut JsonMap, key: String, value: Value)
    ensures
        object_members(*final(object)) == object_members(*old(object)).insert(key@, value),
{
    object.insert(key, value);
}

/// `Map::remove`: takes the member under `key` out.
#[verifier::external_body]
pub(crate) fn remove_member(object: &mut JsonMap, key: &str)
    ensures
        object_members(*final(object)) == object_members(*old(object)).remove(key@),
{
    object.remove(key);
}

/// `Value::Array`: the array of `elements`.
#[verifier::external_body]
pub(crate) fn array_value(elements: Vec<Value>) -> (value: Value)
    ensures
        array_elements(value) == Some(elements@),
        value_object(value) is None,
{
    Value::Array(elements)
}

/// `Value::Object`: the object as a value.
#[verifier::external_body]
pub(crate) fn object_value(object: JsonMap) -> (value: Value)
    ensures
        value_object(value) == Some(object),
        array_elements(value) is None,
{
    Value::Object(object)
}

/// `Value::clone`: the same value again.
#[verifier::external_body]
pub(crate) fn clone_value(value: &Value) -> (copy: Value)
    ensures
        copy == *value,
{
    value.clone()
}

/// `Value::is_object`: whether a value is an object.
#[verifier::external_body]
pub(crate) fn is_object(value: &Value) -> (object: bool)
    ensures
        object == (value_object(*value) is Some),
{
    value.is_object()
}

/// `Value::as_array`: the elements of an array.
#[verifier::external_body]
pub(crate) fn elements(value: &Value) -> (elements: Option<&Vec<Value>>)
    ensures
        (match elements {
            Some(list) => array_elements(*value) == Some(list@),
            None => array_elements(*value) is None,
        }),
{
    value.as_array()
}

/// `Value::as_array_mut`: the elements of an array, to be changed in place.
#[verifier::external_body]
pub(crate) fn elements_mut(value: &mut Value) -> (elements: Option<&mut Vec<Value>>)
    ensures
        (match elements {
            Some(list) => array_elements(*old(value)) == Some(list@) && array_elements(
                *final(value),
            ) == Some(final(list)@) && value_object(*final(value)) is None,
            None => array_elements(*old(value)) is None && *final(value) == *old(value),
        }),
{
    value.as_array_mut()
}

/// `Value::as_object_mut`: the object that a value is, to be changed in place.
#[verifier::external_body]
pub(crate) fn object_mut(value: &mut Value) -> (object: Option<&mut JsonMap>)
    ensures
        (match object {
            Some(map) => value_object(*old(value)) == Some(*map) && value_object(*final(value))
                == Some(*final(map)) && array_elements(*final(value)) is None,
            None => value_object(*old(value)) is None && *final(value) == *old(value),
        }),
{
    value.as_object_mut()
}

/// The object under `section`, if there is one.
pub open spec fn section_object(members: Map<Seq<char>, Value>, section: Seq<char>) -> Option<
    JsonMap,
> {
    if members.contains_key(section) {
        value_object(members[section])
    } else {
        None
    }
}

/// The members of the object under `section`; none where there is no such object.
pub open spec fn section_members(members: Map<Seq<char>, Value>, section: Seq<char>) -> Map<
    Seq<char>,
    Value,
> {
    match section_object(members, section) {
        Some(object) => object_members(object),
        None => no_members(),
    }
}

/// `after` is `before` with `value` put under `key` of the object under `section`. A section
/// that is missing or no object becomes an object with that one member.
pub open spec fn nested_inserted(
    before: Map<Seq<char>, Value>,
    after: Map<Seq<char>, Value>,
    section: Seq<char>,
    key: Seq<char>,
    value: Value,
) -> bool {
    &&& after == before.insert(section, after[section])
    &&& section_object(after, section) is Some
    &&& section_members(after, section) == section_members(before, section).insert(key, value)
}

/// The members after each of `list` has been put in.
pub open spec fn members_inserted(
    members: Map<Seq<char>, Value>,
    list: Seq<(Seq<char>, Value)>,
) -> Map<Seq<char>, Value>
    decreases list.len(),
{
    if list.len() == 0 {
        members
    } else {
        members_inserted(members, list.drop_last()).insert(list.last().0, list.last().1)
    }
}

/// `after` is `before` with each of `list` put into the object under `section`. Where there is
/// something to put in, a section that is missing or no object becomes an object.
pub open spec fn section_filled(
    before: Map<Seq<char>, Value>,
    after: Map<Seq<char>, Value>,
    section: Seq<char>,
    list: Seq<(Seq<char>, Value)>,
) -> bool {
    if list.len() == 0 {
        after == before
    } else {
        &&& after == before.insert(section, after[section])
        &&& section_object(after, section) is Some
        &&& section_members(after, section) == members_inserted(
            section_members(before, section),
            list,
        )
    }
}

/// Filling a section with one more member.
pub proof fn lemma_filled_more(
    first: Map<Seq<char>, Value>,
    second: Map<Seq<char>, Value>,
    third: Map<Seq<char>, Value>,
    section: Seq<char>,
    list: Seq<(Seq<char>, Value)>,
    key: Seq<char>,
    value: Value,
)
    requires
        section_filled(first, second, section, list),
        nested_inserted(second, third, section, key, value),
    ensures
        section_filled(first, third, section, list.push((key, value))),
{
    let more = list.push((key, value));
    let members = section_members(first, section);
    assert(more.drop_last() =~= list);
    assert(more.last() == (key, value));
    assert(members_inserted(members, more) == members_inserted(members, list).insert(key, value));
    assert(section_members(second, section) == members_inserted(members, list));
    assert(third =~= first.insert(section, third[section]));
}

/// `after` is `before` without the members `gone` of the objects under `sections`.
pub open spec fn sections_pruned(
    before: Map<Seq<char>, Value>,
    after: Map<Seq<char>, Value>,
    sections: Set<Seq<char>>,
    gone: Set<Seq<char>>,
) -> bool {
    &&& after.dom() == before.dom()
    &&& forall|other: Seq<char>|
        before.contains_key(other) && !sections.contains(other) ==> #[trigger] after[other]
            == before[other]
    &&& forall|section: Seq<char>| #[trigger]
        sections.contains(section) ==> {
            &&& section_object(before, section) is Some
            &&& section_object(after, section) is Some
            &&& section_members(after, section) == section_members(before, section).remove_keys(
                gone,
            )
        }
}

/// Pruning twice is pruning by both sets of names.
pub proof fn lemma_pruned_again(
    first: Map<Seq<char>, Value>,
    second: Map<Seq<char>, Value>,
    third: Map<Seq<char>, Value>,
    sections: Set<Seq<char>>,
    gone: Set<Seq<char>>,
    more: Set<Seq<char>>,
)
    requires
        sections_pruned(first, second, sections, gone),
        sections_pruned(second, third, sections, more),
    ensures
        sections_pruned(first, third, sections, gone.union(more)),
{
    assert forall|other: Seq<char>|
        first.contains_key(other) && !sections.contains(other) implies #[trigger] third[other]
        == first[other] by {
        assert(second[other] == first[other]);
    }
    assert forall|section: Seq<char>| #[trigger] sections.contains(section) implies section_members(
        third,
        section,
    ) == section_members(first, section).remove_keys(gone.union(more)) by {
        assert(section_members(third, section) =~= section_members(first, section).remove_keys(
            gone.union(more),
        ));
    }
}

/// Pruning one section and then another is pruning both.
pub proof fn lemma_pruned_two_sections(
    first: Map<Seq<char>, Value>,
    second: Map<Seq<char>, Value>,
    third: Map<Seq<char>, Value>,
    one: Seq<char>,
    two: Seq<char>,
    gone: Set<Seq<char>>,
)
    requires
        one != two,
        sections_pruned(first, second, set![one], gone),
        sections_pruned(second, third, set![two], gone),
    ensures
        sections_pruned(first, third, set![one, two], gone),
{
    assert(set![one].contains(one) && set![two].contains(two));
    assert(third[one] == second[one]);
    assert(second[two] == first[two]);
    assert forall|other: Seq<char>|
        first.contains_key(other) && !set![one, two].contains(other) implies #[trigger] third[other]
        == first[other] by {
        assert(second[other] == first[other]);
    }
}

/// Pruning by no name is leaving as it is.
pub proof fn lemma_pruned_by_nothing(members: Map<Seq<char>, Value>, sections: Set<Seq<char>>)
    requires
        forall|section: Seq<char>| #[trigger]
            sections.contains(section) ==> section_object(members, section) is Some,
    ensures
        sections_pruned(members, members, sections, set![]),
{
    assert forall|section: Seq<char>| #[trigger] sections.contains(section) implies section_members(
        members,
        section,
    ) == section_members(members, section).remove_keys(set![]) by {
        assert(section_members(members, section).remove_keys(set![]) =~= section_members(
            members,
            section,
        ));
    }
}

/// The text that `serde_json` writes for an object with these members, indented; `None` where
/// it cannot write one. The members alone decide: they are kept and written in the order of
/// their names, as `serde_json` does without its feature `preserve_order`.
pub uninterp spec fn pretty_text(members: Map<Seq<char>, Value>) -> Option<Seq<u8>>;

/// The members of the object that `serde_json` reads from a text; `None` where the text is no
/// JSON object.
pub uninterp spec fn parsed_members(text: Seq<u8>) -> Option<Map<Seq<char>, Value>>;

/// `serde_json::to_vec_pretty`: the object as indented text.
#[verifier::external_body]
pub(crate) fn to_json_vec(object: &JsonMap) -> (text: Result<Vec<u8>, serde_json::Error>)
    ensures
        (match text {
            Ok(bytes) => pretty_text(object_members(*object)) == Some(bytes@),
            Err(_) => pretty_text(object_members(*object)) is None,
        }),
{
    serde_json::to_vec_pretty(object)
}

/// `serde_json::from_slice`: the object that the text describes.
#[verifier::external_body]
pub(crate) fn parse_object(text: &[u8]) -> (object: Result<JsonMap, serde_json::Error>)
    ensures
        (match object {
            Ok(map) => parsed_members(text@) == Some(object_members(map)),
            Err(_) => parsed_members(text@) is None,
        }),
{
    serde_json::from_slice(text)
}

/// The paths that `serde_json` reads from a value; `None` where the value is no list of paths.
pub uninterp spec fn parsed_paths(value: Value) -> Option<Seq<PathBuf>>;

/// `serde_json::from_value`: the paths that the value lists. Only an array lists paths, one for
/// each of its elements; an empty array lists none.
#[verifier::external_body]
pub(crate) fn read_paths(value: Value) -> (paths: Result<Vec<PathBuf>, serde_json::Error>)
    ensures
        (match paths {
            Ok(list) => parsed_paths(value) == Some(list@),
            Err(_) => parsed_paths(value) is None,
        }),
        (match paths {
            Ok(list) => array_elements(value) matches Some(elements) && elements.len()
                == list@.len(),
            Err(_) => array_elements(value) matches Some(elements) ==> elements.len() > 0,
        }),
{
    serde_json::from_value(value)
}

/// The byte order mark of UTF-8.
pub open spec fn byte_order_mark() -> Seq<u8> {
    seq![0xEFu8, 0xBBu8, 0xBFu8]
}

/// `text` without one leading byte order mark.
pub open spec fn without_mark(text: Seq<u8>) -> Seq<u8> {
    if text.len() >= 3 && text.take(3) == byte_order_mark() {
        text.skip(3)
    } else {
        text
    }
}

/// `text` without one leading byte order mark.
pub fn strip_byte_order_mark(text: &[u8]) -> (rest: &[u8])
    ensures
        rest@ == without_mark(text@),
{
    if text.len() >= 3 && text[0] == 0xEF && text[1] == 0xBB && text[2] == 0xBF {
        proof {
            assert(text@.take(3) =~= byte_order_mark());
            assert(text@.skip(3) =~= text@.subrange(3, text@.len() as int));
        }
        vstd::slice::slice_subrange(text, 3, text.len())
    } else {
        proof {
            if text.len() >= 3 && text@.take(3) == byte_order_mark() {
                assert(text@.take(3)[0] == 0xEF);
                assert(text@.take(3)[1] == 0xBB);
                assert(text@.take(3)[2] == 0xBF);
            }
        }
        text
    }
}

/// Reads the object that a file describes; a file that is not there stands for an empty one.
pub fn load_json_or_default(file: Option<&[u8]>) -> (object: Result<JsonMap, serde_json::Error>)
    ensures
        (match file {
            Some(text) => match object {
                Ok(map) => parsed_members(without_mark(text@)) == Some(object_members(map)),
                Err(_) => parsed_members(without_mark(text@)) is None,
            },
            None => object matches Ok(map) && object_members(map) == no_members(),
        }),
{
    match file {
        Some(text) => parse_object(strip_byte_order_mark(text)),
        None => Ok(new_object()),
    }
}

/// Puts `value` under `key` of the object under `section`.
pub(crate) fn insert_nested(object: &mut JsonMap, section: &str, key: &str, value: Value)
    ensures
        nested_inserted(
            object_members(*old(object)),
            object_members(*final(object)),
            section@,
            key@,
            value,
        ),
{
    if let Some(found) = get_member_mut(object, section) {
        if let Some(inner) = object_mut(found) {
            insert_member(inner, key.to_owned(), value);
            return;
        }
    }
    let mut inner = new_object();
    insert_member(&mut inner, key.to_owned(), value);
    insert_member(object, section.to_owned(), object_value(inner));
    proof {
        let after = object_members(*object);
        assert(after =~= object_members(*old(object)).insert(section@, after[section@]));
    }
}

/// Whether there is an object under `section`.
pub(crate) fn section_is_object(object: &JsonMap, section: &str) -> (present: bool)
    ensures
        present == (section_object(object_members(*object), section@) is Some),
{
    match get_member(object, section) {
        Some(value) => is_object(value),
        None => false,
    }
}

/// Takes the member `key` out of the object under `section`.
pub(crate) fn prune_section(object: &mut JsonMap, section: &str, key: &str)
    requires
        section_object(object_members(*old(object)), section@) is Some,
    ensures
        sections_pruned(
            object_members(*old(object)),
            object_members(*final(object)),
            set![section@],
            set![key@],
        ),
{
    if let Some(found) = get_member_mut(object, section) {
        if let Some(inner) = object_mut(found) {
            remove_member(inner, key);
        }
    }
    proof {
        let before = object_members(*old(object));
        let after = object_members(*object);
        assert(after.dom() =~= before.dom());
        assert(section_members(after, section@) =~= section_members(before, section@).remove_keys(
            set![key@],
        ));
    }
}

/// A byte order mark in front of a text makes no difference to how the text is read.
pub proof fn law_byte_order_mark_is_passed_over(text: Seq<u8>)
    ensures
        without_mark(byte_order_mark() + text) == text,
{
    let marked = byte_order_mark() + text;
    assert(marked.take(3) =~= byte_order_mark());
    assert(marked.skip(3) =~= text);
}

} // verus!
