//! What becomes of JSON documents and of the texts made of names.
use crate::errors::joined;
use crate::json::{
    byte_order_mark, members_inserted, nested_inserted, no_members, object_members, section_filled,
    section_members, section_object, sections_pruned, value_object, without_mark,
};
use crate::manifest::{
    dependencies_section, locked_section, named_texts, named_values, section_agrees, VpmManifest,
};
use crate::ordered_map::{distinct, has_key, lookup, names, position, removed, removed_all, Entries};
use crate::project::{named_packages, need_views};
use crate::search::{
    law_search_finds_the_nearest_project, next_step, search_ends, FolderFiles, Marker, SearchStep,
};
use crate::structs::{optional_text, PackageJson, UserRepoSetting};
use crate::text::{str_texts, texts};
use crate::version::VersionRange;
use indexmap::IndexMap;
use serde_json::Value;
use vstd::prelude::*;

verus! {

/// One leading byte order mark is passed over, and nothing else is.
pub proof fn law_only_a_byte_order_mark_is_passed_over(text: Seq<u8>)
    ensures
        text.len() >= 3 && text[0] == 0xEF && text[1] == 0xBB && text[2] == 0xBF ==> without_mark(
            text,
        ) == text.skip(3),
        !(text.len() >= 3 && text[0] == 0xEF && text[1] == 0xBB && text[2] == 0xBF)
            ==> without_mark(text) == text,
{
    if text.len() >= 3 {
        assert(text.take(3)[0] == text[0] && text.take(3)[1] == text[1] && text.take(3)[2]
            == text[2]);
        if text[0] == 0xEF && text[1] == 0xBB && text[2] == 0xBF {
            assert(text.take(3) =~= byte_order_mark());
        }
    }
}

/// The object under a section is what stands there, if it is one, and its members are the
/// section's.
pub proof fn law_section_is_what_stands_there(
    members: Map<Seq<char>, Value>,
    section: Seq<char>,
    key: Seq<char>,
)
    ensures
        section_object(members, section) is Some <==> (members.contains_key(section)
            && value_object(members[section]) is Some),
        members.contains_key(section) && value_object(members[section]) is Some
            ==> section_members(members, section) == object_members(
            value_object(members[section])->0,
        ),
        !(members.contains_key(section) && value_object(members[section]) is Some)
            ==> !section_members(members, section).contains_key(key),
        !no_members().contains_key(key),
{
}

/// Putting a value into a section puts it under its key, into an object; the section's other
/// members and all other sections are as they were.
pub proof fn law_value_is_put_into_its_section(
    before: Map<Seq<char>, Value>,
    after: Map<Seq<char>, Value>,
    section: Seq<char>,
    key: Seq<char>,
    value: Value,
    other: Seq<char>,
    elsewhere: Seq<char>,
)
    requires
        nested_inserted(before, after, section, key, value),
        other != key,
        elsewhere != section,
    ensures
        after.contains_key(section),
        value_object(after[section]) matches Some(object) && object_members(object).contains_key(
            key,
        ) && object_members(object)[key] == value && object_members(object).contains_key(other)
            == section_members(before, section).contains_key(other) && (section_members(
            before,
            section,
        ).contains_key(other) ==> object_members(object)[other] == section_members(
            before,
            section,
        )[other]),
        after.contains_key(elsewhere) == before.contains_key(elsewhere),
        before.contains_key(elsewhere) ==> after[elsewhere] == before[elsewhere],
{
}

/// Taking names out of sections leaves those sections objects without these names; all else is
/// as it was.
pub proof fn law_names_are_taken_out_of_their_sections(
    before: Map<Seq<char>, Value>,
    after: Map<Seq<char>, Value>,
    sections: Set<Seq<char>>,
    gone: Set<Seq<char>>,
    section: Seq<char>,
    key: Seq<char>,
    elsewhere: Seq<char>,
)
    requires
        sections_pruned(before, after, sections, gone),
        sections.contains(section),
        !sections.contains(elsewhere),
    ensures
        after.contains_key(section),
        value_object(after[section]) matches Some(object) && object_members(object).contains_key(
            key,
        ) == (section_members(before, section).contains_key(key) && !gone.contains(key)) && (
        object_members(object).contains_key(key) ==> object_members(object)[key]
            == section_members(before, section)[key]),
        after.contains_key(elsewhere) == before.contains_key(elsewhere),
        before.contains_key(elsewhere) ==> after[elsewhere] == before[elsewhere],
{
    assert(section_object(before, section) is Some);
    assert(section_object(after, section) is Some);
    assert(section_members(after, section) == section_members(before, section).remove_keys(gone));
    assert(after.dom().contains(elsewhere) == before.dom().contains(elsewhere));
    assert(after.dom().contains(section) == before.dom().contains(section));
}

/// Filling a section puts in one member after the other; nothing is changed where there is
/// nothing to put in, and no other section is.
pub proof fn law_section_is_filled_member_by_member(
    before: Map<Seq<char>, Value>,
    after: Map<Seq<char>, Value>,
    section: Seq<char>,
    list: Seq<(Seq<char>, Value)>,
    key: Seq<char>,
    value: Value,
    elsewhere: Seq<char>,
)
    requires
        section_filled(before, after, section, list),
        elsewhere != section,
    ensures
        list.len() == 0 ==> after == before,
        list.len() > 0 ==> (value_object(after[section]) matches Some(object) && object_members(
            object,
        ) == members_inserted(section_members(before, section), list)),
        members_inserted(section_members(before, section), seq![]) == section_members(
            before,
            section,
        ),
        members_inserted(section_members(before, section), list.push((key, value)))
            == members_inserted(section_members(before, section), list).insert(key, value),
        after.contains_key(elsewhere) == before.contains_key(elsewhere),
        before.contains_key(elsewhere) ==> after[elsewhere] == before[elsewhere],
{
    assert(list.push((key, value)).drop_last() =~= list);
}

/// The sections of a manifest have these names, and agree with what was read from them exactly if
/// they have the same names.
pub proof fn law_sections_of_a_manifest(manifest: VpmManifest, name: Seq<char>)
    ensures
        dependencies_section() == "dependencies"@,
        locked_section() == "locked"@,
        manifest.agrees() ==> {
            &&& section_members(manifest.document(), "locked"@).contains_key(name) == has_key(
                manifest.locks(),
                name,
            )
            &&& section_members(manifest.document(), "dependencies"@).contains_key(name) == has_key(
                manifest.asked(),
                name,
            )
        },
        manifest.has_sections() <==> {
            &&& section_object(manifest.document(), "dependencies"@) is Some
            &&& section_object(manifest.document(), "locked"@) is Some
        },
{
    if manifest.agrees() {
        assert(section_agrees(manifest.document(), "locked"@, manifest.locks()));
        assert(section_agrees(manifest.document(), "dependencies"@, manifest.asked()));
    }
}

/// The items of a list have their names, their entries and what is written for them.
pub proof fn law_items_are_taken_apart<V>(list: Seq<(String, V, Value)>, index: int)
    requires
        0 <= index < list.len(),
    ensures
        named_values(list).len() == list.len(),
        named_values(list)[index] == (list[index].0@, list[index].1),
        named_texts(list).len() == list.len(),
        named_texts(list)[index] == (list[index].0@, list[index].2),
{
}

/// Taking several names out, one after the other.
pub proof fn law_one_more_name_is_taken_out<V>(
    entries: Entries<V>,
    list: Seq<Seq<char>>,
    name: Seq<char>,
)
    ensures
        removed_all(entries, seq![]) == entries,
        removed_all(entries, list.push(name)) == removed(removed_all(entries, list), name),
{
    assert(list.push(name).drop_last() =~= list);
}

/// Lists are modelled element by element.
pub proof fn law_lists_are_modelled_in_full<V>(
    strings: Seq<String>,
    slices: Seq<&str>,
    entries: Entries<V>,
    needs: Seq<(&String, &IndexMap<String, VersionRange>)>,
    packages: Seq<(String, PackageJson)>,
    index: int,
)
    ensures
        texts(strings).len() == strings.len(),
        0 <= index < strings.len() ==> texts(strings)[index] == strings[index]@,
        str_texts(slices).len() == slices.len(),
        0 <= index < slices.len() ==> str_texts(slices)[index] == slices[index]@,
        names(entries).len() == entries.len(),
        0 <= index < entries.len() ==> names(entries)[index] == entries[index].0,
        need_views(needs).len() == needs.len(),
        0 <= index < needs.len() ==> need_views(needs)[index] == (
            needs[index].0@,
            *needs[index].1,
        ),
        named_packages(packages).len() == packages.len(),
        0 <= index < packages.len() ==> named_packages(packages)[index] == (
            packages[index].0@,
            packages[index].1,
        ),
{
}

/// Names are joined by a comma and a space between each two, in order.
pub proof fn law_one_more_name_is_joined(list: Seq<Seq<char>>, name: Seq<char>)
    ensures
        joined(seq![]).len() == 0,
        joined(seq![name]) == name,
        list.len() > 0 ==> joined(list.push(name)) == joined(list) + ", "@ + name,
{
    assert(list.push(name).drop_last() =~= list);
    assert(seq![name][0] == name);
}

/// A search ends in the nearest folder that holds one of the two files, and finds none only where
/// none of the folders does.
pub proof fn law_search_ends_at_the_nearest_file(folders: Seq<FolderFiles>)
    ensures
        (match search_ends(folders, 0, Marker::VpmManifest) {
            Some(index) => {
                &&& 0 <= index < folders.len()
                &&& folders[index].vpm_manifest || folders[index].manifest
                &&& forall|i: int|
                    0 <= i < index ==> !(#[trigger] folders[i]).vpm_manifest
                        && !folders[i].manifest
            },
            None => forall|i: int|
                0 <= i < folders.len() ==> !(#[trigger] folders[i]).vpm_manifest
                    && !folders[i].manifest,
        }),
{
    law_search_finds_the_nearest_project(folders);
    match search_ends(folders, 0, Marker::VpmManifest) {
        Some(index) => {
            assert forall|i: int| 0 <= i < index implies !(#[trigger] folders[i]).vpm_manifest
                && !folders[i].manifest by {
                assert(!folders[i].is_project());
            }
        },
        None => {
            assert forall|i: int| 0 <= i < folders.len() implies !(
            #[trigger] folders[i]).vpm_manifest && !folders[i].manifest by {
                assert(!folders[i].is_project());
            }
        },
    }
}

/// A step of the search: a file that is there ends it, the second file is looked for behind the
/// first, and the folder above behind the second.
pub proof fn law_steps_of_the_search(marker: Marker)
    ensures
        next_step(marker, true) == SearchStep::Found,
        next_step(Marker::VpmManifest, false) == SearchStep::LookFor(Marker::Manifest),
        next_step(Marker::Manifest, false) == SearchStep::GoUp,
{
}

/// What it says that no name occurs twice, and what is found under a name then.
pub proof fn law_names_of_entries<V>(entries: Entries<V>, index: int, name: Seq<char>)
    ensures
        distinct(entries) <==> forall|i: int, j: int|
            0 <= i < j < entries.len() ==> (#[trigger] entries[i]).0 != (#[trigger] entries[j]).0,
        distinct(entries) && 0 <= index < entries.len() ==> lookup(entries, entries[index].0)
            == Some(entries[index].1),
        lookup(entries, name) matches Some(value) ==> entries.contains((name, value)),
        lookup(entries, name) is Some <==> exists|i: int|
            0 <= i < entries.len() && (#[trigger] entries[i]).0 == name,
{
    if 0 <= index < entries.len() {
        assert(has_key(entries, entries[index].0));
        let at = position(entries, entries[index].0);
        assert(entries[at].0 == entries[index].0);
    }
    if has_key(entries, name) {
        let at = position(entries, name);
        assert(entries[at] == (name, entries[at].1));
    }
}

/// A copy of an entry of the user's list, or of a source, says the same in every part.
pub proof fn law_copies_say_the_same(one: UserRepoSetting, other: UserRepoSetting)
    ensures
        one.says_the_same(other) <==> {
            &&& one.local_path == other.local_path
            &&& optional_text(one.name) == optional_text(other.name)
            &&& optional_text(one.url) == optional_text(other.url)
            &&& optional_text(one.id) == optional_text(other.id)
        },
{
}

} // verus!
