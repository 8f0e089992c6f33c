//! The manifest of a project: what it asks for and what is locked.
use crate::json::{
    clone_value, get_member, insert_nested, lemma_filled_more, lemma_pruned_again,
    lemma_pruned_by_nothing, lemma_pruned_two_sections, member, members_inserted, nested_inserted,
    new_object, no_members, object_members, object_value, pretty_text, prune_section,
    section_filled, section_is_object, section_members, section_object, sections_pruned,
    to_json_vec, value_object, JsonMap,
};
use crate::marking::{unneeded, unneeded_names, UnlockedPackages};
use crate::ordered_map::{
    distinct, has_key, inserted, inserted_all, lemma_counted_names_are_distinct, lemma_inserted,
    lemma_inserted_all, lemma_removed_all, lookup, position, removed, removed_all, Entries,
};
use crate::seqs::lemma_push_to_set;
use crate::structs::{
    count_dependencies, count_locked, dependency_entries, insert_dependency, insert_locked,
    locked_entries, remove_dependency, remove_locked, VpmDependency, VpmLockedDependency,
};
use crate::text::{str_texts, texts};
use indexmap::IndexMap;
use serde_json::Value;
use vstd::prelude::*;

verus! {

/// The name of the section of what the project asks for.
pub open spec fn dependencies_section() -> Seq<char> {
    "dependencies"@
}

/// The name of the section of what is locked.
pub open spec fn locked_section() -> Seq<char> {
    "locked"@
}

/// The two sections have different names.
pub proof fn lemma_sections_differ()
    ensures
        dependencies_section() != locked_section(),
{
    reveal_strlit("dependencies");
    reveal_strlit("locked");
    assert("dependencies"@.len() != "locked"@.len());
}

/// The value of the section `section` of a manifest: an empty object if it is missing.
pub fn manifest_section(json: &JsonMap, section: &str) -> (value: Value)
    ensures
        (match member(*json, section@) {
            Some(found) => value == found,
            None => value_object(value) matches Some(object) && object_members(object)
                == no_members(),
        }),
{
    match get_member(json, section) {
        Some(found) => clone_value(found),
        None => object_value(new_object()),
    }
}

/// A manifest, as a JSON document and as the two sections read from it.
#[derive(Debug)]
pub struct VpmManifest {
    json: JsonMap,
    dependencies: IndexMap<String, VpmDependency>,
    locked: IndexMap<String, VpmLockedDependency>,
    changed: bool,
}

/// The names of a section of the document are those of the entries read from it.
pub open spec fn section_agrees<V>(
    document: Map<Seq<char>, Value>,
    section: Seq<char>,
    entries: Entries<V>,
) -> bool {
    forall|name: Seq<char>| #[trigger]
        section_members(document, section).contains_key(name) <==> has_key(entries, name)
}

/// Putting a value into a section of the document and into what was read from it keeps the two
/// in agreement; another section is not touched.
proof fn lemma_insert_agrees<V>(
    before: Map<Seq<char>, Value>,
    after: Map<Seq<char>, Value>,
    section: Seq<char>,
    entries: Entries<V>,
    name: Seq<char>,
    value: V,
    serialized: Value,
)
    requires
        distinct(entries),
        nested_inserted(before, after, section, name, serialized),
        section_agrees(before, section, entries),
    ensures
        section_agrees(after, section, inserted(entries, name, value)),
{
    lemma_inserted(entries, name, value);
    assert forall|other: Seq<char>| #[trigger]
        section_members(after, section).contains_key(other) <==> has_key(
            inserted(entries, name, value),
            other,
        ) by {
        assert(section_members(before, section).contains_key(other) <==> has_key(entries, other));
    }
}

/// Taking names out of a section of the document and out of what was read from it keeps the
/// two in agreement.
proof fn lemma_prune_agrees<V>(
    before: Map<Seq<char>, Value>,
    after: Map<Seq<char>, Value>,
    sections: Set<Seq<char>>,
    section: Seq<char>,
    entries: Entries<V>,
    gone: Seq<Seq<char>>,
)
    requires
        distinct(entries),
        sections.contains(section),
        sections_pruned(before, after, sections, gone.to_set()),
        section_agrees(before, section, entries),
    ensures
        section_agrees(after, section, removed_all(entries, gone)),
{
    lemma_removed_all(entries, gone);
    assert forall|other: Seq<char>| #[trigger]
        section_members(after, section).contains_key(other) <==> has_key(
            removed_all(entries, gone),
            other,
        ) by {
        assert(section_members(before, section).contains_key(other) <==> has_key(entries, other));
        assert(gone.to_set().contains(other) <==> gone.contains(other));
    }
}

/// The names of a list with their entries.
pub open spec fn named_values<V>(list: Seq<(String, V, Value)>) -> Entries<V> {
    list.map_values(|item: (String, V, Value)| (item.0@, item.1))
}

/// The names of a list with what is written for them.
pub open spec fn named_texts<V>(list: Seq<(String, V, Value)>) -> Seq<(Seq<char>, Value)> {
    list.map_values(|item: (String, V, Value)| (item.0@, item.2))
}

/// A list of entries with one more.
proof fn lemma_one_more_item<V>(list: Seq<(String, V, Value)>, item: (String, V, Value))
    ensures
        named_values(list.push(item)) == named_values(list).push((item.0@, item.1)),
        named_texts(list.push(item)) == named_texts(list).push((item.0@, item.2)),
        named_values(list.push(item)).drop_last() == named_values(list),
{
    assert(named_values(list.push(item)) =~= named_values(list).push((item.0@, item.1)));
    assert(named_texts(list.push(item)) =~= named_texts(list).push((item.0@, item.2)));
    assert(named_values(list.push(item)).drop_last() =~= named_values(list));
}

impl VpmManifest {
    /// The members of the JSON document.
    pub closed spec fn document(self) -> Map<Seq<char>, Value> {
        object_members(self.json)
    }

    /// What the project asks for, in order.
    pub closed spec fn asked(self) -> Entries<VpmDependency> {
        dependency_entries(self.dependencies)
    }

    /// What is locked, in order.
    pub closed spec fn locks(self) -> Entries<VpmLockedDependency> {
        locked_entries(self.locked)
    }

    /// Something was put in or taken out since the manifest was read.
    pub closed spec fn is_changed(self) -> bool {
        self.changed
    }

    /// No name occurs twice in a section.
    pub open spec fn well_formed(self) -> bool {
        distinct(self.asked()) && distinct(self.locks())
    }

    /// The document and the sections read from it have the same names.
    pub open spec fn agrees(self) -> bool {
        &&& section_agrees(self.document(), dependencies_section(), self.asked())
        &&& section_agrees(self.document(), locked_section(), self.locks())
    }

    /// Both sections of the document are objects.
    pub open spec fn has_sections(self) -> bool {
        &&& section_object(self.document(), dependencies_section()) is Some
        &&& section_object(self.document(), locked_section()) is Some
    }

    /// The manifest of the document `json`, whose sections read as `dependencies` and `locked`.
    pub fn new(
        json: JsonMap,
        dependencies: IndexMap<String, VpmDependency>,
        locked: IndexMap<String, VpmLockedDependency>,
    ) -> (manifest: Self)
        ensures
            manifest.well_formed(),
            manifest.document() == object_members(json),
            manifest.asked() == dependency_entries(dependencies),
            manifest.locks() == locked_entries(locked),
            !manifest.is_changed(),
    {
        let asked = count_dependencies(&dependencies);
        let locks = count_locked(&locked);
        proof {
            assert(asked == dependency_entries(dependencies).len());
            assert(locks == locked_entries(locked).len());
            lemma_counted_names_are_distinct(dependency_entries(dependencies));
            lemma_counted_names_are_distinct(locked_entries(locked));
        }
        VpmManifest { json, dependencies, locked, changed: false }
    }

    /// What the project asks for.
    pub fn dependencies(&self) -> (dependencies: &IndexMap<String, VpmDependency>)
        ensures
            dependency_entries(*dependencies) == self.asked(),
    {
        &self.dependencies
    }

    /// What is locked.
    pub fn locked(&self) -> (locked: &IndexMap<String, VpmLockedDependency>)
        ensures
            locked_entries(*locked) == self.locks(),
    {
        &self.locked
    }

    /// Asks for `name` in the versions of `dependency`, which is written as `serialized`.
    pub fn add_dependency(&mut self, name: String, dependency: VpmDependency, serialized: Value)
        requires
            old(self).well_formed(),
        ensures
            final(self).well_formed(),
            final(self).asked() == inserted(old(self).asked(), name@, dependency),
            final(self).locks() == old(self).locks(),
            nested_inserted(
                old(self).document(),
                final(self).document(),
                dependencies_section(),
                name@,
                serialized,
            ),
            final(self).is_changed(),
            old(self).agrees() ==> final(self).agrees(),
    {
        let ghost before = *self;
        proof {
            lemma_inserted(self.asked(), name@, dependency);
        }
        self.add_value("dependencies", name.as_str(), serialized);
        insert_dependency(&mut self.dependencies, name, dependency);
        proof {
            lemma_sections_differ();
            if before.agrees() {
                lemma_insert_agrees(
                    before.document(),
                    self.document(),
                    dependencies_section(),
                    before.asked(),
                    name@,
                    dependency,
                    serialized,
                );
                assert(section_members(self.document(), locked_section()) == section_members(
                    before.document(),
                    locked_section(),
                ));
            }
        }
    }

    /// Locks `name` to `dependency`, which is written as `serialized`.
    pub fn add_locked(&mut self, name: &str, dependency: VpmLockedDependency, serialized: Value)
        requires
            old(self).well_formed(),
        ensures
            final(self).well_formed(),
            final(self).locks() == inserted(old(self).locks(), name@, dependency),
            final(self).asked() == old(self).asked(),
            nested_inserted(
                old(self).document(),
                final(self).document(),
                locked_section(),
                name@,
                serialized,
            ),
            final(self).is_changed(),
            old(self).agrees() ==> final(self).agrees(),
    {
        let ghost before = *self;
        proof {
            lemma_inserted(self.locks(), name@, dependency);
        }
        self.add_value("locked", name, serialized);
        insert_locked(&mut self.locked, name.to_owned(), dependency);
        proof {
            lemma_sections_differ();
            if before.agrees() {
                lemma_insert_agrees(
                    before.document(),
                    self.document(),
                    locked_section(),
                    before.locks(),
                    name@,
                    dependency,
                    serialized,
                );
                assert(section_members(self.document(), dependencies_section())
                    == section_members(before.document(), dependencies_section()));
            }
        }
    }

    /// Puts `value` under `key` of the section `section` of the document.
    fn add_value(&mut self, section: &str, key: &str, value: Value)
        ensures
            nested_inserted(old(self).document(), final(self).document(), section@, key@, value),
            final(self).asked() == old(self).asked(),
            final(self).locks() == old(self).locks(),
            final(self).is_changed(),
    {
        insert_nested(&mut self.json, section, key, value);
        self.changed = true;
    }

    /// Asks for each of `list`, a name with its versions and with what is written for them.
    pub fn add_dependencies(&mut self, list: Vec<(String, VpmDependency, Value)>)
        requires
            old(self).well_formed(),
        ensures
            final(self).well_formed(),
            final(self).asked() == inserted_all(old(self).asked(), named_values(list@)),
            final(self).locks() == old(self).locks(),
            section_filled(
                old(self).document(),
                final(self).document(),
                dependencies_section(),
                named_texts(list@),
            ),
            final(self).is_changed() == (old(self).is_changed() || list@.len() > 0),
            old(self).agrees() ==> final(self).agrees(),
    {
        let ghost all = list@;
        let ghost before = *self;
        proof {
            assert(all.take(0) =~= seq![]);
            assert(named_values(all.take(0)) =~= seq![]);
            assert(named_texts(all.take(0)) =~= seq![]);
        }
        for item in it: list
            invariant
                it.seq() == all,
                self.well_formed(),
                self.asked() == inserted_all(before.asked(), named_values(all.take(it.index()))),
                self.locks() == before.locks(),
                section_filled(
                    before.document(),
                    self.document(),
                    dependencies_section(),
                    named_texts(all.take(it.index())),
                ),
                self.is_changed() == (before.is_changed() || it.index() > 0),
                before.agrees() ==> self.agrees(),
        {
            let ghost done = all.take(it.index());
            let ghost start = self.document();
            let (name, dependency, serialized) = item;
            self.add_dependency(name, dependency, serialized);
            proof {
                assert(all.take(it.index() + 1) =~= done.push(item));
                lemma_one_more_item(done, item);
                lemma_filled_more(
                    before.document(),
                    start,
                    self.document(),
                    dependencies_section(),
                    named_texts(done),
                    name@,
                    serialized,
                );
            }
        }
        proof {
            assert(all.take(all.len() as int) =~= all);
        }
    }

    /// Locks each of `list`, a name with its entry and with what is written for it.
    pub fn add_all_locked(&mut self, list: Vec<(String, VpmLockedDependency, Value)>)
        requires
            old(self).well_formed(),
        ensures
            final(self).well_formed(),
            final(self).locks() == inserted_all(old(self).locks(), named_values(list@)),
            final(self).asked() == old(self).asked(),
            section_filled(
                old(self).document(),
                final(self).document(),
                locked_section(),
                named_texts(list@),
            ),
            final(self).is_changed() == (old(self).is_changed() || list@.len() > 0),
            old(self).agrees() ==> final(self).agrees(),
    {
        let ghost all = list@;
        let ghost before = *self;
        proof {
            assert(all.take(0) =~= seq![]);
            assert(named_values(all.take(0)) =~= seq![]);
            assert(named_texts(all.take(0)) =~= seq![]);
        }
        for item in it: list
            invariant
                it.seq() == all,
                self.well_formed(),
                self.locks() == inserted_all(before.locks(), named_values(all.take(it.index()))),
                self.asked() == before.asked(),
                section_filled(
                    before.document(),
                    self.document(),
                    locked_section(),
                    named_texts(all.take(it.index())),
                ),
                self.is_changed() == (before.is_changed() || it.index() > 0),
                before.agrees() ==> self.agrees(),
        {
            let ghost done = all.take(it.index());
            let ghost start = self.document();
            let (name, dependency, serialized) = item;
            self.add_locked(name.as_str(), dependency, serialized);
            proof {
                assert(all.take(it.index() + 1) =~= done.push(item));
                lemma_one_more_item(done, item);
                lemma_filled_more(
                    before.document(),
                    start,
                    self.document(),
                    locked_section(),
                    named_texts(done),
                    name@,
                    serialized,
                );
            }
        }
        proof {
            assert(all.take(all.len() as int) =~= all);
        }
    }

    /// Takes the packages `names` out of both sections.
    pub fn remove_packages(&mut self, names: &[&str])
        requires
            old(self).well_formed(),
            names@.len() > 0 ==> old(self).has_sections(),
        ensures
            final(self).well_formed(),
            final(self).asked() == removed_all(old(self).asked(), str_texts(names@)),
            final(self).locks() == removed_all(old(self).locks(), str_texts(names@)),
            names@.len() == 0 ==> final(self).document() == old(self).document(),
            names@.len() > 0 ==> sections_pruned(
                old(self).document(),
                final(self).document(),
                set![locked_section(), dependencies_section()],
                str_texts(names@).to_set(),
            ),
            final(self).is_changed(),
            old(self).agrees() ==> final(self).agrees(),
    {
        let ghost all = str_texts(names@);
        let ghost sections = set![locked_section(), dependencies_section()];
        let ghost before = *self;
        proof {
            assert(all.take(0) =~= seq![]);
            if names@.len() > 0 {
                lemma_pruned_by_nothing(before.document(), sections);
                assert(all.take(0).to_set() =~= set![]);
            }
        }
        let mut i: usize = 0;
        while i < names.len()
            invariant
                i <= names.len(),
                all == str_texts(names@),
                sections == set![locked_section(), dependencies_section()],
                self.asked() == removed_all(before.asked(), all.take(i as int)),
                self.locks() == removed_all(before.locks(), all.take(i as int)),
                names@.len() > 0 ==> sections_pruned(
                    before.document(),
                    self.document(),
                    sections,
                    all.take(i as int).to_set(),
                ),
                names@.len() == 0 ==> self.document() == before.document(),
            decreases names.len() - i,
        {
            let name = names[i];
            let ghost earlier = all.take(i as int);
            let ghost start = self.document();
            proof {
                assert(sections.contains(locked_section()));
                assert(sections.contains(dependencies_section()));
                lemma_sections_differ();
            }
            remove_locked(&mut self.locked, name);
            prune_section(&mut self.json, "locked", name);
            let ghost middle = self.document();
            remove_dependency(&mut self.dependencies, name);
            proof {
                assert(middle[dependencies_section()] == start[dependencies_section()]);
            }
            prune_section(&mut self.json, "dependencies", name);
            proof {
                lemma_pruned_two_sections(
                    start,
                    middle,
                    self.document(),
                    locked_section(),
                    dependencies_section(),
                    set![name@],
                );
                lemma_pruned_again(
                    before.document(),
                    start,
                    self.document(),
                    sections,
                    earlier.to_set(),
                    set![name@],
                );
                let later = all.take(i + 1);
                assert(later.drop_last() =~= earlier);
                assert(later.last() == name@);
                assert(later =~= earlier.push(name@));
                lemma_push_to_set(earlier, name@);
            }
            i += 1;
        }
        self.changed = true;
        proof {
            assert(all.take(i as int) =~= all);
            lemma_removed_all(before.asked(), all);
            lemma_removed_all(before.locks(), all);
            if before.agrees() && names@.len() > 0 {
                lemma_prune_agrees(
                    before.document(),
                    self.document(),
                    sections,
                    dependencies_section(),
                    before.asked(),
                    all,
                );
                lemma_prune_agrees(
                    before.document(),
                    self.document(),
                    sections,
                    locked_section(),
                    before.locks(),
                    all,
                );
            }
        }
    }

    /// Takes every locked package out that is needed neither by the project nor, directly or
    /// not, by a package that stays or is not locked. Gives the names of those that went.
    pub fn mark_and_sweep_packages(&mut self, unlocked: &UnlockedPackages) -> (gone: Vec<String>)
        requires
            old(self).well_formed(),
            unneeded(old(self).asked(), old(self).locks(), unlocked@).len() > 0
                ==> section_object(old(self).document(), locked_section()) is Some,
        ensures
            final(self).well_formed(),
            texts(gone@) == unneeded(old(self).asked(), old(self).locks(), unlocked@),
            final(self).locks() == removed_all(old(self).locks(), texts(gone@)),
            final(self).asked() == old(self).asked(),
            gone@.len() == 0 ==> final(self).document() == old(self).document(),
            gone@.len() > 0 ==> sections_pruned(
                old(self).document(),
                final(self).document(),
                set![locked_section()],
                texts(gone@).to_set(),
            ),
            final(self).is_changed() == old(self).is_changed(),
            old(self).agrees() ==> final(self).agrees(),
    {
        let gone = unneeded_names(&self.dependencies, &self.locked, unlocked);
        let ghost all = texts(gone@);
        let ghost sections = set![locked_section()];
        let ghost before = *self;
        proof {
            assert(all.take(0) =~= seq![]);
            if gone@.len() > 0 {
                lemma_pruned_by_nothing(before.document(), sections);
                assert(all.take(0).to_set() =~= set![]);
            }
        }
        let mut i: usize = 0;
        while i < gone.len()
            invariant
                i <= gone.len(),
                all == texts(gone@),
                sections == set![locked_section()],
                self.asked() == before.asked(),
                self.is_changed() == before.is_changed(),
                self.locks() == removed_all(before.locks(), all.take(i as int)),
                gone@.len() > 0 ==> sections_pruned(
                    before.document(),
                    self.document(),
                    sections,
                    all.take(i as int).to_set(),
                ),
                gone@.len() == 0 ==> self.document() == before.document(),
            decreases gone.len() - i,
        {
            let name = gone[i].as_str();
            let ghost earlier = all.take(i as int);
            let ghost start = self.document();
            proof {
                assert(sections.contains(locked_section()));
            }
            remove_locked(&mut self.locked, name);
            prune_section(&mut self.json, "locked", name);
            proof {
                lemma_pruned_again(
                    before.document(),
                    start,
                    self.document(),
                    sections,
                    earlier.to_set(),
                    set![name@],
                );
                let later = all.take(i + 1);
                assert(all[i as int] == name@);
                assert(later.drop_last() =~= earlier);
                assert(later =~= earlier.push(name@));
                lemma_push_to_set(earlier, name@);
            }
            i += 1;
        }
        proof {
            assert(all.take(i as int) =~= all);
            lemma_removed_all(before.locks(), all);
            if before.agrees() && gone@.len() > 0 {
                lemma_sections_differ();
                lemma_prune_agrees(
                    before.document(),
                    self.document(),
                    sections,
                    locked_section(),
                    before.locks(),
                    all,
                );
                assert(section_members(self.document(), dependencies_section())
                    =~= section_members(before.document(), dependencies_section())) by {
                    if before.document().contains_key(dependencies_section()) {
                        assert(self.document()[dependencies_section()]
                            == before.document()[dependencies_section()]);
                    }
                }
            }
        }
        gone
    }

    /// Whether both sections of the document are objects, as removing packages needs.
    pub fn sections_present(&self) -> (present: bool)
        ensures
            present == self.has_sections(),
    {
        section_is_object(&self.json, "dependencies") && section_is_object(&self.json, "locked")
    }

    /// Whether the section of what is locked is an object, as sweeping needs.
    pub fn locked_present(&self) -> (present: bool)
        ensures
            present == (section_object(self.document(), locked_section()) is Some),
    {
        section_is_object(&self.json, "locked")
    }

    /// The text to write to the manifest file; `None` where nothing has changed.
    pub fn save_to(&self) -> (text: Result<Option<Vec<u8>>, serde_json::Error>)
        ensures
            (match text {
                Ok(None) => !self.is_changed(),
                Ok(Some(bytes)) => self.is_changed() && pretty_text(self.document()) == Some(
                    bytes@,
                ),
                Err(_) => self.is_changed() && pretty_text(self.document()) is None,
            }),
    {
        if !self.changed {
            return Ok(None);
        }
        match to_json_vec(&self.json) {
            Ok(bytes) => Ok(Some(bytes)),
            Err(error) => Err(error),
        }
    }
}

/// Names that were taken out of a section are gone, and every other name has what it had.
pub proof fn law_removed_names_are_gone<V>(entries: Entries<V>, gone: Seq<Seq<char>>)
    requires
        distinct(entries),
    ensures
        distinct(removed_all(entries, gone)),
        forall|name: Seq<char>| #[trigger]
            lookup(removed_all(entries, gone), name) == (if gone.contains(name) {
                None
            } else {
                lookup(entries, name)
            }),
{
    lemma_removed_all(entries, gone);
}

/// A name that was put into a section has what was put there, and every other name has what it
/// had.
pub proof fn law_added_name_is_found<V>(entries: Entries<V>, name: Seq<char>, value: V)
    requires
        distinct(entries),
    ensures
        distinct(inserted(entries, name, value)),
        forall|other: Seq<char>| #[trigger]
            lookup(inserted(entries, name, value), other) == (if other == name {
                Some(value)
            } else {
                lookup(entries, other)
            }),
{
    lemma_inserted(entries, name, value);
}

/// Taking out a name that was just put in leaves the section as it was, if the name is new.
pub proof fn law_removing_undoes_adding<V>(entries: Entries<V>, name: Seq<char>, value: V)
    requires
        distinct(entries),
        !has_key(entries, name),
    ensures
        removed(inserted(entries, name, value), name) == entries,
{
    let longer = inserted(entries, name, value);
    lemma_inserted(entries, name, value);
    assert(longer[entries.len() as int].0 == name);
    assert(position(longer, name) == entries.len());
    assert(removed(longer, name) =~= entries);
}

/// The members of a section of the document read back as its entries, where `reads` says which
/// value reads back as which entry: the names are the same, and so is what stands under each.
pub open spec fn reads_back<V>(
    members: Map<Seq<char>, Value>,
    entries: Entries<V>,
    reads: spec_fn(Value, V) -> bool,
) -> bool {
    &&& forall|name: Seq<char>| #[trigger] members.contains_key(name) <==> has_key(entries, name)
    &&& forall|name: Seq<char>|
        has_key(entries, name) ==> reads(members[name], #[trigger] lookup(entries, name)->0)
}

proof fn lemma_insert_reads_back<V>(
    members: Map<Seq<char>, Value>,
    entries: Entries<V>,
    reads: spec_fn(Value, V) -> bool,
    name: Seq<char>,
    value: V,
    serialized: Value,
)
    requires
        distinct(entries),
        reads_back(members, entries, reads),
        reads(serialized, value),
    ensures
        reads_back(members.insert(name, serialized), inserted(entries, name, value), reads),
{
    let after = inserted(entries, name, value);
    let written = members.insert(name, serialized);
    lemma_inserted(entries, name, value);
    assert forall|other: Seq<char>| #[trigger] written.contains_key(other) <==> has_key(
        after,
        other,
    ) by {
        assert(members.contains_key(other) <==> has_key(entries, other));
    }
    assert forall|other: Seq<char>| has_key(after, other) implies reads(
        written[other],
        #[trigger] lookup(after, other)->0,
    ) by {
        if other != name {
            assert(lookup(after, other) == lookup(entries, other));
        }
    }
}

/// Where a section reads back as its entries and what is put in reads back as the new entry, the
/// section reads back afterwards; no other section is touched.
pub proof fn law_added_entry_reads_back<V>(
    before: Map<Seq<char>, Value>,
    after: Map<Seq<char>, Value>,
    section: Seq<char>,
    entries: Entries<V>,
    reads: spec_fn(Value, V) -> bool,
    name: Seq<char>,
    value: V,
    serialized: Value,
    other: Seq<char>,
)
    requires
        distinct(entries),
        nested_inserted(before, after, section, name, serialized),
        reads_back(section_members(before, section), entries, reads),
        reads(serialized, value),
        other != section,
    ensures
        reads_back(section_members(after, section), inserted(entries, name, value), reads),
        after.contains_key(other) == before.contains_key(other),
        before.contains_key(other) ==> after[other] == before[other],
{
    lemma_insert_reads_back(
        section_members(before, section),
        entries,
        reads,
        name,
        value,
        serialized,
    );
}

/// Where a section reads back as its entries and each value of a list reads back as its entry,
/// the section reads back once all are put in; no other section is touched.
pub proof fn law_added_entries_read_back<V>(
    before: Map<Seq<char>, Value>,
    after: Map<Seq<char>, Value>,
    section: Seq<char>,
    entries: Entries<V>,
    reads: spec_fn(Value, V) -> bool,
    list: Seq<(String, V, Value)>,
    other: Seq<char>,
)
    requires
        distinct(entries),
        section_filled(before, after, section, named_texts(list)),
        reads_back(section_members(before, section), entries, reads),
        forall|i: int| 0 <= i < list.len() ==> reads((#[trigger] list[i]).2, list[i].1),
        other != section,
    ensures
        reads_back(
            section_members(after, section),
            inserted_all(entries, named_values(list)),
            reads,
        ),
        after.contains_key(other) == before.contains_key(other),
        before.contains_key(other) ==> after[other] == before[other],
{
    lemma_all_read_back(section_members(before, section), entries, reads, list);
    if list.len() == 0 {
        assert(named_texts(list) =~= seq![]);
    }
}

proof fn lemma_all_read_back<V>(
    members: Map<Seq<char>, Value>,
    entries: Entries<V>,
    reads: spec_fn(Value, V) -> bool,
    list: Seq<(String, V, Value)>,
)
    requires
        distinct(entries),
        reads_back(members, entries, reads),
        forall|i: int| 0 <= i < list.len() ==> reads((#[trigger] list[i]).2, list[i].1),
    ensures
        reads_back(
            members_inserted(members, named_texts(list)),
            inserted_all(entries, named_values(list)),
            reads,
        ),
    decreases list.len(),
{
    if list.len() > 0 {
        let shorter = list.drop_last();
        let last = list.last();
        assert forall|i: int| 0 <= i < shorter.len() implies reads(
            (#[trigger] shorter[i]).2,
            shorter[i].1,
        ) by {
            assert(shorter[i] == list[i]);
        }
        lemma_all_read_back(members, entries, reads, shorter);
        lemma_inserted_all(entries, named_values(shorter));
        assert(list[list.len() - 1] == last);
        lemma_insert_reads_back(
            members_inserted(members, named_texts(shorter)),
            inserted_all(entries, named_values(shorter)),
            reads,
            last.0@,
            last.1,
            last.2,
        );
        assert(list =~= shorter.push(last));
        lemma_one_more_item(shorter, last);
        assert(named_texts(list).drop_last() =~= named_texts(shorter));
    }
}

/// Where a section reads back as its entries, it does so when packages have been taken out of
/// both.
pub proof fn law_removed_entries_read_back<V>(
    before: Map<Seq<char>, Value>,
    after: Map<Seq<char>, Value>,
    sections: Set<Seq<char>>,
    section: Seq<char>,
    entries: Entries<V>,
    reads: spec_fn(Value, V) -> bool,
    gone: Seq<Seq<char>>,
)
    requires
        distinct(entries),
        sections.contains(section),
        sections_pruned(before, after, sections, gone.to_set()),
        reads_back(section_members(before, section), entries, reads),
    ensures
        reads_back(section_members(after, section), removed_all(entries, gone), reads),
{
    let left = removed_all(entries, gone);
    let members = section_members(before, section);
    let written = section_members(after, section);
    lemma_removed_all(entries, gone);
    assert forall|name: Seq<char>| #[trigger] written.contains_key(name) <==> has_key(
        left,
        name,
    ) by {
        assert(members.contains_key(name) <==> has_key(entries, name));
        assert(gone.to_set().contains(name) <==> gone.contains(name));
    }
    assert forall|name: Seq<char>| has_key(left, name) implies reads(
        written[name],
        #[trigger] lookup(left, name)->0,
    ) by {
        assert(lookup(left, name) == lookup(entries, name));
        assert(written.contains_key(name));
        assert(written[name] == members[name]);
    }
}

} // verus!
