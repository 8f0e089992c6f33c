//! Insertion-ordered maps from names to values.
//!
//! The maps are `indexmap::IndexMap`s keyed by `String`. A map is modelled by the sequence of
//! its entries, in order; the operations on that sequence are the spec functions below.
use indexmap::IndexMap;
use vstd::prelude::*;

verus! {

/// `indexmap::IndexMap`, opaque.
#[verifier::external_type_specification]
#[verifier::external_body]
#[verifier::reject_recursive_types(K)]
#[verifier::reject_recursive_types(V)]
#[verifier::reject_recursive_types(S)]
pub struct ExIndexMap<K, V, S>(IndexMap<K, V, S>);

/// The entries of an ordered map: each name with its value, in map order.
pub type Entries<V> = Seq<(Seq<char>, V)>;

/// Some entry is named `key`.
pub open spec fn has_key<V>(entries: Entries<V>, key: Seq<char>) -> bool {
    exists|i: int| 0 <= i < entries.len() && (#[trigger] entries[i]).0 == key
}

/// Where the entry named `key` stands. It means something only where there is one.
pub open spec fn position<V>(entries: Entries<V>, key: Seq<char>) -> int {
    choose|i: int| 0 <= i < entries.len() && (#[trigger] entries[i]).0 == key
}

/// The value under `key`, if there is one.
pub open spec fn lookup<V>(entries: Entries<V>, key: Seq<char>) -> Option<V> {
    if has_key(entries, key) {
        Some(entries[position(entries, key)].1)
    } else {
        None
    }
}

/// Sets the value under `key`: in place if the name is there, else at the end.
pub open spec fn inserted<V>(entries: Entries<V>, key: Seq<char>, value: V) -> Entries<V> {
    if has_key(entries, key) {
        entries.update(position(entries, key), (key, value))
    } else {
        entries.push((key, value))
    }
}

/// Takes the entry named `key` out; the last entry moves into the gap.
pub open spec fn removed<V>(entries: Entries<V>, key: Seq<char>) -> Entries<V> {
    if has_key(entries, key) {
        entries.update(position(entries, key), entries.last()).drop_last()
    } else {
        entries
    }
}

/// Takes the entries of all `keys` out, one after the other.
pub open spec fn removed_all<V>(entries: Entries<V>, keys: Seq<Seq<char>>) -> Entries<V>
    decreases keys.len(),
{
    if keys.len() == 0 {
        entries
    } else {
        removed(removed_all(entries, keys.drop_last()), keys.last())
    }
}

/// Sets the values of all of `list`, one after the other.
pub open spec fn inserted_all<V>(entries: Entries<V>, list: Entries<V>) -> Entries<V>
    decreases list.len(),
{
    if list.len() == 0 {
        entries
    } else {
        inserted(inserted_all(entries, list.drop_last()), list.last().0, list.last().1)
    }
}

/// No name occurs twice.
pub open spec fn distinct<V>(entries: Entries<V>) -> bool {
    forall|i: int, j: int|
        0 <= i < j < entries.len() ==> (#[trigger] entries[i]).0 != (#[trigger] entries[j]).0
}

/// The names, in order.
pub open spec fn names<V>(entries: Entries<V>) -> Seq<Seq<char>> {
    entries.map_values(|entry: (Seq<char>, V)| entry.0)
}

/// As many different names as entries: then no name occurs twice.
pub proof fn lemma_counted_names_are_distinct<V>(entries: Entries<V>)
    requires
        entries.len() == names(entries).to_set().len(),
    ensures
        distinct(entries),
{
    let all = names(entries);
    all.lemma_cardinality_of_set();
    all.lemma_no_dup_set_cardinality();
    assert forall|i: int, j: int| 0 <= i < j < entries.len() implies (#[trigger] entries[i]).0 != (
    #[trigger] entries[j]).0 by {
        assert(all[i] == entries[i].0 && all[j] == entries[j].0);
    }
}

/// Setting a value: the name then has that value, every other name is as before, and no name
/// occurs twice.
pub proof fn lemma_inserted<V>(entries: Entries<V>, key: Seq<char>, value: V)
    requires
        distinct(entries),
    ensures
        distinct(inserted(entries, key, value)),
        lookup(inserted(entries, key, value), key) == Some(value),
        forall|other: Seq<char>|
            other != key ==> #[trigger] lookup(inserted(entries, key, value), other) == lookup(
                entries,
                other,
            ),
        forall|other: Seq<char>| #[trigger]
            has_key(inserted(entries, key, value), other) <==> (other == key || has_key(
                entries,
                other,
            )),
{
    let after = inserted(entries, key, value);
    let at = if has_key(entries, key) {
        position(entries, key)
    } else {
        entries.len() as int
    };
    assert(after[at] == (key, value));
    assert(has_key(after, key));
    assert forall|other: Seq<char>| #[trigger]
        has_key(after, other) <==> (other == key || has_key(entries, other)) by {
        if has_key(after, other) && other != key {
            let i = position(after, other);
            assert(entries[i].0 == other);
        }
        if has_key(entries, other) {
            let i = position(entries, other);
            assert(after[i].0 == other);
        }
    }
    assert forall|other: Seq<char>| other != key implies #[trigger] lookup(after, other) == lookup(
        entries,
        other,
    ) by {
        if has_key(entries, other) {
            let i = position(entries, other);
            assert(after[i] == entries[i]);
            assert(has_key(after, other));
            assert(position(after, other) == i);
        } else {
            assert(!has_key(after, other));
        }
    }
}

/// Whether a name occurs in a list with one more entry.
proof fn lemma_one_more_name<V>(list: Entries<V>, key: Seq<char>)
    requires
        list.len() > 0,
    ensures
        has_key(list, key) <==> (has_key(list.drop_last(), key) || key == list.last().0),
{
    let before = list.drop_last();
    assert(list[list.len() - 1] == list.last());
    if has_key(list, key) && key != list.last().0 {
        let i = position(list, key);
        assert(before[i].0 == key);
    }
    if has_key(before, key) {
        let i = position(before, key);
        assert(list[i].0 == key);
    }
}

/// Setting values: the names of the list are then there, every other name is as before, and no
/// name occurs twice.
proof fn lemma_inserted_all_names<V>(entries: Entries<V>, list: Entries<V>)
    requires
        distinct(entries),
    ensures
        distinct(inserted_all(entries, list)),
        forall|key: Seq<char>| #[trigger]
            has_key(inserted_all(entries, list), key) <==> (has_key(entries, key) || has_key(
                list,
                key,
            )),
        forall|key: Seq<char>|
            !has_key(list, key) ==> #[trigger] lookup(inserted_all(entries, list), key) == lookup(
                entries,
                key,
            ),
    decreases list.len(),
{
    if list.len() > 0 {
        let before = list.drop_last();
        let last = list.last();
        let middle = inserted_all(entries, before);
        let after = inserted_all(entries, list);
        lemma_inserted_all_names(entries, before);
        lemma_inserted(middle, last.0, last.1);
        assert forall|key: Seq<char>| #[trigger] has_key(after, key) <==> (has_key(entries, key)
            || has_key(list, key)) by {
            lemma_one_more_name(list, key);
            assert(has_key(middle, key) <==> (has_key(entries, key) || has_key(before, key)));
        }
        assert forall|key: Seq<char>| !has_key(list, key) implies #[trigger] lookup(after, key)
            == lookup(entries, key) by {
            lemma_one_more_name(list, key);
            assert(lookup(after, key) == lookup(middle, key));
        }
    }
}

/// Setting values: a name has the last value that the list has for it.
proof fn lemma_last_value_counts<V>(entries: Entries<V>, list: Entries<V>, index: int)
    requires
        distinct(entries),
        0 <= index < list.len(),
        !has_key(list.skip(index + 1), list[index].0),
    ensures
        lookup(inserted_all(entries, list), list[index].0) == Some(list[index].1),
    decreases list.len(),
{
    let before = list.drop_last();
    let last = list.last();
    let middle = inserted_all(entries, before);
    lemma_inserted_all_names(entries, before);
    lemma_inserted(middle, last.0, last.1);
    if index < before.len() {
        let later = list.skip(index + 1);
        let rest = before.skip(index + 1);
        assert(later[later.len() - 1] == last);
        assert(last.0 != list[index].0);
        assert(before[index] == list[index]);
        assert forall|k: int| 0 <= k < rest.len() implies (#[trigger] rest[k]).0
            != list[index].0 by {
            assert(later[k] == rest[k]);
        }
        lemma_last_value_counts(entries, before, index);
    }
}

/// Setting values: the names of the list are then there, with the last value that the list has
/// for each, every other name is as before, and no name occurs twice.
pub proof fn lemma_inserted_all<V>(entries: Entries<V>, list: Entries<V>)
    requires
        distinct(entries),
    ensures
        distinct(inserted_all(entries, list)),
        forall|key: Seq<char>| #[trigger]
            has_key(inserted_all(entries, list), key) <==> (has_key(entries, key) || has_key(
                list,
                key,
            )),
        forall|key: Seq<char>|
            !has_key(list, key) ==> #[trigger] lookup(inserted_all(entries, list), key) == lookup(
                entries,
                key,
            ),
        forall|i: int|
            0 <= i < list.len() && !has_key(list.skip(i + 1), list[i].0) ==> lookup(
                inserted_all(entries, list),
                (#[trigger] list[i]).0,
            ) == Some(list[i].1),
{
    lemma_inserted_all_names(entries, list);
    assert forall|i: int|
        0 <= i < list.len() && !has_key(list.skip(i + 1), list[i].0) implies lookup(
        inserted_all(entries, list),
        (#[trigger] list[i]).0,
    ) == Some(list[i].1) by {
        lemma_last_value_counts(entries, list, i);
    }
}

/// The entries with each value as `model` has it.
pub open spec fn modelled<V, W>(entries: Entries<V>, model: spec_fn(V) -> W) -> Entries<W> {
    entries.map_values(|entry: (Seq<char>, V)| (entry.0, model(entry.1)))
}

/// Setting a value sets its model.
proof fn lemma_modelled_inserted<V, W>(
    entries: Entries<V>,
    model: spec_fn(V) -> W,
    key: Seq<char>,
    value: V,
)
    requires
        distinct(entries),
    ensures
        modelled(inserted(entries, key, value), model) == inserted(
            modelled(entries, model),
            key,
            model(value),
        ),
{
    let models = modelled(entries, model);
    assert(forall|i: int| 0 <= i < entries.len() ==> (#[trigger] models[i]).0 == entries[i].0);
    if has_key(entries, key) {
        let at = position(entries, key);
        assert(models[at].0 == key);
        assert(position(models, key) == at);
    } else if has_key(models, key) {
        let at = position(models, key);
        assert(entries[at].0 == key);
    }
    assert(modelled(inserted(entries, key, value), model) =~= inserted(models, key, model(value)));
}

/// Setting values sets their models.
pub proof fn lemma_modelled_inserted_all<V, W>(
    entries: Entries<V>,
    model: spec_fn(V) -> W,
    list: Entries<V>,
)
    requires
        distinct(entries),
    ensures
        modelled(inserted_all(entries, list), model) == inserted_all(
            modelled(entries, model),
            modelled(list, model),
        ),
    decreases list.len(),
{
    if list.len() > 0 {
        let before = list.drop_last();
        lemma_modelled_inserted_all(entries, model, before);
        lemma_inserted_all(entries, before);
        lemma_modelled_inserted(
            inserted_all(entries, before),
            model,
            list.last().0,
            list.last().1,
        );
        assert(modelled(list, model).drop_last() =~= modelled(before, model));
        assert(modelled(list, model).last() == (list.last().0, model(list.last().1)));
    }
}

/// Taking a name out: it is then gone, every other name is as before, and no name occurs twice.
pub proof fn lemma_removed<V>(entries: Entries<V>, key: Seq<char>)
    requires
        distinct(entries),
    ensures
        distinct(removed(entries, key)),
        !has_key(removed(entries, key), key),
        forall|other: Seq<char>|
            other != key ==> #[trigger] lookup(removed(entries, key), other) == lookup(
                entries,
                other,
            ),
        forall|other: Seq<char>| #[trigger]
            has_key(removed(entries, key), other) <==> (other != key && has_key(entries, other)),
{
    let after = removed(entries, key);
    if has_key(entries, key) {
        let at = position(entries, key);
        let end = entries.len() - 1;
        assert forall|other: Seq<char>| #[trigger]
            has_key(after, other) <==> (other != key && has_key(entries, other)) by {
            if has_key(after, other) {
                let i = position(after, other);
                let from = if i == at {
                    end
                } else {
                    i
                };
                assert(entries[from].0 == other);
            }
            if other != key && has_key(entries, other) {
                let i = position(entries, other);
                let to = if i == end {
                    at
                } else {
                    i
                };
                assert(after[to].0 == other);
            }
        }
        assert forall|other: Seq<char>| other != key implies #[trigger] lookup(after, other)
            == lookup(entries, other) by {
            assert(has_key(after, other) == has_key(entries, other));
            if has_key(entries, other) {
                let i = position(entries, other);
                let to = if i == end {
                    at
                } else {
                    i
                };
                assert(after[to] == entries[i]);
                assert(position(after, other) == to);
            }
        }
    }
}

/// Taking names out: those are then gone, every other name is as before, and no name occurs
/// twice.
pub proof fn lemma_removed_all<V>(entries: Entries<V>, keys: Seq<Seq<char>>)
    requires
        distinct(entries),
    ensures
        distinct(removed_all(entries, keys)),
        forall|key: Seq<char>| #[trigger]
            lookup(removed_all(entries, keys), key) == (if keys.contains(key) {
                None
            } else {
                lookup(entries, key)
            }),
        forall|key: Seq<char>| #[trigger]
            has_key(removed_all(entries, keys), key) <==> (has_key(entries, key) && !keys.contains(
                key,
            )),
    decreases keys.len(),
{
    if keys.len() > 0 {
        let before = keys.drop_last();
        let last = keys.last();
        lemma_removed_all(entries, before);
        lemma_removed(removed_all(entries, before), last);
        assert(keys[keys.len() - 1] == last);
        assert forall|key: Seq<char>| #[trigger] keys.contains(key) <==> (before.contains(key)
            || key == last) by {
            if keys.contains(key) && key != last {
                let i = keys.index_of(key);
                assert(before[i] == key);
            }
            if before.contains(key) {
                let i = before.index_of(key);
                assert(keys[i] == key);
            }
        }
        assert forall|key: Seq<char>| #[trigger] lookup(removed_all(entries, keys), key) == (
        if keys.contains(key) {
            None
        } else {
            lookup(entries, key)
        }) by {
            assert(keys.contains(key) <==> (before.contains(key) || key == last));
            if key != last {
                assert(lookup(removed_all(entries, keys), key) == lookup(
                    removed_all(entries, before),
                    key,
                ));
            }
        }
    }
}

} // verus!
