//! Facts about sequences.
use vstd::prelude::*;

verus! {

/// Filtering a sequence with one more element.
pub proof fn lemma_filter_push<T>(list: Seq<T>, element: T, keep: spec_fn(T) -> bool)
    ensures
        list.push(element).filter(keep) == (if keep(element) {
            list.filter(keep).push(element)
        } else {
            list.filter(keep)
        }),
{
    reveal(Seq::filter);
    assert(list.push(element).drop_last() =~= list);
}

/// A filtered sequence holds the elements of the sequence that pass.
pub proof fn lemma_filter_contains<T>(list: Seq<T>, keep: spec_fn(T) -> bool, element: T)
    ensures
        list.filter(keep).contains(element) <==> (list.contains(element) && keep(element)),
    decreases list.len(),
{
    reveal(Seq::filter);
    if list.len() > 0 {
        let shorter = list.drop_last();
        let last = list.last();
        lemma_filter_contains(shorter, keep, element);
        assert(list[list.len() - 1] == last);
        assert(list.contains(element) <==> (shorter.contains(element) || element == last)) by {
            if list.contains(element) && element != last {
                let i = list.index_of(element);
                assert(shorter[i] == element);
            }
            if shorter.contains(element) {
                let i = shorter.index_of(element);
                assert(list[i] == element);
            }
        }
        let kept = shorter.filter(keep);
        if keep(last) {
            assert(kept.push(last)[kept.len() as int] == last);
            assert(kept.push(last).contains(element) <==> (kept.contains(element) || element
                == last)) by {
                if kept.push(last).contains(element) && element != last {
                    let i = kept.push(last).index_of(element);
                    assert(kept[i] == element);
                }
                if kept.contains(element) {
                    let i = kept.index_of(element);
                    assert(kept.push(last)[i] == element);
                }
            }
        }
    }
}

/// The elements of a sequence with one more.
pub proof fn lemma_push_to_set<T>(list: Seq<T>, element: T)
    ensures
        list.push(element).to_set() == list.to_set().union(set![element]),
{
    let longer = list.push(element);
    assert(longer[list.len() as int] == element);
    assert forall|other: T| longer.contains(other) implies list.contains(other) || other
        == element by {
        let i = longer.index_of(other);
        if i < list.len() {
            assert(list[i] == other);
        }
    }
    assert forall|other: T| list.contains(other) implies longer.contains(other) by {
        let i = list.index_of(other);
        assert(longer[i] == other);
    }
    assert(longer.to_set() =~= list.to_set().union(set![element]));
}

/// The elements that `keep` marks, in order.
pub open spec fn select<T>(list: Seq<T>, keep: Seq<bool>) -> Seq<T>
    recommends
        list.len() == keep.len(),
    decreases list.len(),
{
    if list.len() == 0 {
        seq![]
    } else {
        (if keep[0] {
            seq![list[0]]
        } else {
            seq![]
        }) + select(list.drop_first(), keep.drop_first())
    }
}

/// Selecting from a sequence: the first element, then the rest.
pub proof fn lemma_select_front<T>(list: Seq<T>, keep: Seq<bool>)
    requires
        list.len() == keep.len(),
        list.len() > 0,
    ensures
        select(list, keep) == (if keep[0] {
            seq![list[0]] + select(list.drop_first(), keep.drop_first())
        } else {
            select(list.drop_first(), keep.drop_first())
        }),
{
    let rest = select(list.drop_first(), keep.drop_first());
    assert(Seq::<T>::empty() + rest =~= rest);
}

/// Selecting from a sequence with one more element.
pub proof fn lemma_select_push<T>(list: Seq<T>, keep: Seq<bool>, element: T, kept: bool)
    requires
        list.len() == keep.len(),
    ensures
        select(list.push(element), keep.push(kept)) == (if kept {
            select(list, keep).push(element)
        } else {
            select(list, keep)
        }),
    decreases list.len(),
{
    let longer = list.push(element);
    let flags = keep.push(kept);
    if list.len() == 0 {
        assert(longer.drop_first() =~= seq![]);
        assert(select(longer.drop_first(), flags.drop_first()) =~= seq![]);
        assert(longer[0] == element && flags[0] == kept);
        assert(select(list, keep) =~= seq![]);
        if kept {
            assert(seq![element] + Seq::<T>::empty() =~= Seq::<T>::empty().push(element));
        } else {
            assert(Seq::<T>::empty() + Seq::<T>::empty() =~= Seq::<T>::empty());
        }
    } else {
        lemma_select_push(list.drop_first(), keep.drop_first(), element, kept);
        assert(longer.drop_first() =~= list.drop_first().push(element));
        assert(flags.drop_first() =~= keep.drop_first().push(kept));
        assert(longer[0] == list[0] && flags[0] == keep[0]);
        let rest = select(list.drop_first(), keep.drop_first());
        let head = if keep[0] {
            seq![list[0]]
        } else {
            seq![]
        };
        assert(head + rest.push(element) =~= (head + rest).push(element));
    }
}

/// What is selected from a sequence is in it.
pub proof fn lemma_selected_is_there<T>(list: Seq<T>, keep: Seq<bool>, element: T)
    requires
        list.len() == keep.len(),
        select(list, keep).contains(element),
    ensures
        list.contains(element),
    decreases list.len(),
{
    if list.len() > 0 {
        let rest = list.drop_first();
        let selected = select(list, keep);
        let later = select(rest, keep.drop_first());
        lemma_select_front(list, keep);
        let i = selected.index_of(element);
        if keep[0] && i == 0 {
            assert(list[0] == element);
        } else {
            let at = if keep[0] {
                i - 1
            } else {
                i
            };
            assert(later[at] == element);
            lemma_selected_is_there(rest, keep.drop_first(), element);
            let k = rest.index_of(element);
            assert(list[k + 1] == element);
        }
    }
}

} // verus!
