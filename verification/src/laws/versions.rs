//! The order of versions and what ranges accept.
use crate::order::{char_order, lex_order, text_order, Order};
use crate::selector::VersionSelector;
use crate::version::{
    identifier_order, list_accepts, list_order, range_accepts, ComparatorView, Identifier,
    IdentifierView, Operator, RangeView, Version, VersionRange, VersionView,
};
use vstd::prelude::*;

verus! {

/// The first difference decides the order of two lists.
proof fn lemma_first_difference<T>(
    a: Seq<T>,
    b: Seq<T>,
    order: spec_fn(T, T) -> Order,
    at: int,
)
    requires
        0 <= at < a.len(),
        at < b.len(),
        forall|i: int| 0 <= i < at ==> #[trigger] a[i] == b[i],
        forall|x: T| #[trigger] order(x, x) == Order::Equal,
        order(a[at], b[at]) != Order::Equal,
    ensures
        lex_order(a, b, order) == order(a[at], b[at]),
    decreases at,
{
    if at > 0 {
        let x = a.drop_first();
        let y = b.drop_first();
        assert(a[0] == b[0]);
        assert forall|i: int| 0 <= i < at - 1 implies #[trigger] x[i] == y[i] by {
            assert(a[i + 1] == b[i + 1]);
        }
        lemma_first_difference(x, y, order, at - 1);
        assert(order(a[0], a[0]) == Order::Equal);
    }
}

/// A list comes before every longer one that begins with it.
proof fn lemma_prefix_comes_first<T>(a: Seq<T>, b: Seq<T>, order: spec_fn(T, T) -> Order)
    requires
        a.len() <= b.len(),
        forall|i: int| 0 <= i < a.len() ==> #[trigger] a[i] == b[i],
        forall|x: T| #[trigger] order(x, x) == Order::Equal,
    ensures
        lex_order(a, b, order) == (if a.len() < b.len() {
            Order::Less
        } else {
            Order::Equal
        }),
    decreases a.len(),
{
    if a.len() > 0 {
        let x = a.drop_first();
        let y = b.drop_first();
        assert(a[0] == b[0]);
        assert forall|i: int| 0 <= i < x.len() implies #[trigger] x[i] == y[i] by {
            assert(a[i + 1] == b[i + 1]);
        }
        lemma_prefix_comes_first(x, y, order);
        assert(order(a[0], a[0]) == Order::Equal);
    }
}

proof fn lemma_same_identifier(x: IdentifierView)
    ensures
        identifier_order()(x, x) == Order::Equal,
{
    match x {
        IdentifierView::Text(text) => {
            lemma_same_text(text);
        },
        IdentifierView::Number(_) => {},
    }
}

proof fn lemma_same_text(text: Seq<char>)
    ensures
        text_order(text, text) == Order::Equal,
{
    lemma_prefix_comes_first(text, text, char_order());
}

/// Two texts with a first difference at `at` stand as the characters there; a text comes before
/// every longer one that begins with it.
pub proof fn law_texts_are_ordered_by_character(a: Seq<char>, b: Seq<char>, at: int)
    requires
        0 <= at <= a.len(),
        at <= b.len(),
        forall|i: int| 0 <= i < at ==> #[trigger] a[i] == b[i],
    ensures
        at < a.len() && at < b.len() && (a[at] as int) < (b[at] as int) ==> text_order(a, b)
            == Order::Less,
        at < a.len() && at < b.len() && (a[at] as int) > (b[at] as int) ==> text_order(a, b)
            == Order::Greater,
        at == a.len() && at < b.len() ==> text_order(a, b) == Order::Less,
        at == a.len() && at == b.len() ==> text_order(a, b) == Order::Equal,
{
    let order = char_order();
    if at < a.len() && at < b.len() && a[at] != b[at] {
        lemma_first_difference(a, b, order, at);
    }
    if at == a.len() {
        lemma_prefix_comes_first(a, b, order);
    }
}

/// Numbers are ordered by value and come before texts, which are ordered by character.
pub proof fn law_identifiers_are_ordered(m: u64, n: u64, a: Seq<char>, b: Seq<char>)
    ensures
        m < n ==> identifier_order()(IdentifierView::Number(m), IdentifierView::Number(n))
            == Order::Less,
        m > n ==> identifier_order()(IdentifierView::Number(m), IdentifierView::Number(n))
            == Order::Greater,
        identifier_order()(IdentifierView::Number(m), IdentifierView::Text(a)) == Order::Less,
        identifier_order()(IdentifierView::Text(a), IdentifierView::Number(m)) == Order::Greater,
        identifier_order()(IdentifierView::Text(a), IdentifierView::Text(b)) == text_order(a, b),
{
}

/// Two lists of identifiers with a first difference at `at` stand as the identifiers there; a
/// list comes before every longer one that begins with it.
pub proof fn law_lists_are_ordered_by_identifier(
    a: Seq<IdentifierView>,
    b: Seq<IdentifierView>,
    at: int,
)
    requires
        0 <= at <= a.len(),
        at <= b.len(),
        forall|i: int| 0 <= i < at ==> #[trigger] a[i] == b[i],
    ensures
        at < a.len() && at < b.len() && identifier_order()(a[at], b[at]) != Order::Equal
            ==> list_order(a, b) == identifier_order()(a[at], b[at]),
        at == a.len() && at < b.len() ==> list_order(a, b) == Order::Less,
        at == a.len() && at == b.len() ==> list_order(a, b) == Order::Equal,
{
    let order = identifier_order();
    assert forall|x: IdentifierView| #[trigger] order(x, x) == Order::Equal by {
        lemma_same_identifier(x);
    }
    if at < a.len() && at < b.len() && order(a[at], b[at]) != Order::Equal {
        lemma_first_difference(a, b, order, at);
    }
    if at == a.len() {
        lemma_prefix_comes_first(a, b, order);
    }
}

/// The first number that differs decides, whatever else the versions have.
pub proof fn law_numbers_decide(a: VersionView, b: VersionView)
    requires
        a.major < b.major || (a.major == b.major && (a.minor < b.minor || (a.minor == b.minor
            && a.patch < b.patch))),
    ensures
        a.precedence(b) == Order::Less,
        b.precedence(a) == Order::Greater,
        a.order(b) == Order::Less,
        b.order(a) == Order::Greater,
        a.before(b),
        !b.before(a),
{
}

/// Of versions with the same numbers a pre-release comes before the release, and two
/// pre-releases stand as their tags.
pub proof fn law_tags_decide_next(a: VersionView, b: VersionView)
    requires
        a.major == b.major,
        a.minor == b.minor,
        a.patch == b.patch,
    ensures
        a.pre.len() > 0 && b.pre.len() == 0 ==> a.precedence(b) == Order::Less && a.before(b)
            && !b.before(a) && b.precedence(a) == Order::Greater,
        a.pre.len() > 0 && b.pre.len() > 0 ==> a.precedence(b) == list_order(a.pre, b.pre),
        a.pre.len() > 0 && b.pre.len() > 0 && list_order(a.pre, b.pre) == Order::Less ==> a.before(
            b,
        ),
        a.pre.len() == 0 && b.pre.len() == 0 ==> a.precedence(b) == Order::Equal,
{
}

/// Of versions that differ in build metadata alone none takes precedence, and they stand as that
/// metadata.
pub proof fn law_build_decides_last(a: VersionView, b: VersionView)
    requires
        a.major == b.major,
        a.minor == b.minor,
        a.patch == b.patch,
        a.pre == b.pre,
    ensures
        a.precedence(b) == Order::Equal,
        a.order(b) == list_order(a.build, b.build),
        a.before(b) <==> list_order(a.build, b.build) == Order::Less,
{
    law_lists_are_ordered_by_identifier(a.pre, b.pre, a.pre.len() as int);
}

/// A version is a release if and only if it has no pre-release tag.
pub proof fn law_release_has_no_tag(version: VersionView)
    ensures
        version.is_release() <==> version.pre.len() == 0,
{
}

/// The model of a version has all that the version has.
pub proof fn law_version_is_modelled_in_full(version: Version)
    ensures
        version@.major == version.major,
        version@.minor == version.minor,
        version@.patch == version.patch,
        version@.pre.len() == version.pre@.len(),
        version@.build.len() == version.build@.len(),
        forall|i: int|
            0 <= i < version.pre@.len() ==> #[trigger] version@.pre[i] == (match version.pre@[i] {
                Identifier::Number(number) => IdentifierView::Number(number),
                Identifier::Text(text) => IdentifierView::Text(text@),
            }),
        forall|i: int|
            0 <= i < version.build@.len() ==> #[trigger] version@.build[i] == (
            match version.build@[i] {
                Identifier::Number(number) => IdentifierView::Number(number),
                Identifier::Text(text) => IdentifierView::Text(text@),
            }),
{
}

/// The model of a range has all its comparators.
pub proof fn law_range_is_modelled_in_full(range: VersionRange)
    ensures
        range@.len() == range.alternatives@.len(),
        forall|i: int|
            0 <= i < range@.len() ==> (#[trigger] range@[i]).len()
                == range.alternatives@[i]@.len(),
        forall|i: int, j: int|
            0 <= i < range@.len() && 0 <= j < range@[i].len() ==> (#[trigger] range@[i][j]).operator
                == range.alternatives@[i]@[j].operator && range@[i][j].version
                == range.alternatives@[i]@[j].version@,
{
}

/// The version stands to that of the comparator as its operator says.
pub open spec fn stands_right(comparator: ComparatorView, version: VersionView) -> bool {
    let order = version.precedence(comparator.version);
    match comparator.operator {
        Operator::Less => order == Order::Less,
        Operator::LessOrEqual => order == Order::Less || order == Order::Equal,
        Operator::Equal => order == Order::Equal,
        Operator::GreaterOrEqual => order == Order::Greater || order == Order::Equal,
        Operator::Greater => order == Order::Greater,
    }
}

/// The version stands right to every comparator of the list.
pub open spec fn stands_right_to_all(list: Seq<ComparatorView>, version: VersionView) -> bool {
    forall|j: int| 0 <= j < list.len() ==> stands_right(#[trigger] list[j], version)
}

/// The list has a comparator that names a pre-release of the version's three numbers.
pub open spec fn names_pre_release(list: Seq<ComparatorView>, version: VersionView) -> bool {
    exists|k: int| #![trigger list[k]]
        0 <= k < list.len() && list[k].version.pre.len() > 0 && list[k].version.major
            == version.major && list[k].version.minor == version.minor && list[k].version.patch
            == version.patch
}

/// A range accepts a version exactly if in one of its alternatives the version stands right to
/// every comparator and, if it is a pre-release, one of these names a pre-release of the same
/// three numbers.
pub proof fn law_range_accepts(range: RangeView, version: VersionView)
    ensures
        range_accepts(range, version) <==> exists|i: int|
            0 <= i < range.len() && stands_right_to_all(#[trigger] range[i], version) && (
            version.pre.len() == 0 || names_pre_release(range[i], version)),
{
    assert forall|i: int| 0 <= i < range.len() implies list_accepts(#[trigger] range[i], version)
        == (stands_right_to_all(range[i], version) && (version.pre.len() == 0
        || names_pre_release(range[i], version))) by {
        let list = range[i];
        if list_accepts(list, version) {
            assert forall|j: int| 0 <= j < list.len() implies stands_right(
                #[trigger] list[j],
                version,
            ) by {
                assert(list[j].accepts(version));
            }
            if version.pre.len() > 0 {
                let k = choose|k: int| 0 <= k < list.len() && (#[trigger] list[k]).opens(version);
                assert(list[k].opens(version));
            }
        }
        if stands_right_to_all(list, version) && (version.pre.len() == 0 || names_pre_release(
            list,
            version,
        )) {
            assert forall|j: int| 0 <= j < list.len() implies (#[trigger] list[j]).accepts(
                version,
            ) by {
                assert(stands_right(list[j], version));
            }
            if version.pre.len() > 0 {
                let k = choose|k: int| #![trigger list[k]]
                    0 <= k < list.len() && list[k].version.pre.len() > 0 && list[k].version.major
                        == version.major && list[k].version.minor == version.minor
                        && list[k].version.patch == version.patch;
                assert(list[k].opens(version));
            }
        }
    }
}

/// Another alternative only adds to what a range accepts, and what is added is what it accepts
/// alone. A range without alternatives accepts nothing.
pub proof fn law_alternatives_add_up(
    range: RangeView,
    list: Seq<ComparatorView>,
    version: VersionView,
)
    ensures
        range_accepts(range.push(list), version) <==> (range_accepts(range, version)
            || range_accepts(seq![list], version)),
        !range_accepts(Seq::<Seq<ComparatorView>>::empty(), version),
{
    let more = range.push(list);
    let one = seq![list];
    assert(more[range.len() as int] == list);
    assert(one[0] == list);
    if range_accepts(range, version) {
        let i = choose|i: int|
            0 <= i < range.len() && list_accepts(#[trigger] range[i], version);
        assert(more[i] == range[i]);
    }
    if range_accepts(more, version) {
        let i = choose|i: int|
            0 <= i < more.len() && list_accepts(#[trigger] more[i], version);
        if i < range.len() {
            assert(range[i] == more[i]);
        }
    }
    if range_accepts(one, version) {
        assert(list_accepts(more[range.len() as int], version));
    }
}

/// Which versions a selector takes: `Latest` those without a pre-release tag, `Specific` its
/// version in all its parts, `Range` those of its range, and `Ranges` those that are in every
/// range of the list, at every place of it.
pub proof fn law_selectors_take(
    version: VersionView,
    wanted: Version,
    range: VersionRange,
    ranges: &[&VersionRange],
)
    ensures
        VersionSelector::Latest.selects(version) <==> version.pre.len() == 0,
        VersionSelector::LatestIncluidingPrerelease.selects(version),
        VersionSelector::Specific(&wanted).selects(version) <==> (version.major == wanted.major
            && version.minor == wanted.minor && version.patch == wanted.patch && version.pre
            == wanted@.pre && version.build == wanted@.build),
        VersionSelector::Range(&range).selects(version) <==> range_accepts(range@, version),
        VersionSelector::Ranges(ranges).selects(version) <==> forall|i: int|
            0 <= i < ranges@.len() ==> range_accepts((#[trigger] ranges@[i])@, version),
{
    if version.major == wanted.major && version.minor == wanted.minor && version.patch
        == wanted.patch && version.pre == wanted@.pre && version.build == wanted@.build {
        assert(version =~= wanted@);
    }
}

/// `Ranges` takes exactly the versions that are in every range of the list.
pub proof fn law_selectors_take_ranges(ranges: &[&VersionRange])
    ensures
        forall|version: VersionView| #[trigger]
            VersionSelector::Ranges(ranges).selects(version) <==> forall|i: int|
                0 <= i < ranges@.len() ==> range_accepts((#[trigger] ranges@[i])@, version),
{
}

} // verus!
