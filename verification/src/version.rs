//! Package versions and version ranges, after Semantic Versioning.
use crate::order::{
    char_order, compare_numbers, compare_texts, int_order, lemma_lex_equal, lemma_lex_flip,
    lemma_lex_total, lemma_lex_transitive, lex_order, text_order, total_order, Order,
};
use vstd::prelude::*;

verus! {

/// One dot-separated part of a pre-release tag or of build metadata.
#[derive(Debug)]
pub enum Identifier {
    Number(u64),
    Text(String),
}

/// The model of an [`Identifier`].
pub enum IdentifierView {
    Number(u64),
    Text(Seq<char>),
}

impl View for Identifier {
    type V = IdentifierView;

    open spec fn view(&self) -> IdentifierView {
        match self {
            Identifier::Number(number) => IdentifierView::Number(*number),
            Identifier::Text(text) => IdentifierView::Text(text@),
        }
    }
}

impl Clone for Identifier {
    fn clone(&self) -> (copy: Self)
        ensures
            copy@ == self@,
    {
        match self {
            Identifier::Number(number) => Identifier::Number(*number),
            Identifier::Text(text) => Identifier::Text(text.clone()),
        }
    }
}

/// A version: three numbers, a pre-release tag and build metadata.
#[derive(Debug)]
pub struct Version {
    pub major: u64,
    pub minor: u64,
    pub patch: u64,
    /// The pre-release tag; a release has none.
    pub pre: Vec<Identifier>,
    pub build: Vec<Identifier>,
}

/// The model of a [`Version`].
#[verifier::ext_equal]
pub struct VersionView {
    pub major: u64,
    pub minor: u64,
    pub patch: u64,
    pub pre: Seq<IdentifierView>,
    pub build: Seq<IdentifierView>,
}

/// The models of a list of identifiers.
pub open spec fn identifier_views(list: Seq<Identifier>) -> Seq<IdentifierView> {
    list.map_values(|part: Identifier| part@)
}

impl View for Version {
    type V = VersionView;

    open spec fn view(&self) -> VersionView {
        VersionView {
            major: self.major,
            minor: self.minor,
            patch: self.patch,
            pre: identifier_views(self.pre@),
            build: identifier_views(self.build@),
        }
    }
}

/// The order of identifiers: numbers by value and before texts, texts by code point.
pub open spec fn identifier_order() -> spec_fn(IdentifierView, IdentifierView) -> Order {
    |a: IdentifierView, b: IdentifierView|
        match (a, b) {
            (IdentifierView::Number(x), IdentifierView::Number(y)) => int_order(x as int, y as int),
            (IdentifierView::Number(_), IdentifierView::Text(_)) => Order::Less,
            (IdentifierView::Text(_), IdentifierView::Number(_)) => Order::Greater,
            (IdentifierView::Text(x), IdentifierView::Text(y)) => text_order(x, y),
        }
}

/// The order of two lists of identifiers, part by part.
pub open spec fn list_order(a: Seq<IdentifierView>, b: Seq<IdentifierView>) -> Order {
    lex_order(a, b, identifier_order())
}

/// The order of pre-release tags: a release comes after all its pre-releases.
pub open spec fn pre_order(a: Seq<IdentifierView>, b: Seq<IdentifierView>) -> Order {
    if a.len() == 0 && b.len() == 0 {
        Order::Equal
    } else if a.len() == 0 {
        Order::Greater
    } else if b.len() == 0 {
        Order::Less
    } else {
        list_order(a, b)
    }
}

impl VersionView {
    /// A version without a pre-release tag.
    pub open spec fn is_release(self) -> bool {
        self.pre.len() == 0
    }

    /// The precedence of versions: everything but the build metadata.
    pub open spec fn precedence(self, other: VersionView) -> Order {
        int_order(self.major as int, other.major as int).or_else(
            int_order(self.minor as int, other.minor as int),
        ).or_else(int_order(self.patch as int, other.patch as int)).or_else(
            pre_order(self.pre, other.pre),
        )
    }

    /// The order of versions: by precedence, then by build metadata.
    pub open spec fn order(self, other: VersionView) -> Order {
        self.precedence(other).or_else(list_order(self.build, other.build))
    }

    /// `self` comes before `other`.
    pub open spec fn before(self, other: VersionView) -> bool {
        self.order(other) == Order::Less
    }
}

proof fn lemma_identifier_order_total()
    ensures
        total_order(identifier_order()),
{
    let order = identifier_order();
    assert(total_order(char_order()));
    assert forall|a: IdentifierView, b: IdentifierView| #[trigger]
        order(a, b) == Order::Equal <==> a == b by {
        if let (IdentifierView::Text(x), IdentifierView::Text(y)) = (a, b) {
            lemma_lex_equal(x, y, char_order());
        }
    }
    assert forall|a: IdentifierView, b: IdentifierView| #[trigger]
        order(a, b) == order(b, a).flipped() by {
        if let (IdentifierView::Text(x), IdentifierView::Text(y)) = (a, b) {
            lemma_lex_flip(x, y, char_order());
        }
    }
    assert forall|a: IdentifierView, b: IdentifierView, c: IdentifierView|
        #[trigger] order(a, b) == Order::Less && #[trigger] order(b, c)
            == Order::Less implies order(a, c) == Order::Less by {
        if let (IdentifierView::Text(x), IdentifierView::Text(y), IdentifierView::Text(z)) = (
            a,
            b,
            c,
        ) {
            lemma_lex_transitive(x, y, z, char_order());
        }
    }
}

/// Versions compare as equal if and only if they are equal.
pub proof fn law_version_order_equal(a: VersionView, b: VersionView)
    ensures
        a.order(b) == Order::Equal <==> a == b,
{
    lemma_identifier_order_total();
    lemma_lex_equal(a.pre, b.pre, identifier_order());
    lemma_lex_equal(a.build, b.build, identifier_order());
    if a.pre.len() == 0 && b.pre.len() == 0 {
        assert(a.pre =~= b.pre);
    }
}

/// Of two versions each stands to the other as the other to it, turned round.
pub proof fn law_version_order_flips(a: VersionView, b: VersionView)
    ensures
        a.order(b) == b.order(a).flipped(),
        a.precedence(b) == b.precedence(a).flipped(),
{
    lemma_identifier_order_total();
    lemma_lex_flip(a.pre, b.pre, identifier_order());
    lemma_lex_flip(a.build, b.build, identifier_order());
}

/// A version before another that is before a third is before the third.
pub proof fn law_version_order_transitive(a: VersionView, b: VersionView, c: VersionView)
    requires
        a.before(b),
        b.before(c),
    ensures
        a.before(c),
{
    lemma_identifier_order_total();
    lemma_lex_total(identifier_order());
    lemma_lex_equal(a.pre, b.pre, identifier_order());
    lemma_lex_equal(b.pre, c.pre, identifier_order());
    lemma_lex_equal(a.pre, c.pre, identifier_order());
    lemma_lex_equal(a.build, b.build, identifier_order());
    lemma_lex_equal(b.build, c.build, identifier_order());
    if list_order(a.build, b.build) == Order::Less && list_order(b.build, c.build) == Order::Less {
        lemma_lex_transitive(a.build, b.build, c.build, identifier_order());
    }
    if list_order(a.pre, b.pre) == Order::Less && list_order(b.pre, c.pre) == Order::Less {
        lemma_lex_transitive(a.pre, b.pre, c.pre, identifier_order());
    }
}

/// Compares two identifiers.
fn compare_identifiers(a: &Identifier, b: &Identifier) -> (order: Order)
    ensures
        order == identifier_order()(a@, b@),
{
    match (a, b) {
        (Identifier::Number(x), Identifier::Number(y)) => compare_numbers(*x, *y),
        (Identifier::Number(_), Identifier::Text(_)) => Order::Less,
        (Identifier::Text(_), Identifier::Number(_)) => Order::Greater,
        (Identifier::Text(x), Identifier::Text(y)) => compare_texts(x.as_str(), y.as_str()),
    }
}

/// Compares two lists of identifiers.
fn compare_lists(a: &Vec<Identifier>, b: &Vec<Identifier>) -> (order: Order)
    ensures
        order == list_order(identifier_views(a@), identifier_views(b@)),
{
    let ghost left = identifier_views(a@);
    let ghost right = identifier_views(b@);
    let mut i: usize = 0;
    proof {
        assert(left.skip(0) =~= left);
        assert(right.skip(0) =~= right);
    }
    while i < a.len() && i < b.len()
        invariant
            left == identifier_views(a@),
            right == identifier_views(b@),
            i <= a.len(),
            i <= b.len(),
            list_order(left, right) == list_order(left.skip(i as int), right.skip(i as int)),
        decreases a.len() - i,
    {
        proof {
            assert(left.skip(i as int).drop_first() =~= left.skip(i + 1));
            assert(right.skip(i as int).drop_first() =~= right.skip(i + 1));
        }
        let order = compare_identifiers(&a[i], &b[i]);
        if order != Order::Equal {
            return order;
        }
        i += 1;
    }
    if i < b.len() {
        Order::Less
    } else if i < a.len() {
        Order::Greater
    } else {
        Order::Equal
    }
}

/// Copies a list of identifiers.
fn clone_list(list: &Vec<Identifier>) -> (copy: Vec<Identifier>)
    ensures
        identifier_views(copy@) == identifier_views(list@),
{
    let mut copy: Vec<Identifier> = Vec::new();
    let mut i: usize = 0;
    while i < list.len()
        invariant
            i <= list.len(),
            copy.len() == i,
            forall|j: int| 0 <= j < i ==> (#[trigger] copy@[j])@ == list@[j]@,
        decreases list.len() - i,
    {
        copy.push(list[i].clone());
        i += 1;
    }
    proof {
        assert(identifier_views(copy@) =~= identifier_views(list@));
    }
    copy
}

impl Clone for Version {
    fn clone(&self) -> (copy: Self)
        ensures
            copy@ == self@,
    {
        Version {
            major: self.major,
            minor: self.minor,
            patch: self.patch,
            pre: clone_list(&self.pre),
            build: clone_list(&self.build),
        }
    }
}

impl PartialEq for Version {
    fn eq(&self, other: &Self) -> (equal: bool) {
        proof {
            law_version_order_equal(self@, other@);
        }
        self.compare(other) == Order::Equal
    }
}

impl vstd::std_specs::cmp::PartialEqSpecImpl for Version {
    open spec fn obeys_eq_spec() -> bool {
        true
    }

    open spec fn eq_spec(&self, other: &Self) -> bool {
        self@ == other@
    }
}

impl Version {
    /// A release: three numbers and nothing else.
    pub fn new(major: u64, minor: u64, patch: u64) -> (version: Version)
        ensures
            version@ == (VersionView { major, minor, patch, pre: seq![], build: seq![] }),
    {
        let version = Version { major, minor, patch, pre: Vec::new(), build: Vec::new() };
        proof {
            assert(version@.pre =~= seq![]);
            assert(version@.build =~= seq![]);
        }
        version
    }

    /// Whether there is no pre-release tag.
    pub fn is_release(&self) -> (release: bool)
        ensures
            release == self@.is_release(),
    {
        self.pre.len() == 0
    }

    /// Compares by everything but the build metadata.
    pub fn compare_precedence(&self, other: &Version) -> (order: Order)
        ensures
            order == self@.precedence(other@),
    {
        let major = compare_numbers(self.major, other.major);
        if major != Order::Equal {
            return major;
        }
        let minor = compare_numbers(self.minor, other.minor);
        if minor != Order::Equal {
            return minor;
        }
        let patch = compare_numbers(self.patch, other.patch);
        if patch != Order::Equal {
            return patch;
        }
        if self.pre.len() == 0 && other.pre.len() == 0 {
            Order::Equal
        } else if self.pre.len() == 0 {
            Order::Greater
        } else if other.pre.len() == 0 {
            Order::Less
        } else {
            compare_lists(&self.pre, &other.pre)
        }
    }

    /// Compares two versions.
    pub fn compare(&self, other: &Version) -> (order: Order)
        ensures
            order == self@.order(other@),
    {
        let precedence = self.compare_precedence(other);
        if precedence != Order::Equal {
            return precedence;
        }
        compare_lists(&self.build, &other.build)
    }

    /// Whether this version comes before `other`.
    pub fn is_before(&self, other: &Version) -> (before: bool)
        ensures
            before == self@.before(other@),
    {
        self.compare(other) == Order::Less
    }
}

/// How a version has to stand to the version of a comparator.
#[derive(Clone, Copy, PartialEq, Eq, Debug, Structural)]
pub enum Operator {
    Less,
    LessOrEqual,
    Equal,
    GreaterOrEqual,
    Greater,
}

impl Operator {
    /// Whether a version that stands so satisfies the operator.
    pub open spec fn accepts(self, order: Order) -> bool {
        match self {
            Operator::Less => order == Order::Less,
            Operator::LessOrEqual => order != Order::Greater,
            Operator::Equal => order == Order::Equal,
            Operator::GreaterOrEqual => order != Order::Less,
            Operator::Greater => order == Order::Greater,
        }
    }

    /// Whether a version that stands so satisfies the operator.
    pub fn admits(self, order: Order) -> (admitted: bool)
        ensures
            admitted == self.accepts(order),
    {
        match self {
            Operator::Less => order == Order::Less,
            Operator::LessOrEqual => order != Order::Greater,
            Operator::Equal => order == Order::Equal,
            Operator::GreaterOrEqual => order != Order::Less,
            Operator::Greater => order == Order::Greater,
        }
    }
}

/// An operator with the version that it compares to.
#[derive(Debug)]
pub struct Comparator {
    pub operator: Operator,
    pub version: Version,
}

/// The model of a [`Comparator`].
pub struct ComparatorView {
    pub operator: Operator,
    pub version: VersionView,
}

impl View for Comparator {
    type V = ComparatorView;

    open spec fn view(&self) -> ComparatorView {
        ComparatorView { operator: self.operator, version: self.version@ }
    }
}

impl Clone for Comparator {
    fn clone(&self) -> (copy: Self)
        ensures
            copy@ == self@,
    {
        Comparator { operator: self.operator, version: self.version.clone() }
    }
}

impl ComparatorView {
    /// The version stands to the comparator's as the operator asks.
    pub open spec fn accepts(self, version: VersionView) -> bool {
        self.operator.accepts(version.precedence(self.version))
    }

    /// The comparator names a pre-release of the same three numbers.
    pub open spec fn opens(self, version: VersionView) -> bool {
        &&& self.version.pre.len() > 0
        &&& self.version.major == version.major
        &&& self.version.minor == version.minor
        &&& self.version.patch == version.patch
    }
}

/// A range of versions: any of its alternatives, each of which is a list of comparators that
/// must all hold.
#[derive(Debug)]
pub struct VersionRange {
    pub alternatives: Vec<Vec<Comparator>>,
}

/// The model of a [`VersionRange`].
pub type RangeView = Seq<Seq<ComparatorView>>;

/// The models of a list of comparators.
pub open spec fn comparator_views(list: Seq<Comparator>) -> Seq<ComparatorView> {
    list.map_values(|comparator: Comparator| comparator@)
}

impl View for VersionRange {
    type V = RangeView;

    open spec fn view(&self) -> RangeView {
        self.alternatives@.map_values(|list: Vec<Comparator>| comparator_views(list@))
    }
}

/// A list of comparators accepts a version if each does and, for a pre-release, one of them
/// names a pre-release of the same three numbers.
pub open spec fn list_accepts(list: Seq<ComparatorView>, version: VersionView) -> bool {
    &&& forall|i: int| 0 <= i < list.len() ==> (#[trigger] list[i]).accepts(version)
    &&& version.is_release() || exists|i: int|
        0 <= i < list.len() && (#[trigger] list[i]).opens(version)
}

/// A range accepts a version if one of its alternatives does.
pub open spec fn range_accepts(range: RangeView, version: VersionView) -> bool {
    exists|i: int| 0 <= i < range.len() && list_accepts(#[trigger] range[i], version)
}

/// The range of one version only.
pub open spec fn exact_range(version: VersionView) -> RangeView {
    seq![seq![ComparatorView { operator: Operator::Equal, version }]]
}

/// The range of one version accepts that version, and no version of other precedence.
pub proof fn law_exact_range_accepts_its_version(wanted: VersionView, version: VersionView)
    ensures
        range_accepts(exact_range(wanted), wanted),
        range_accepts(exact_range(wanted), version) <==> version.precedence(wanted)
            == Order::Equal,
{
    let list = exact_range(wanted)[0];
    law_version_order_equal(wanted, wanted);
    law_version_order_equal(version, wanted);
    assert(list[0].version == wanted);
    assert(list_accepts(list, wanted));
    if version.precedence(wanted) == Order::Equal {
        assert(list[0].accepts(version));
        assert(list_accepts(list, version));
    }
    if range_accepts(exact_range(wanted), version) {
        let i = choose|i: int|
            0 <= i < exact_range(wanted).len() && list_accepts(
                #[trigger] exact_range(wanted)[i],
                version,
            );
        assert(list[0].accepts(version));
    }
}

fn list_matches(list: &Vec<Comparator>, version: &Version) -> (matched: bool)
    ensures
        matched == list_accepts(comparator_views(list@), version@),
{
    let ghost views = comparator_views(list@);
    let mut opened = version.is_release();
    let mut i: usize = 0;
    while i < list.len()
        invariant
            i <= list.len(),
            views == comparator_views(list@),
            forall|j: int| 0 <= j < i ==> (#[trigger] views[j]).accepts(version@),
            opened == (version@.is_release() || exists|j: int|
                0 <= j < i && (#[trigger] views[j]).opens(version@)),
        decreases list.len() - i,
    {
        let comparator = &list[i];
        assert(views[i as int] == comparator@);
        if !comparator.operator.admits(version.compare_precedence(&comparator.version)) {
            return false;
        }
        if comparator.version.pre.len() > 0 && comparator.version.major == version.major
            && comparator.version.minor == version.minor && comparator.version.patch
            == version.patch {
            opened = true;
        }
        i += 1;
    }
    opened
}

impl VersionRange {
    /// The range of one version only.
    pub fn exactly(version: Version) -> (range: VersionRange)
        ensures
            range@ == exact_range(version@),
    {
        let mut list: Vec<Comparator> = Vec::new();
        list.push(Comparator { operator: Operator::Equal, version });
        let mut alternatives: Vec<Vec<Comparator>> = Vec::new();
        alternatives.push(list);
        let range = VersionRange { alternatives };
        proof {
            let expected = ComparatorView { operator: Operator::Equal, version: version@ };
            assert(comparator_views(list@) =~= seq![expected]);
            assert(range@ =~= seq![seq![expected]]);
        }
        range
    }

    /// Whether the range accepts `version`.
    pub fn matches(&self, version: &Version) -> (matched: bool)
        ensures
            matched == range_accepts(self@, version@),
    {
        let mut i: usize = 0;
        while i < self.alternatives.len()
            invariant
                i <= self.alternatives.len(),
                forall|j: int| 0 <= j < i ==> !list_accepts(#[trigger] self@[j], version@),
            decreases self.alternatives.len() - i,
        {
            assert(self@[i as int] == comparator_views(self.alternatives@[i as int]@));
            if list_matches(&self.alternatives[i], version) {
                return true;
            }
            i += 1;
        }
        false
    }
}

impl Clone for VersionRange {
    fn clone(&self) -> (copy: Self)
        ensures
            copy@ == self@,
    {
        let mut alternatives: Vec<Vec<Comparator>> = Vec::new();
        let mut i: usize = 0;
        while i < self.alternatives.len()
            invariant
                i <= self.alternatives.len(),
                alternatives.len() == i,
                forall|j: int|
                    0 <= j < i ==> comparator_views((#[trigger] alternatives@[j])@)
                        == comparator_views(self.alternatives@[j]@),
            decreases self.alternatives.len() - i,
        {
            let list = &self.alternatives[i];
            let mut copy: Vec<Comparator> = Vec::new();
            let mut k: usize = 0;
            while k < list.len()
                invariant
                    k <= list.len(),
                    copy.len() == k,
                    forall|j: int| 0 <= j < k ==> (#[trigger] copy@[j])@ == list@[j]@,
                decreases list.len() - k,
            {
                copy.push(list[k].clone());
                k += 1;
            }
            proof {
                assert(comparator_views(copy@) =~= comparator_views(list@));
            }
            alternatives.push(copy);
            i += 1;
        }
        let copy = VersionRange { alternatives };
        proof {
            assert(copy@ =~= self@);
        }
        copy
    }
}

} // verus!
