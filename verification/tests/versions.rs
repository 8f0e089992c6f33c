use vpm::order::Order;
use vpm::selector::VersionSelector;
use vpm::version::{Comparator, Identifier, Operator, Version, VersionRange};

fn tagged(major: u64, minor: u64, patch: u64, pre: Vec<Identifier>) -> Version {
    Version { pre, ..Version::new(major, minor, patch) }
}

fn word(text: &str) -> Identifier {
    Identifier::Text(text.to_string())
}

fn range(alternatives: Vec<Vec<(Operator, Version)>>) -> VersionRange {
    VersionRange {
        alternatives: alternatives
            .into_iter()
            .map(|list| {
                list.into_iter()
                    .map(|(operator, version)| Comparator { operator, version })
                    .collect()
            })
            .collect(),
    }
}

#[test]
fn versions_are_compared_by_number() {
    assert!(Version::new(1, 2, 3).is_before(&Version::new(1, 10, 0)));
    assert!(Version::new(1, 2, 3).is_before(&Version::new(2, 0, 0)));
    assert!(Version::new(1, 2, 3).is_before(&Version::new(1, 2, 4)));
    assert_eq!(Version::new(1, 2, 3).compare(&Version::new(1, 2, 3)), Order::Equal);
    assert_eq!(Version::new(3, 0, 0).compare(&Version::new(2, 9, 9)), Order::Greater);
}

#[test]
fn pre_releases_come_in_order_before_the_release() {
    let ascending = vec![
        tagged(1, 0, 0, vec![Identifier::Number(2)]),
        tagged(1, 0, 0, vec![Identifier::Number(11)]),
        tagged(1, 0, 0, vec![word("alpha")]),
        tagged(1, 0, 0, vec![word("alpha"), Identifier::Number(1)]),
        tagged(1, 0, 0, vec![word("alpha"), word("beta")]),
        tagged(1, 0, 0, vec![word("beta")]),
        Version::new(1, 0, 0),
    ];
    for i in 0..ascending.len() {
        for j in 0..ascending.len() {
            assert_eq!(ascending[i].is_before(&ascending[j]), i < j);
            assert_eq!(ascending[i] == ascending[j], i == j);
        }
    }
    assert!(!ascending[0].is_release());
    assert!(ascending[6].is_release());
}

#[test]
fn build_metadata_counts_in_the_order_but_not_in_precedence() {
    let plain = Version::new(1, 0, 0);
    let built = Version { build: vec![word("x")], ..Version::new(1, 0, 0) };
    assert_eq!(plain.compare_precedence(&built), Order::Equal);
    assert_eq!(plain.compare(&built), Order::Less);
    assert_eq!(built.compare(&plain), Order::Greater);
    assert!(plain != built);
}

#[test]
fn order_of_versions_is_transitive_and_flips() {
    let a = tagged(1, 0, 0, vec![word("a")]);
    let b = Version::new(1, 0, 0);
    let c = Version::new(1, 0, 1);
    assert!(a.is_before(&b) && b.is_before(&c) && a.is_before(&c));
    assert_eq!(c.compare(&a), Order::Greater);
}

#[test]
fn exact_range_accepts_its_version() {
    let range = VersionRange::exactly(Version::new(1, 2, 3));
    assert!(range.matches(&Version::new(1, 2, 3)));
    assert!(!range.matches(&Version::new(1, 2, 4)));
    let beta = VersionRange::exactly(tagged(1, 2, 3, vec![word("beta")]));
    assert!(beta.matches(&tagged(1, 2, 3, vec![word("beta")])));
    assert!(!beta.matches(&Version::new(1, 2, 3)));
}

#[test]
fn range_takes_any_alternative_and_all_comparators() {
    let range = range(vec![
        vec![
            (Operator::GreaterOrEqual, Version::new(1, 0, 0)),
            (Operator::Less, Version::new(2, 0, 0)),
        ],
        vec![(Operator::Greater, Version::new(3, 0, 0))],
        vec![(Operator::LessOrEqual, Version::new(0, 1, 0))],
    ]);
    assert!(range.matches(&Version::new(1, 0, 0)));
    assert!(range.matches(&Version::new(1, 99, 0)));
    assert!(!range.matches(&Version::new(2, 0, 0)));
    assert!(!range.matches(&Version::new(3, 0, 0)));
    assert!(range.matches(&Version::new(3, 0, 1)));
    assert!(range.matches(&Version::new(0, 1, 0)));
    assert!(!range.matches(&Version::new(0, 1, 1)));
}

#[test]
fn pre_release_is_in_a_range_only_if_the_range_names_one() {
    let open = range(vec![vec![(Operator::GreaterOrEqual, Version::new(1, 0, 0))]]);
    assert!(!open.matches(&tagged(1, 5, 0, vec![word("beta")])));
    let named = range(vec![vec![(
        Operator::GreaterOrEqual,
        tagged(1, 5, 0, vec![word("alpha")]),
    )]]);
    assert!(named.matches(&tagged(1, 5, 0, vec![word("beta")])));
    assert!(!named.matches(&tagged(1, 6, 0, vec![word("beta")])));
    assert!(named.matches(&Version::new(1, 6, 0)));
}

#[test]
fn range_without_alternatives_accepts_nothing() {
    let range = range(vec![]);
    assert!(!range.matches(&Version::new(1, 0, 0)));
}

#[test]
fn clones_are_equal() {
    let version = tagged(1, 2, 3, vec![word("rc"), Identifier::Number(4)]);
    assert!(version.clone() == version);
    let range = VersionRange::exactly(tagged(1, 2, 3, vec![word("rc"), Identifier::Number(4)]));
    assert!(range.clone().matches(&version));
}

#[test]
fn selectors_satisfy_what_they_say() {
    let release = Version::new(1, 0, 0);
    let beta = tagged(1, 1, 0, vec![word("beta")]);
    assert!(VersionSelector::Latest.satisfies(&release));
    assert!(!VersionSelector::Latest.satisfies(&beta));
    assert!(VersionSelector::LatestIncluidingPrerelease.satisfies(&beta));
    assert!(VersionSelector::Specific(&beta).satisfies(&beta));
    assert!(!VersionSelector::Specific(&beta).satisfies(&release));
    let low = range(vec![vec![(Operator::Less, Version::new(2, 0, 0))]]);
    let high = range(vec![vec![(Operator::Greater, Version::new(1, 0, 0))]]);
    assert!(VersionSelector::Range(&low).satisfies(&release));
    assert!(!VersionSelector::Range(&high).satisfies(&release));
    let both = [&low, &high];
    assert!(VersionSelector::Ranges(&both).satisfies(&Version::new(1, 5, 0)));
    assert!(!VersionSelector::Ranges(&both).satisfies(&release));
    assert!(VersionSelector::Ranges(&[]).satisfies(&beta));
}
