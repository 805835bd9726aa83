use revdeps::{classify, str_contains, ResolveError, ResolveErrorKind, Version};

fn v(major: u64, minor: u64, patch: u64) -> Version {
    Version { major, minor, patch, pre: String::new() }
}

#[test]
fn contains_finds_substring() {
    assert!(str_contains("failed to select a version", "select"));
    assert!(!str_contains("failed to select a version", "Select"));
    assert!(str_contains("abc", ""));
    assert!(!str_contains("ab", "abc"));
}

#[test]
fn classify_yanked_dependency() {
    let diag = "error: failed to select a version for the requirement `x = \"^1\"` \
                candidate versions... version 1.0.0 is yanked";
    assert_eq!(classify(diag), Some(ResolveErrorKind::DependencyFullyYanked));
}

#[test]
fn classify_unavailable_dependency() {
    let diag = "failed to select a version for the requirement `x = \"^1\"`: \
                the source is unreadable and version 1.0.0 is unavailable";
    assert_eq!(classify(diag), Some(ResolveErrorKind::UnavailableDependency));
}

#[test]
fn classify_cyclic_dependency() {
    let diag = "cyclic package dependency: package `a v1.0.0` depends on itself";
    assert_eq!(classify(diag), Some(ResolveErrorKind::CyclicDependency));
}

#[test]
fn classify_feature_conflict_wins_first() {
    // both the feature-conflict pattern and the yanked pattern occur;
    // the first entry of the priority list decides
    let diag = "failed to select a version for the requirement `x` ... is yanked ... \
                try a version which could resolve this conflict";
    assert_eq!(classify(diag), Some(ResolveErrorKind::FeatureConflict));
}

#[test]
fn classify_candidate_versions_didnt_match() {
    let diag = "candidate versions found which didn't match: 2.0.0, 1.9.0";
    assert_eq!(classify(diag), Some(ResolveErrorKind::CandidateVersionsFoundDidntMatch));
}

#[test]
fn classify_all_versions_conflict() {
    let diag = "all possible versions conflict with previously selected packages";
    assert_eq!(
        classify(diag),
        Some(ResolveErrorKind::AllPossibleVersionsConflictWithPreviouslySelected)
    );
}

#[test]
fn classify_no_matching_package() {
    let diag = "no matching package named `left-pad` found";
    assert_eq!(classify(diag), Some(ResolveErrorKind::NoMatchingPackageFound));
}

#[test]
fn classify_invalid_index_entry() {
    let diag = "the index entry is invalid for `x`";
    assert_eq!(classify(diag), Some(ResolveErrorKind::IndexEntryIsInvalid));
}

#[test]
fn classify_unknown_is_none() {
    assert_eq!(classify("the resolver caught fire"), None);
    assert_eq!(classify(""), None);
}

#[test]
fn classify_select_without_detail_falls_through() {
    // "failed to select a version for the requirement" alone matches no
    // taxonomy entry; a later pattern may still catch the text
    let diag = "failed to select a version for the requirement `x`";
    assert_eq!(classify(diag), None);
    let diag2 = "failed to select a version for the requirement `x`; \
                 no matching package named `x` found";
    assert_eq!(classify(diag2), Some(ResolveErrorKind::NoMatchingPackageFound));
}

#[test]
fn from_str_classifies_and_attributes() {
    let e = ResolveError::from_str(
        "serde".to_string(),
        v(1, 0, 0),
        "cyclic package dependency found".to_string(),
    )
    .expect("the text is classifiable");
    assert_eq!(e.crate_name, "serde");
    assert_eq!(e.version.major, 1);
    assert!(matches!(e.kind, ResolveErrorKind::CyclicDependency));
}

#[test]
fn from_str_unclassifiable_returns_raw_text() {
    let raw = ResolveError::from_str("a".to_string(), v(0, 1, 0), "???".to_string())
        .err()
        .expect("nothing matches");
    assert_eq!(raw, "???");
}
