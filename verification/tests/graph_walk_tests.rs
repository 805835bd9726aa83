use revdeps::{
    walk, walk_core, DepKind, DependencySpec, PackageIndex, ReverseIndex, VersionRecord,
    WalkFilters,
};

fn dep(name: &str, req: &str, kind: DepKind) -> DependencySpec {
    DependencySpec {
        name: name.to_string(),
        req: req.to_string(),
        kind,
        optional: false,
        default_features: true,
        rename: None,
        features: Vec::new(),
        target: None,
    }
}

fn rec(name: &str, vers: &str, yanked: bool, deps: Vec<DependencySpec>) -> VersionRecord {
    VersionRecord {
        name: name.to_string(),
        vers: vers.to_string(),
        deps,
        features: Vec::new(),
        yanked,
        links: None,
        rust_version: None,
    }
}

fn rec_msv(name: &str, vers: &str, msv: &str) -> VersionRecord {
    let mut r = rec(name, vers, false, vec![]);
    r.rust_version = Some(msv.to_string());
    r
}

fn edge_of(ri: &ReverseIndex, tn: &str, tv: &str) -> Option<Vec<(String, String)>> {
    ri.entries
        .iter()
        .find(|e| e.name == tn && e.vers == tv)
        .map(|e| e.dependents.clone())
}

#[test]
fn reverse_index_edge_to_highest_live_match() {
    // A@1.0.0 depends on B "^1.0"; B has 1.0.0, 1.2.0 (yanked), 1.5.0:
    // the edge lands on 1.5.0 and no key exists for the yanked 1.2.0
    let ix = PackageIndex::build(&vec![
        rec("a", "1.0.0", false, vec![dep("b", "^1.0", DepKind::Normal)]),
        rec("b", "1.0.0", false, vec![]),
        rec("b", "1.2.0", true, vec![]),
        rec("b", "1.5.0", false, vec![]),
    ])
    .expect("records parse");
    let ri = ReverseIndex::build(&ix);
    let deps = edge_of(&ri, "b", "1.5.0").expect("the selected version is keyed");
    assert_eq!(deps, vec![("a".to_string(), "1.0.0".to_string())]);
    assert!(edge_of(&ri, "b", "1.2.0").is_none());
    assert!(edge_of(&ri, "b", "1.0.0").is_none());
}

#[test]
fn reverse_index_skips_dev_dependencies() {
    let ix = PackageIndex::build(&vec![
        rec("a", "1.0.0", false, vec![dep("b", "^1.0", DepKind::Dev)]),
        rec("b", "1.0.0", false, vec![]),
    ])
    .expect("records parse");
    let ri = ReverseIndex::build(&ix);
    assert!(ri.entries.is_empty());
}

#[test]
fn reverse_index_keeps_build_dependencies() {
    let ix = PackageIndex::build(&vec![
        rec("a", "1.0.0", false, vec![dep("b", "^1.0", DepKind::Build)]),
        rec("b", "1.0.0", false, vec![]),
    ])
    .expect("records parse");
    let ri = ReverseIndex::build(&ix);
    assert!(edge_of(&ri, "b", "1.0.0").is_some());
}

#[test]
fn reverse_index_drops_broken_edges_silently() {
    let ix = PackageIndex::build(&vec![
        // unknown target package
        rec("a", "1.0.0", false, vec![dep("ghost", "^1.0", DepKind::Normal)]),
        // requirement that does not parse
        rec("b", "1.0.0", false, vec![dep("a", "!!bad!!", DepKind::Normal)]),
        // requirement nothing satisfies
        rec("c", "1.0.0", false, vec![dep("a", "^9.9", DepKind::Normal)]),
        // a yanked source contributes nothing
        rec("d", "1.0.0", true, vec![dep("a", "^1.0", DepKind::Normal)]),
    ])
    .expect("records parse");
    let ri = ReverseIndex::build(&ix);
    assert!(ri.entries.is_empty());
}

fn diamond(order: &[(&str, &str)]) -> ReverseIndex {
    // reverse edges: from A's version its direct dependents B and C,
    // from each of those the shared dependent D
    let mut ri = ReverseIndex::new();
    for (tn, sn) in order {
        ri.insert(
            tn.to_string(),
            "1.0.0".to_string(),
            sn.to_string(),
            "1.0.0".to_string(),
        );
    }
    ri
}

fn names_of(mut pairs: Vec<(String, String)>) -> Vec<String> {
    let mut names: Vec<String> = pairs.drain(..).map(|p| p.0).collect();
    names.sort();
    names
}

#[test]
fn diamond_walk_visits_shared_dependent_once() {
    let ri = diamond(&[("a", "b"), ("a", "c"), ("b", "d"), ("c", "d")]);
    let reached = walk_core(&ri, "a", "^1.0");
    assert_eq!(names_of(reached), vec!["b", "c", "d"]);
}

#[test]
fn diamond_walk_is_insertion_order_independent() {
    let ri = diamond(&[("c", "d"), ("b", "d"), ("a", "c"), ("a", "b")]);
    let reached = walk_core(&ri, "a", "^1.0");
    assert_eq!(names_of(reached), vec!["b", "c", "d"]);
}

#[test]
fn walk_transitive_chain() {
    // T <- M <- N: walking from T finds both dependents with versions
    let ix = PackageIndex::build(&vec![
        rec("t", "1.0.0", false, vec![]),
        rec("m", "1.0.0", false, vec![dep("t", "^1.0", DepKind::Normal)]),
        rec("n", "1.0.0", false, vec![dep("m", "^1.0", DepKind::Normal)]),
    ])
    .expect("records parse");
    let ri = ReverseIndex::build(&ix);
    let mut reached = walk(&ri, &ix, "t", "^1.0", &WalkFilters::none());
    reached.sort();
    assert_eq!(
        reached,
        vec![
            ("m".to_string(), "1.0.0".to_string()),
            ("n".to_string(), "1.0.0".to_string()),
        ]
    );
}

#[test]
fn walk_requirement_filters_seeds() {
    let ix = PackageIndex::build(&vec![
        rec("t", "1.0.0", false, vec![]),
        rec("t", "2.0.0", false, vec![]),
        rec("m", "1.0.0", false, vec![dep("t", "^1.0", DepKind::Normal)]),
        rec("n", "1.0.0", false, vec![dep("t", "^2.0", DepKind::Normal)]),
    ])
    .expect("records parse");
    let ri = ReverseIndex::build(&ix);
    let reached = walk(&ri, &ix, "t", "^2.0", &WalkFilters::none());
    assert_eq!(reached, vec![("n".to_string(), "1.0.0".to_string())]);
}

#[test]
fn walk_invalid_requirement_reaches_nothing() {
    let ri = diamond(&[("a", "b")]);
    assert!(walk_core(&ri, "a", "not a req").is_empty());
}

#[test]
fn walk_latest_only_filter() {
    let ix = PackageIndex::build(&vec![
        rec("t", "1.0.0", false, vec![]),
        rec("m", "1.0.0", false, vec![dep("t", "^1.0", DepKind::Normal)]),
        rec("m", "1.1.0", false, vec![]),
    ])
    .expect("records parse");
    let ri = ReverseIndex::build(&ix);
    // m is reached at 1.0.0, but its latest non-yanked version is 1.1.0
    let filters = WalkFilters { latest_only: true, min_version: None, leaf_only: false };
    assert!(walk(&ri, &ix, "t", "^1.0", &filters).is_empty());
    let unfiltered = walk(&ri, &ix, "t", "^1.0", &WalkFilters::none());
    assert_eq!(unfiltered, vec![("m".to_string(), "1.0.0".to_string())]);
}

#[test]
fn walk_min_version_filter() {
    let ix = PackageIndex::build(&vec![
        rec("t", "1.0.0", false, vec![]),
        {
            let mut r = rec_msv("m", "1.0.0", "1.70");
            r.deps.push(dep("t", "^1.0", DepKind::Normal));
            r
        },
    ])
    .expect("records parse");
    let ri = ReverseIndex::build(&ix);
    let old_toolchain = revdeps::Version { major: 1, minor: 56, patch: 0, pre: String::new() };
    let new_toolchain = revdeps::Version { major: 1, minor: 80, patch: 0, pre: String::new() };
    let too_old = WalkFilters { latest_only: false, min_version: Some(old_toolchain), leaf_only: false };
    assert!(walk(&ri, &ix, "t", "^1.0", &too_old).is_empty());
    let new_enough =
        WalkFilters { latest_only: false, min_version: Some(new_toolchain), leaf_only: false };
    assert_eq!(
        walk(&ri, &ix, "t", "^1.0", &new_enough),
        vec![("m".to_string(), "1.0.0".to_string())]
    );
}

#[test]
fn walk_leaf_only_filter() {
    let ix = PackageIndex::build(&vec![
        rec("t", "1.0.0", false, vec![]),
        rec("m", "1.0.0", false, vec![dep("t", "^1.0", DepKind::Normal)]),
        rec("n", "1.0.0", false, vec![dep("m", "^1.0", DepKind::Normal)]),
    ])
    .expect("records parse");
    let ri = ReverseIndex::build(&ix);
    // m has a dependent of its own, so only the leaf n stays
    let filters = WalkFilters { latest_only: false, min_version: None, leaf_only: true };
    assert_eq!(
        walk(&ri, &ix, "t", "^1.0", &filters),
        vec![("n".to_string(), "1.0.0".to_string())]
    );
}

#[test]
fn reverse_index_insert_is_idempotent() {
    let mut ri = ReverseIndex::new();
    ri.insert("a".into(), "1.0.0".into(), "b".into(), "1.0.0".into());
    ri.insert("a".into(), "1.0.0".into(), "b".into(), "1.0.0".into());
    assert_eq!(ri.entries.len(), 1);
    assert_eq!(ri.entries[0].dependents.len(), 1);
}
