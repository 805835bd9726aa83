use revdeps::{DepKind, DependencySpec, Krate, KrateVersion, PackageIndex, VersionRecord};

fn dep(name: &str, req: &str, kind: DepKind) -> DependencySpec {
    DependencySpec {
        name: name.to_string(),
        req: req.to_string(),
        kind,
        optional: false,
        default_features: true,
        rename: None,
        features: Vec::new(),
        target: None,
    }
}

fn rec(name: &str, vers: &str, yanked: bool, deps: Vec<DependencySpec>) -> VersionRecord {
    VersionRecord {
        name: name.to_string(),
        vers: vers.to_string(),
        deps,
        features: Vec::new(),
        yanked,
        links: None,
        rust_version: None,
    }
}

fn single_krate(records: Vec<VersionRecord>) -> Krate {
    let ix = PackageIndex::build(&records).expect("records parse");
    assert_eq!(ix.entries.len(), 1);
    ix.entries.into_iter().next().unwrap()
}

#[test]
fn latest_non_yanked_skips_yanked_tail() {
    let k = single_krate(vec![
        rec("a", "1.0.0", true, vec![]),
        rec("a", "1.1.0", false, vec![]),
        rec("a", "2.0.0", false, vec![]),
    ]);
    let latest = k.latest_non_yanked().expect("one version is live");
    assert_eq!(latest.record.vers, "2.0.0");
}

#[test]
fn latest_non_yanked_all_yanked_is_none() {
    let k = single_krate(vec![
        rec("a", "1.0.0", true, vec![]),
        rec("a", "2.0.0", true, vec![]),
    ]);
    assert!(k.latest_non_yanked().is_none());
}

#[test]
fn latest_non_yanked_picks_highest_live() {
    let k = single_krate(vec![
        rec("a", "1.0.0", false, vec![]),
        rec("a", "1.2.0", false, vec![]),
        rec("a", "2.0.0", true, vec![]),
    ]);
    let latest = k.latest_non_yanked().expect("live versions exist");
    assert_eq!(latest.record.vers, "1.2.0");
}

#[test]
fn build_sorts_versions_ascending() {
    let k = single_krate(vec![
        rec("a", "2.0.0", false, vec![]),
        rec("a", "1.0.0", false, vec![]),
        rec("a", "1.5.3", false, vec![]),
    ]);
    let versions: Vec<&str> = k.versions.iter().map(|v| v.record.vers.as_str()).collect();
    assert_eq!(versions, vec!["1.0.0", "1.5.3", "2.0.0"]);
}

#[test]
fn build_orders_prerelease_before_release() {
    let k = single_krate(vec![
        rec("a", "1.0.0", false, vec![]),
        rec("a", "1.0.0-alpha", false, vec![]),
    ]);
    let versions: Vec<&str> = k.versions.iter().map(|v| v.record.vers.as_str()).collect();
    assert_eq!(versions, vec!["1.0.0-alpha", "1.0.0"]);
}

#[test]
fn build_replaces_duplicate_version() {
    let k = single_krate(vec![
        rec("a", "1.0.0", false, vec![]),
        rec("a", "1.0.0", true, vec![]),
    ]);
    assert_eq!(k.versions.len(), 1);
    assert!(k.versions[0].record.yanked);
}

#[test]
fn build_rejects_invalid_version_string() {
    let err = PackageIndex::build(&vec![rec("a", "not-semver", false, vec![])])
        .err()
        .expect("the bad record aborts the load");
    assert_eq!(err.name, "a");
    assert_eq!(err.vers, "not-semver");
}

#[test]
fn build_groups_by_package_name() {
    let ix = PackageIndex::build(&vec![
        rec("a", "1.0.0", false, vec![]),
        rec("b", "0.3.0", false, vec![]),
        rec("a", "1.1.0", false, vec![]),
    ])
    .expect("records parse");
    assert_eq!(ix.entries.len(), 2);
    let a = ix.get("a").expect("a is indexed");
    assert_eq!(a.versions.len(), 2);
    let b = ix.get("b").expect("b is indexed");
    assert_eq!(b.versions.len(), 1);
    assert!(ix.get("c").is_none());
}

#[test]
fn ask_version_picks_highest_match() {
    let mut k = single_krate(vec![
        rec("a", "1.0.0", false, vec![]),
        rec("a", "1.4.0", false, vec![]),
        rec("a", "2.0.0", false, vec![]),
    ]);
    let v = k.ask_version("^1.0").expect("a 1.x version exists");
    assert_eq!(v.record.vers, "1.4.0");
    // the remembered answer stays right
    let again = k.ask_version("^1.0").expect("still there");
    assert_eq!(again.record.vers, "1.4.0");
}

#[test]
fn ask_version_ignores_yanked_state() {
    // unlike graph building, a plain lookup may land on a yanked version
    let mut k = single_krate(vec![
        rec("a", "1.0.0", false, vec![]),
        rec("a", "1.9.0", true, vec![]),
    ]);
    let v = k.ask_version("^1.0").expect("matches exist");
    assert_eq!(v.record.vers, "1.9.0");
}

#[test]
fn ask_version_invalid_requirement_is_none() {
    let mut k = single_krate(vec![rec("a", "1.0.0", false, vec![])]);
    assert!(k.ask_version("not a requirement!!").is_none());
}

#[test]
fn ask_version_no_match_is_none() {
    let mut k = single_krate(vec![rec("a", "1.0.0", false, vec![])]);
    assert!(k.ask_version("^2.0").is_none());
}

#[test]
fn krate_version_key_and_semver() {
    let kv = KrateVersion::from_record(rec("a", "1.2.3-rc.1", false, vec![])).expect("parses");
    let (name, vers) = kv.as_key();
    assert_eq!(name, "a");
    assert_eq!(vers, "1.2.3-rc.1");
    let sv = kv.semver();
    assert_eq!(sv.major, 1);
    assert_eq!(sv.minor, 2);
    assert_eq!(sv.patch, 3);
    assert_eq!(sv.pre, "rc.1");
}

#[test]
fn krate_version_from_record_rejects_garbage() {
    assert!(KrateVersion::from_record(rec("a", "one.two", false, vec![])).is_none());
}

#[test]
fn crate_version_wraps_record() {
    let cv = revdeps::CrateVersion::from(rec("a", "0.1.0", false, vec![dep(
        "b", "^1", DepKind::Normal,
    )]));
    let (name, vers) = cv.as_key();
    assert_eq!(name, "a");
    assert_eq!(vers, "0.1.0");
    assert_eq!(cv.as_inner().deps.len(), 1);
}
