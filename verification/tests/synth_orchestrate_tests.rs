use revdeps::{
    count_crates, decide, select_work, synth_manifest_path, synth_workspace, worker_of,
    CacheDecision, CacheState, DepKind, DependencySpec, KrateVersion, PackageIndex, ResolveErrorKind,
    RunState, SynthError, Version, VersionRecord,
};

fn dep(name: &str, req: &str) -> DependencySpec {
    DependencySpec {
        name: name.to_string(),
        req: req.to_string(),
        kind: DepKind::Normal,
        optional: false,
        default_features: true,
        rename: None,
        features: Vec::new(),
        target: None,
    }
}

fn rec(name: &str, vers: &str, yanked: bool, deps: Vec<DependencySpec>) -> VersionRecord {
    VersionRecord {
        name: name.to_string(),
        vers: vers.to_string(),
        deps,
        features: Vec::new(),
        yanked,
        links: None,
        rust_version: None,
    }
}

fn kv(record: VersionRecord) -> KrateVersion {
    KrateVersion::from_record(record).expect("version parses")
}

#[test]
fn synth_workspace_carries_the_record() {
    let mut record = rec("foo", "1.2.3", false, vec![dep("bar", "^0.4")]);
    record.deps[0].optional = true;
    record.deps[0].rename = Some("baz".to_string());
    record.deps[0].features = vec!["extra".to_string()];
    record.features = vec![("default".to_string(), vec!["extra".to_string()])];
    record.links = Some("native".to_string());
    let w = synth_workspace("foo", &kv(record)).expect("everything parses");
    let summary = &w.package.manifest.summary;
    assert_eq!(summary.package_id.name, "foo");
    assert_eq!(summary.package_id.vers, "1.2.3");
    assert_eq!(
        summary.package_id.source,
        "registry+https://github.com/rust-lang/crates.io-index"
    );
    assert_eq!(summary.dependencies.len(), 1);
    let d = &summary.dependencies[0];
    assert_eq!(d.name, "bar");
    assert_eq!(d.req, "^0.4");
    assert!(d.optional);
    assert_eq!(d.rename.as_deref(), Some("baz"));
    assert_eq!(d.features, vec!["extra".to_string()]);
    assert!(d.platform.is_none());
    assert_eq!(summary.features.len(), 1);
    assert_eq!(summary.links.as_deref(), Some("native"));
    assert!(w.package.manifest.metadata.authors.is_empty());
    assert!(w.package.manifest.metadata.license.is_none());
    assert_eq!(w.package.manifest_path, "lock-files/foo/1.2.3/Cargo.toml");
}

#[test]
fn synth_platform_predicate_accepted() {
    let mut record = rec("foo", "1.0.0", false, vec![dep("bar", "^1")]);
    record.deps[0].target = Some("cfg(unix)".to_string());
    let w = synth_workspace("foo", &kv(record)).expect("the predicate parses");
    assert_eq!(
        w.package.manifest.summary.dependencies[0].platform.as_deref(),
        Some("cfg(unix)")
    );
}

#[test]
fn synth_bad_platform_predicate_fails() {
    let mut record = rec("foo", "1.0.0", false, vec![dep("bar", "^1")]);
    record.deps[0].target = Some("cfg(".to_string());
    match synth_workspace("foo", &kv(record)) {
        Err(SynthError::InvalidPlatform(t)) => assert_eq!(t, "cfg("),
        other => panic!("expected an invalid-platform failure, got {:?}", other.is_ok()),
    }
}

#[test]
fn synth_rust_version_accepted_and_rejected() {
    let mut record = rec("foo", "1.0.0", false, vec![]);
    record.rust_version = Some("1.70".to_string());
    let w = synth_workspace("foo", &kv(record)).expect("the constraint parses");
    assert_eq!(
        w.package.manifest.summary.rust_version.as_deref(),
        Some("1.70")
    );
    let mut bad = rec("foo", "1.0.0", false, vec![]);
    bad.rust_version = Some("soon".to_string());
    match synth_workspace("foo", &kv(bad)) {
        Err(SynthError::InvalidRustVersion(s)) => assert_eq!(s, "soon"),
        other => panic!("expected an invalid-constraint failure, got {:?}", other.is_ok()),
    }
}

#[test]
fn scratch_path_is_deterministic() {
    assert_eq!(synth_manifest_path("a", "0.1.0"), "lock-files/a/0.1.0/Cargo.toml");
    assert_eq!(synth_manifest_path("a", "0.1.0"), synth_manifest_path("a", "0.1.0"));
}

#[test]
fn select_work_takes_latest_and_counts_skipped() {
    let ix = PackageIndex::build(&vec![
        rec("a", "1.0.0", false, vec![]),
        rec("a", "2.0.0", false, vec![]),
        rec("b", "1.0.0", true, vec![]),
        rec("c", "0.9.0", false, vec![]),
    ])
    .expect("records parse");
    let (items, skipped) = select_work(&ix);
    assert_eq!(skipped, 1);
    let mut keys: Vec<(String, String)> =
        items.into_iter().map(|i| (i.name, i.vers)).collect();
    keys.sort();
    assert_eq!(
        keys,
        vec![
            ("a".to_string(), "2.0.0".to_string()),
            ("c".to_string(), "0.9.0".to_string()),
        ]
    );
}

#[test]
fn cache_decisions_follow_the_protocol() {
    let mut cache = CacheState::new();
    cache.record("a".to_string(), "1.0.0".to_string());
    let hit = revdeps::WorkItem { name: "a".to_string(), vers: "1.0.0".to_string() };
    let miss_vers = revdeps::WorkItem { name: "a".to_string(), vers: "2.0.0".to_string() };
    let miss_name = revdeps::WorkItem { name: "b".to_string(), vers: "1.0.0".to_string() };
    assert_eq!(decide(&cache, &hit), CacheDecision::Reuse);
    assert_eq!(decide(&cache, &miss_vers), CacheDecision::Invoke);
    assert_eq!(decide(&cache, &miss_name), CacheDecision::Invoke);
}

#[test]
fn cache_record_is_idempotent() {
    let mut cache = CacheState::new();
    cache.record("a".to_string(), "1.0.0".to_string());
    cache.record("a".to_string(), "1.0.0".to_string());
    assert_eq!(cache.keys.len(), 1);
}

#[test]
fn second_run_reuses_first_run_successes() {
    let ix = PackageIndex::build(&vec![
        rec("a", "1.0.0", false, vec![]),
        rec("b", "2.0.0", false, vec![]),
    ])
    .expect("records parse");

    // first run: an empty cache, every item is resolved
    let (items, _) = select_work(&ix);
    let mut run = RunState::new(CacheState::new());
    let mut first_invocations = 0;
    for item in &items {
        match decide(&run.cache, item) {
            CacheDecision::Reuse => run.on_cache_hit(),
            CacheDecision::Invoke => {
                first_invocations += 1;
                run.on_resolved(item);
            }
        }
    }
    assert_eq!(first_invocations, 2);
    assert_eq!(run.success_count, 2);

    // second run over the unchanged index and the surviving cache:
    // zero invocations for everything that succeeded before
    let (items_again, _) = select_work(&ix);
    let mut second = RunState::new(run.cache);
    let mut second_invocations = 0;
    for item in &items_again {
        match decide(&second.cache, item) {
            CacheDecision::Reuse => second.on_cache_hit(),
            CacheDecision::Invoke => {
                second_invocations += 1;
                second.on_resolved(item);
            }
        }
    }
    assert_eq!(second_invocations, 0);
    assert_eq!(second.success_count, 2);
}

#[test]
fn failed_resolutions_are_recorded_or_fatal() {
    let mut run = RunState::new(CacheState::new());
    let v = Version { major: 1, minor: 0, patch: 0, pre: String::new() };
    run.on_failed(
        "a".to_string(),
        v,
        "no matching package named `x` found".to_string(),
    )
    .expect("the diagnostic is classifiable");
    assert_eq!(run.failures.len(), 1);
    assert!(matches!(run.failures[0].kind, ResolveErrorKind::NoMatchingPackageFound));

    let w = Version { major: 2, minor: 0, patch: 0, pre: String::new() };
    let fatal = run
        .on_failed("b".to_string(), w, "novel breakage".to_string())
        .err()
        .expect("an unknown diagnostic stops the run");
    assert_eq!(fatal, "novel breakage");
    assert_eq!(run.failures.len(), 1);
}

#[test]
fn workers_stay_within_the_pool() {
    assert_eq!(worker_of(0, 3), 0);
    assert_eq!(worker_of(5, 3), 2);
    assert_eq!(worker_of(7, 1), 0);
}

#[test]
fn count_crates_ignores_dotted_names() {
    let names = vec![
        "serde".to_string(),
        "config.json".to_string(),
        "de".to_string(),
        ".github".to_string(),
    ];
    assert_eq!(count_crates(&names), 2);
    assert_eq!(count_crates(&Vec::new()), 0);
}
