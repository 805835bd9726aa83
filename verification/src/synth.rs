use vstd::prelude::*;

use crate::record::{
    opt_str_view, strs_view, DepKind, DepSpecView, DependencySpec, KrateVersion, RecordView,
};
use crate::record::duplicate_opt_string;
use crate::record::duplicate_strings;
use crate::toolchain::{rust_version_is_valid, rust_version_ok};

verus! {

/// Whether a string is a well-formed platform predicate; what
/// `cargo_platform::Platform::from_str` accepts.
pub uninterp spec fn platform_ok(s: Seq<char>) -> bool;

/// Relies on `cargo_platform::Platform::from_str`: whether the platform
/// predicate parses; success depends on the string alone.
#[verifier::external_body]
pub(crate) fn platform_is_valid(s: &str) -> (r: bool)
    ensures
        r == platform_ok(s@),
{
    s.parse::<cargo_platform::Platform>().is_ok()
}

/// Why a descriptor could not be synthesized for a package version.
#[derive(Debug)]
pub enum SynthError {
    /// A dependency carries this platform predicate, which does not
    /// parse.
    InvalidPlatform(String),
    /// The record carries this minimum-supported-toolchain constraint,
    /// which does not parse.
    InvalidRustVersion(String),
}

/// One resolver-facing dependency entry of the ephemeral descriptor.
#[derive(Debug)]
pub struct SynthDependency {
    pub name: String,
    pub req: String,
    pub kind: DepKind,
    pub optional: bool,
    pub default_features: bool,
    pub rename: Option<String>,
    pub features: Vec<String>,
    pub platform: Option<String>,
}

/// The identity of the synthesized package: name, version, and the
/// fixed registry source.
#[derive(Debug)]
pub struct SynthPackageId {
    pub name: String,
    pub vers: String,
    pub source: String,
}

/// What the resolver reads of a package: identity, dependencies,
/// feature map, link name, and toolchain constraint.
#[derive(Debug)]
pub struct SynthSummary {
    pub package_id: SynthPackageId,
    pub dependencies: Vec<SynthDependency>,
    pub features: Vec<(String, Vec<String>)>,
    pub links: Option<String>,
    pub rust_version: Option<String>,
}

/// Manifest metadata irrelevant to resolution; always empty here.
#[derive(Debug)]
pub struct SynthMetadata {
    pub authors: Vec<String>,
    pub keywords: Vec<String>,
    pub categories: Vec<String>,
    pub license: Option<String>,
    pub license_file: Option<String>,
    pub description: Option<String>,
    pub readme: Option<String>,
    pub homepage: Option<String>,
    pub repository: Option<String>,
    pub documentation: Option<String>,
    pub links: Option<String>,
    pub rust_version: Option<String>,
}

/// The synthesized manifest: a summary plus empty metadata.
#[derive(Debug)]
pub struct SynthManifest {
    pub summary: SynthSummary,
    pub metadata: SynthMetadata,
}

/// The synthesized package: a manifest under its scratch path.
#[derive(Debug)]
pub struct SynthPackage {
    pub manifest: SynthManifest,
    pub manifest_path: String,
}

/// The ephemeral one-package workspace handed to the resolver.
#[derive(Debug)]
pub struct EphemeralWorkspace {
    pub package: SynthPackage,
}

/// The fixed registry source identity of every synthesized package.
pub open spec fn spec_source_id() -> Seq<char> {
    "registry+https://github.com/rust-lang/crates.io-index"@
}

/// The deterministic scratch path for a package version: the cache
/// location of its resolution result. No file is created here.
pub open spec fn spec_scratch_path(name: Seq<char>, vers: Seq<char>) -> Seq<char> {
    "lock-files/"@ + name + "/"@ + vers + "/Cargo.toml"@
}

/// The platform predicate of this dependency, if any, parses.
pub open spec fn spec_dep_ok(d: DepSpecView) -> bool {
    match d.target {
        None => true,
        Some(t) => platform_ok(t),
    }
}

/// Every dependency's platform predicate parses.
pub open spec fn spec_deps_ok(deps: Seq<DepSpecView>) -> bool {
    forall|i: int| 0 <= i < deps.len() ==> spec_dep_ok(#[trigger] deps[i])
}

/// The toolchain constraint, if any, parses.
pub open spec fn spec_rv_ok(rv: Option<Seq<char>>) -> bool {
    match rv {
        None => true,
        Some(s) => rust_version_ok(s),
    }
}

/// The record synthesizes cleanly: all platform predicates and the
/// toolchain constraint parse.
pub open spec fn spec_synth_ok(rec: RecordView) -> bool {
    spec_deps_ok(rec.deps) && spec_rv_ok(rec.rust_version)
}

/// The dependency entry carries the declared dependency unchanged.
pub open spec fn dep_mapped(d: DepSpecView, s: SynthDependency) -> bool {
    &&& s.name@ == d.name
    &&& s.req@ == d.req
    &&& s.kind == d.kind
    &&& s.optional == d.optional
    &&& s.default_features == d.default_features
    &&& opt_str_view(s.rename) == d.rename
    &&& strs_view(s.features@) == d.features
    &&& opt_str_view(s.platform) == d.target
}

/// All metadata fields are empty.
pub open spec fn spec_metadata_empty(m: SynthMetadata) -> bool {
    &&& m.authors@.len() == 0
    &&& m.keywords@.len() == 0
    &&& m.categories@.len() == 0
    &&& m.license is None
    &&& m.license_file is None
    &&& m.description is None
    &&& m.readme is None
    &&& m.homepage is None
    &&& m.repository is None
    &&& m.documentation is None
    &&& m.links is None
}

/// The summary carries the record: identity, dependencies one for one
/// and in order, the feature map, the link name and the toolchain
/// constraint.
pub open spec fn summary_matches(name: Seq<char>, rec: RecordView, s: SynthSummary) -> bool {
    &&& s.package_id.name@ == name
    &&& s.package_id.vers@ == rec.vers
    &&& s.package_id.source@ == spec_source_id()
    &&& s.dependencies@.len() == rec.deps.len()
    &&& forall|i: int|
        0 <= i < rec.deps.len() ==> dep_mapped(rec.deps[i], #[trigger] s.dependencies@[i])
    &&& s.features@.map_values(|p: (String, Vec<String>)| (p.0@, strs_view(p.1@))) == rec.features
    &&& opt_str_view(s.links) == rec.links
    &&& opt_str_view(s.rust_version) == rec.rust_version
}

/// The whole descriptor carries the record, under its scratch path.
pub open spec fn workspace_matches(name: Seq<char>, rec: RecordView, w: EphemeralWorkspace) -> bool {
    &&& summary_matches(name, rec, w.package.manifest.summary)
    &&& spec_metadata_empty(w.package.manifest.metadata)
    &&& opt_str_view(w.package.manifest.metadata.rust_version) == rec.rust_version
    &&& w.package.manifest_path@ == spec_scratch_path(name, rec.vers)
}

/// The error a failed synthesis reports, pinned to its cause.
pub open spec fn synth_error_matches(rec: RecordView, e: SynthError) -> bool {
    match e {
        SynthError::InvalidPlatform(t) => exists|i: int|
            0 <= i < rec.deps.len() && (#[trigger] rec.deps[i]).target == Some(t@) && !platform_ok(
                t@,
            ),
        SynthError::InvalidRustVersion(s) => rec.rust_version == Some(s@) && !rust_version_ok(s@),
    }
}

/// The fixed registry source identity.
pub fn synth_source_id() -> (r: String)
    ensures
        r@ == spec_source_id(),
{
    let r = String::from_str("registry+https://github.com/rust-lang/crates.io-index");
    proof {
        reveal_strlit("registry+https://github.com/rust-lang/crates.io-index");
    }
    r
}

/// The scratch path of a package version.
pub fn synth_manifest_path(crate_name: &str, vers: &str) -> (r: String)
    ensures
        r@ == spec_scratch_path(crate_name@, vers@),
{
    let mut r = String::from_str("lock-files/");
    r.append(crate_name);
    r.append("/");
    r.append(vers);
    r.append("/Cargo.toml");
    r
}

/// The package identity: name, version string, registry source.
pub fn synth_package_id(crate_name: &str, version: &KrateVersion) -> (r: SynthPackageId)
    ensures
        r.name@ == crate_name@,
        r.vers@ == version.record.vers@,
        r.source@ == spec_source_id(),
{
    SynthPackageId {
        name: crate_name.to_owned(),
        vers: version.record.vers.clone(),
        source: synth_source_id(),
    }
}

/// The toolchain constraint carried through; fails exactly when the
/// record declares one that does not parse.
pub fn synth_rust_version(version: &KrateVersion) -> (r: Result<Option<String>, SynthError>)
    ensures
        match r {
            Ok(rv) => spec_rv_ok(version.record@.rust_version) && opt_str_view(rv)
                == version.record@.rust_version,
            Err(e) => !spec_rv_ok(version.record@.rust_version) && synth_error_matches(
                version.record@,
                e,
            ),
        },
{
    match &version.record.rust_version {
        None => Ok(None),
        Some(s) => {
            if rust_version_is_valid(s.as_str()) {
                Ok(Some(s.clone()))
            } else {
                Err(SynthError::InvalidRustVersion(s.clone()))
            }
        },
    }
}

/// One resolver-facing dependency entry per declared dependency, in
/// order, each carried through unchanged; fails exactly on the first
/// platform predicate that does not parse.
pub fn synth_dependencies(version: &KrateVersion) -> (r: Result<Vec<SynthDependency>, SynthError>)
    ensures
        match r {
            Ok(v) => {
                &&& spec_deps_ok(version.record@.deps)
                &&& v@.len() == version.record@.deps.len()
                &&& forall|i: int|
                    0 <= i < v@.len() ==> dep_mapped(version.record@.deps[i], #[trigger] v@[i])
            },
            Err(e) => !spec_deps_ok(version.record@.deps) && synth_error_matches(
                version.record@,
                e,
            ),
        },
{
    let mut out: Vec<SynthDependency> = Vec::new();
    let n = version.record.deps.len();
    let mut i: usize = 0;
    while i < n
        invariant
            n == version.record.deps@.len(),
            version.record@.deps.len() == n,
            i <= n,
            out@.len() == i,
            forall|k: int|
                0 <= k < i ==> dep_mapped(version.record@.deps[k], #[trigger] out@[k]),
            forall|k: int| 0 <= k < i ==> spec_dep_ok(#[trigger] version.record@.deps[k]),
        decreases n - i,
    {
        let d: &DependencySpec = &version.record.deps[i];
        let platform: Option<String> = match &d.target {
            None => None,
            Some(t) => {
                if platform_is_valid(t.as_str()) {
                    Some(t.clone())
                } else {
                    proof {
                        assert(version.record@.deps[i as int].target == Some(t@));
                    }
                    return Err(SynthError::InvalidPlatform(t.clone()));
                }
            },
        };
        out.push(
            SynthDependency {
                name: d.name.clone(),
                req: d.req.clone(),
                kind: d.kind,
                optional: d.optional,
                default_features: d.default_features,
                rename: duplicate_opt_string(&d.rename),
                features: duplicate_strings(&d.features),
                platform,
            },
        );
        proof {
            assert(dep_mapped(version.record@.deps[i as int], out@[i as int]));
        }
        i += 1;
    }
    Ok(out)
}

/// The feature map carried through unchanged.
pub fn synth_features(version: &KrateVersion) -> (r: Vec<(String, Vec<String>)>)
    ensures
        r@.map_values(|p: (String, Vec<String>)| (p.0@, strs_view(p.1@)))
            == version.record@.features,
{
    let mut out: Vec<(String, Vec<String>)> = Vec::new();
    let n = version.record.features.len();
    let mut i: usize = 0;
    while i < n
        invariant
            n == version.record.features@.len(),
            i <= n,
            out@.len() == i,
            forall|k: int|
                0 <= k < i ==> (#[trigger] out@[k]).0@ == version.record.features@[k].0@
                    && strs_view(out@[k].1@) == strs_view(version.record.features@[k].1@),
        decreases n - i,
    {
        out.push(
            (
                version.record.features[i].0.clone(),
                duplicate_strings(&version.record.features[i].1),
            ),
        );
        i += 1;
    }
    proof {
        assert(out@.map_values(|p: (String, Vec<String>)| (p.0@, strs_view(p.1@)))
            =~= version.record@.features);
    }
    out
}

/// The summary of the synthesized package; fails exactly when a
/// platform predicate or the toolchain constraint does not parse.
pub fn synth_summary(crate_name: &str, version: &KrateVersion) -> (r: Result<
    SynthSummary,
    SynthError,
>)
    ensures
        match r {
            Ok(s) => spec_synth_ok(version.record@) && summary_matches(
                crate_name@,
                version.record@,
                s,
            ),
            Err(e) => !spec_synth_ok(version.record@) && synth_error_matches(version.record@, e),
        },
{
    let dependencies = match synth_dependencies(version) {
        Ok(v) => v,
        Err(e) => {
            return Err(e);
        },
    };
    let rust_version = match synth_rust_version(version) {
        Ok(rv) => rv,
        Err(e) => {
            return Err(e);
        },
    };
    Ok(
        SynthSummary {
            package_id: synth_package_id(crate_name, version),
            dependencies,
            features: synth_features(version),
            links: duplicate_opt_string(&version.record.links),
            rust_version,
        },
    )
}

/// All-empty manifest metadata, except the toolchain constraint; fails
/// exactly when that constraint does not parse.
pub fn synth_manifest_metadata(version: &KrateVersion) -> (r: Result<SynthMetadata, SynthError>)
    ensures
        match r {
            Ok(m) => spec_rv_ok(version.record@.rust_version) && spec_metadata_empty(m)
                && opt_str_view(m.rust_version) == version.record@.rust_version,
            Err(e) => !spec_rv_ok(version.record@.rust_version) && synth_error_matches(
                version.record@,
                e,
            ),
        },
{
    let rust_version = match synth_rust_version(version) {
        Ok(rv) => rv,
        Err(e) => {
            return Err(e);
        },
    };
    Ok(
        SynthMetadata {
            authors: Vec::new(),
            keywords: Vec::new(),
            categories: Vec::new(),
            license: None,
            license_file: None,
            description: None,
            readme: None,
            homepage: None,
            repository: None,
            documentation: None,
            links: None,
            rust_version,
        },
    )
}

/// The synthesized manifest: summary plus empty metadata.
pub fn synth_manifest(crate_name: &str, version: &KrateVersion) -> (r: Result<
    SynthManifest,
    SynthError,
>)
    ensures
        match r {
            Ok(m) => {
                &&& spec_synth_ok(version.record@)
                &&& summary_matches(crate_name@, version.record@, m.summary)
                &&& spec_metadata_empty(m.metadata)
                &&& opt_str_view(m.metadata.rust_version) == version.record@.rust_version
            },
            Err(e) => !spec_synth_ok(version.record@) && synth_error_matches(version.record@, e),
        },
{
    let summary = match synth_summary(crate_name, version) {
        Ok(s) => s,
        Err(e) => {
            return Err(e);
        },
    };
    let metadata = match synth_manifest_metadata(version) {
        Ok(m) => m,
        Err(e) => {
            return Err(e);
        },
    };
    Ok(SynthManifest { summary, metadata })
}

/// The synthesized package under its scratch path.
pub fn synth_package(crate_name: &str, version: &KrateVersion) -> (r: Result<
    SynthPackage,
    SynthError,
>)
    ensures
        match r {
            Ok(p) => {
                &&& spec_synth_ok(version.record@)
                &&& summary_matches(crate_name@, version.record@, p.manifest.summary)
                &&& spec_metadata_empty(p.manifest.metadata)
                &&& opt_str_view(p.manifest.metadata.rust_version) == version.record@.rust_version
                &&& p.manifest_path@ == spec_scratch_path(crate_name@, version.record@.vers)
            },
            Err(e) => !spec_synth_ok(version.record@) && synth_error_matches(version.record@, e),
        },
{
    let manifest = match synth_manifest(crate_name, version) {
        Ok(m) => m,
        Err(e) => {
            return Err(e);
        },
    };
    let manifest_path = synth_manifest_path(crate_name, version.record.vers.as_str());
    Ok(SynthPackage { manifest, manifest_path })
}

/// The ephemeral one-package workspace for a package version: the
/// minimal descriptor the resolver needs, with no checkout behind it.
/// Fails exactly when a platform predicate or the toolchain constraint
/// does not parse; the failure names its cause.
pub fn synth_workspace(crate_name: &str, version: &KrateVersion) -> (r: Result<
    EphemeralWorkspace,
    SynthError,
>)
    ensures
        match r {
            Ok(w) => spec_synth_ok(version.record@) && workspace_matches(
                crate_name@,
                version.record@,
                w,
            ),
            Err(e) => !spec_synth_ok(version.record@) && synth_error_matches(version.record@, e),
        },
{
    match synth_package(crate_name, version) {
        Ok(package) => Ok(EphemeralWorkspace { package }),
        Err(e) => Err(e),
    }
}

} // verus!
