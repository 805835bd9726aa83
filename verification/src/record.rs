use vstd::prelude::*;

use crate::version::{semver_parse, Version};

verus! {

/// The kind of a declared dependency.
#[derive(Debug, Clone, Copy, PartialEq, Eq, Structural)]
pub enum DepKind {
    Normal,
    Dev,
    Build,
}

/// One declared dependency of a version record, as published in the
/// registry.
#[derive(Debug, Clone)]
pub struct DependencySpec {
    /// Name of the package depended on.
    pub name: String,
    /// The version requirement, kept in its textual form.
    pub req: String,
    pub kind: DepKind,
    pub optional: bool,
    pub default_features: bool,
    /// The name the dependency is exposed under, when renamed.
    pub rename: Option<String>,
    /// Features of the target enabled by this dependency.
    pub features: Vec<String>,
    /// Platform predicate restricting the dependency, when present.
    pub target: Option<String>,
}

/// One published version of a package: the registry record.
#[derive(Debug, Clone)]
pub struct VersionRecord {
    pub name: String,
    /// The version string as published.
    pub vers: String,
    pub deps: Vec<DependencySpec>,
    /// Feature map: feature name to the features it requires.
    pub features: Vec<(String, Vec<String>)>,
    pub yanked: bool,
    /// Native-library link name, when declared.
    pub links: Option<String>,
    /// Minimum-supported-toolchain constraint, when declared.
    pub rust_version: Option<String>,
}

/// The mathematical value of a dependency declaration.
pub struct DepSpecView {
    pub name: Seq<char>,
    pub req: Seq<char>,
    pub kind: DepKind,
    pub optional: bool,
    pub default_features: bool,
    pub rename: Option<Seq<char>>,
    pub features: Seq<Seq<char>>,
    pub target: Option<Seq<char>>,
}

/// The mathematical value of an optional string.
pub open spec fn opt_str_view(o: Option<String>) -> Option<Seq<char>> {
    match o {
        Some(s) => Some(s@),
        None => None,
    }
}

/// The mathematical value of a list of strings.
pub open spec fn strs_view(v: Seq<String>) -> Seq<Seq<char>> {
    v.map_values(|s: String| s@)
}

impl View for DependencySpec {
    type V = DepSpecView;

    open spec fn view(&self) -> DepSpecView {
        DepSpecView {
            name: self.name@,
            req: self.req@,
            kind: self.kind,
            optional: self.optional,
            default_features: self.default_features,
            rename: opt_str_view(self.rename),
            features: strs_view(self.features@),
            target: opt_str_view(self.target),
        }
    }
}

/// The mathematical value of a registry record.
pub struct RecordView {
    pub name: Seq<char>,
    pub vers: Seq<char>,
    pub deps: Seq<DepSpecView>,
    pub features: Seq<(Seq<char>, Seq<Seq<char>>)>,
    pub yanked: bool,
    pub links: Option<Seq<char>>,
    pub rust_version: Option<Seq<char>>,
}

impl View for VersionRecord {
    type V = RecordView;

    open spec fn view(&self) -> RecordView {
        RecordView {
            name: self.name@,
            vers: self.vers@,
            deps: self.deps@.map_values(|d: DependencySpec| d@),
            features: self.features@.map_values(
                |p: (String, Vec<String>)| (p.0@, strs_view(p.1@)),
            ),
            yanked: self.yanked,
            links: opt_str_view(self.links),
            rust_version: opt_str_view(self.rust_version),
        }
    }
}

/// A copy of an optional string, equal to the original.
pub fn duplicate_opt_string(o: &Option<String>) -> (r: Option<String>)
    ensures
        r == *o,
{
    match o {
        Some(s) => Some(s.clone()),
        None => None,
    }
}

/// A copy of a string list, with the same mathematical value.
pub fn duplicate_strings(v: &Vec<String>) -> (r: Vec<String>)
    ensures
        strs_view(r@) == strs_view(v@),
        r@.len() == v@.len(),
{
    let mut out: Vec<String> = Vec::new();
    let mut i: usize = 0;
    while i < v.len()
        invariant
            i <= v.len(),
            out@.len() == i,
            forall|k: int| 0 <= k < i ==> (#[trigger] out@[k])@ == v@[k]@,
        decreases v.len() - i,
    {
        out.push(v[i].clone());
        i += 1;
    }
    proof {
        assert(strs_view(out@) =~= strs_view(v@));
    }
    out
}

impl DependencySpec {
    /// A copy with the same mathematical value.
    pub fn duplicate(&self) -> (r: DependencySpec)
        ensures
            r@ == self@,
    {
        let r = DependencySpec {
            name: self.name.clone(),
            req: self.req.clone(),
            kind: self.kind,
            optional: self.optional,
            default_features: self.default_features,
            rename: duplicate_opt_string(&self.rename),
            features: duplicate_strings(&self.features),
            target: duplicate_opt_string(&self.target),
        };
        r
    }
}

impl VersionRecord {
    /// A copy with the same mathematical value.
    pub fn duplicate(&self) -> (r: VersionRecord)
        ensures
            r@ == self@,
    {
        let mut deps: Vec<DependencySpec> = Vec::new();
        let mut i: usize = 0;
        while i < self.deps.len()
            invariant
                i <= self.deps.len(),
                deps@.len() == i,
                forall|k: int| 0 <= k < i ==> (#[trigger] deps@[k])@ == self.deps@[k]@,
            decreases self.deps.len() - i,
        {
            deps.push(self.deps[i].duplicate());
            i += 1;
        }
        let mut features: Vec<(String, Vec<String>)> = Vec::new();
        let mut j: usize = 0;
        while j < self.features.len()
            invariant
                j <= self.features.len(),
                features@.len() == j,
                forall|k: int|
                    0 <= k < j ==> (#[trigger] features@[k]).0@ == self.features@[k].0@
                        && strs_view(features@[k].1@) == strs_view(self.features@[k].1@),
            decreases self.features.len() - j,
        {
            features.push((self.features[j].0.clone(), duplicate_strings(&self.features[j].1)));
            j += 1;
        }
        let r = VersionRecord {
            name: self.name.clone(),
            vers: self.vers.clone(),
            deps,
            features,
            yanked: self.yanked,
            links: duplicate_opt_string(&self.links),
            rust_version: duplicate_opt_string(&self.rust_version),
        };
        proof {
            assert(r@.deps =~= self@.deps);
            assert(r@.features =~= self@.features);
        }
        r
    }
}

/// A registry record paired with its parsed semantic version.
#[derive(Debug, Clone)]
pub struct KrateVersion {
    pub record: VersionRecord,
    pub semver: Version,
}

impl KrateVersion {
    /// The parsed version agrees with the record's version string.
    pub open spec fn wf(&self) -> bool {
        semver_parse(self.record.vers@) == Some(
            (
                self.semver.major as int,
                self.semver.minor as int,
                self.semver.patch as int,
                self.semver.pre@,
            ),
        )
    }

    /// The identity of this record: package name and version string.
    pub open spec fn spec_key(&self) -> (Seq<char>, Seq<char>) {
        (self.record.name@, self.record.vers@)
    }

    /// Builds the pair from a raw record; fails exactly when the version
    /// string is not a semantic version.
    pub fn from_record(record: VersionRecord) -> (r: Option<KrateVersion>)
        ensures
            match r {
                Some(kv) => kv.wf() && kv.record == record,
                None => semver_parse(record.vers@) is None,
            },
    {
        match crate::version::parse_version(record.vers.as_str()) {
            Some(semver) => Some(KrateVersion { record, semver }),
            None => None,
        }
    }

    /// The record's identity as owned strings.
    pub fn as_key(&self) -> (r: (String, String))
        ensures
            r.0@ == self.record.name@,
            r.1@ == self.record.vers@,
    {
        (self.record.name.clone(), self.record.vers.clone())
    }

    /// The parsed semantic version.
    pub fn semver(&self) -> (r: &Version)
        ensures
            r == self.semver,
    {
        &self.semver
    }
}

/// A registry record under its identity: keyed by the pair of package
/// name and version string.
#[derive(Debug, Clone)]
pub struct CrateVersion {
    pub record: VersionRecord,
}

impl CrateVersion {
    /// The record's identity as owned strings.
    pub fn as_key(&self) -> (r: (String, String))
        ensures
            r.0@ == self.record.name@,
            r.1@ == self.record.vers@,
    {
        (self.record.name.clone(), self.record.vers.clone())
    }

    /// The wrapped record.
    pub fn as_inner(&self) -> (r: &VersionRecord)
        ensures
            r == self.record,
    {
        &self.record
    }
}

impl From<VersionRecord> for CrateVersion {
    fn from(record: VersionRecord) -> (r: CrateVersion) {
        CrateVersion { record }
    }
}

impl vstd::std_specs::convert::FromSpecImpl<VersionRecord> for CrateVersion {
    open spec fn obeys_from_spec() -> bool {
        true
    }

    open spec fn from_spec(record: VersionRecord) -> CrateVersion {
        CrateVersion { record }
    }
}

} // verus!
