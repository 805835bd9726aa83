use vstd::prelude::*;

use crate::version::Version;

verus! {

/// The pattern occurs in the text starting at position `i`.
pub open spec fn matches_at(text: Seq<char>, pat: Seq<char>, i: int) -> bool {
    &&& 0 <= i
    &&& i + pat.len() <= text.len()
    &&& forall|j: int| 0 <= j < pat.len() ==> text[i + j] == #[trigger] pat[j]
}

/// The pattern occurs somewhere in the text.
pub open spec fn contains_pat(text: Seq<char>, pat: Seq<char>) -> bool {
    exists|i: int| #[trigger] matches_at(text, pat, i)
}

fn match_at(text: &str, pat: &str, i: usize, tl: usize, pl: usize) -> (r: bool)
    requires
        tl == text@.len(),
        pl == pat@.len(),
        i + pl <= tl,
    ensures
        r == matches_at(text@, pat@, i as int),
{
    let mut j: usize = 0;
    while j < pl
        invariant
            tl == text@.len(),
            pl == pat@.len(),
            i + pl <= tl,
            j <= pl,
            forall|q: int| 0 <= q < j ==> text@[i + q] == #[trigger] pat@[q],
        decreases pl - j,
    {
        if text.get_char(i + j) != pat.get_char(j) {
            return false;
        }
        j += 1;
    }
    true
}

/// Substring search: whether the pattern occurs in the text.
pub fn str_contains(text: &str, pat: &str) -> (r: bool)
    ensures
        r == contains_pat(text@, pat@),
{
    let tl = text.unicode_len();
    let pl = pat.unicode_len();
    if pl > tl {
        assert(forall|i: int| !matches_at(text@, pat@, i));
        return false;
    }
    let mut i: usize = 0;
    loop
        invariant
            tl == text@.len(),
            pl == pat@.len(),
            pl <= tl,
            i <= tl - pl + 1,
            forall|p: int| 0 <= p < i ==> !#[trigger] matches_at(text@, pat@, p),
        decreases tl - pl + 1 - i,
    {
        if i > tl - pl {
            assert(forall|p: int| !matches_at(text@, pat@, p));
            return false;
        }
        if match_at(text, pat, i, tl, pl) {
            return true;
        }
        i += 1;
    }
}

/// The closed taxonomy of resolution failures.
#[derive(Debug, Clone, Copy, PartialEq, Eq, Structural)]
pub enum ResolveErrorKind {
    DependencyFullyYanked,
    UnavailableDependency,
    CyclicDependency,
    AllPossibleVersionsConflictWithPreviouslySelected,
    NoMatchingPackageFound,
    CandidateVersionsFoundDidntMatch,
    FeatureConflict,
    IndexEntryIsInvalid,
}

/// The classification table: an ordered list of substring patterns,
/// first match wins; nothing when no pattern occurs.
pub open spec fn spec_classify(diag: Seq<char>) -> Option<ResolveErrorKind> {
    if contains_pat(diag, "failed to select a version for"@) && contains_pat(
        diag,
        "which could resolve this conflict"@,
    ) {
        Some(ResolveErrorKind::FeatureConflict)
    } else if contains_pat(diag, "candidate versions found which didn't match"@) {
        Some(ResolveErrorKind::CandidateVersionsFoundDidntMatch)
    } else if contains_pat(diag, "all possible versions conflict with previously selected packages"@) {
        Some(ResolveErrorKind::AllPossibleVersionsConflictWithPreviouslySelected)
    } else if contains_pat(diag, "failed to select a version for the requirement"@) && contains_pat(
        diag,
        "is yanked"@,
    ) {
        Some(ResolveErrorKind::DependencyFullyYanked)
    } else if contains_pat(diag, "failed to select a version for the requirement"@) && contains_pat(
        diag,
        "is unavailable"@,
    ) {
        Some(ResolveErrorKind::UnavailableDependency)
    } else if contains_pat(diag, "cyclic package dependency"@) {
        Some(ResolveErrorKind::CyclicDependency)
    } else if contains_pat(diag, "no matching package named"@) {
        Some(ResolveErrorKind::NoMatchingPackageFound)
    } else if contains_pat(diag, "index entry is invalid"@) {
        Some(ResolveErrorKind::IndexEntryIsInvalid)
    } else {
        None
    }
}

/// Maps raw resolver diagnostic text onto the closed failure taxonomy;
/// total over its priority list, and a pure function of the text.
pub fn classify(diag: &str) -> (r: Option<ResolveErrorKind>)
    ensures
        r == spec_classify(diag@),
{
    if str_contains(diag, "failed to select a version for") && str_contains(
        diag,
        "which could resolve this conflict",
    ) {
        Some(ResolveErrorKind::FeatureConflict)
    } else if str_contains(diag, "candidate versions found which didn't match") {
        Some(ResolveErrorKind::CandidateVersionsFoundDidntMatch)
    } else if str_contains(diag, "all possible versions conflict with previously selected packages") {
        Some(ResolveErrorKind::AllPossibleVersionsConflictWithPreviouslySelected)
    } else if str_contains(diag, "failed to select a version for the requirement") && str_contains(
        diag,
        "is yanked",
    ) {
        Some(ResolveErrorKind::DependencyFullyYanked)
    } else if str_contains(diag, "failed to select a version for the requirement") && str_contains(
        diag,
        "is unavailable",
    ) {
        Some(ResolveErrorKind::UnavailableDependency)
    } else if str_contains(diag, "cyclic package dependency") {
        Some(ResolveErrorKind::CyclicDependency)
    } else if str_contains(diag, "no matching package named") {
        Some(ResolveErrorKind::NoMatchingPackageFound)
    } else if str_contains(diag, "index entry is invalid") {
        Some(ResolveErrorKind::IndexEntryIsInvalid)
    } else {
        None
    }
}

/// One unresolvable package-version, with the classified failure.
#[derive(Debug, Clone)]
pub struct ResolveError {
    pub crate_name: String,
    pub version: Version,
    pub kind: ResolveErrorKind,
}

impl ResolveError {
    /// Classifies a raw diagnostic for the given package-version; an
    /// unclassifiable diagnostic comes back unchanged as the error, for
    /// the caller to treat as fatal.
    pub fn from_str(crate_name: String, version: Version, value: String) -> (r: Result<
        ResolveError,
        String,
    >)
        ensures
            match r {
                Ok(e) => spec_classify(value@) == Some(e.kind) && e.crate_name@ == crate_name@
                    && e.version == version,
                Err(s) => spec_classify(value@) is None && s@ == value@,
            },
    {
        match classify(value.as_str()) {
            Some(kind) => Ok(ResolveError { crate_name, version, kind }),
            None => Err(value),
        }
    }
}

} // verus!
