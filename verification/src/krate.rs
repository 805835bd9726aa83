use vstd::prelude::*;

use crate::record::KrateVersion;
use crate::requirement::{req_match, req_ok, requirement_is_valid, requirement_matches};
use crate::version::{
    lemma_version_transitive, lemma_version_trichotomy, spec_version_eq, spec_version_lt,
};

verus! {

/// One package of the index: its published versions in strictly
/// ascending version order, plus remembered requirement lookups.
#[derive(Debug)]
pub struct Krate {
    pub name: String,
    pub versions: Vec<KrateVersion>,
    /// Remembered `ask_version` answers: requirement string to the index
    /// of the best match.
    pub asked: Vec<(String, usize)>,
}

impl Krate {
    /// Versions belong to this package, are internally consistent, and
    /// stand in strictly ascending version order (hence no duplicates).
    pub open spec fn vers_wf(&self) -> bool {
        &&& forall|i: int| 0 <= i < self.versions.len() ==> (#[trigger] self.versions[i]).wf()
        &&& forall|i: int|
            0 <= i < self.versions.len() ==> (#[trigger] self.versions[i]).record.name@
                == self.name@
        &&& forall|i: int, j: int|
            0 <= i < j < self.versions.len() ==> spec_version_lt(
                #[trigger] self.versions[i].semver,
                #[trigger] self.versions[j].semver,
            )
    }

    /// Every remembered lookup answers with the best match for its
    /// requirement.
    pub open spec fn memo_wf(&self) -> bool {
        forall|k: int|
            0 <= k < self.asked.len() ==> {
                &&& req_ok((#[trigger] self.asked[k]).0@)
                &&& self.is_best_match(self.asked[k].0@, self.asked[k].1 as int)
            }
    }

    pub open spec fn wf(&self) -> bool {
        self.vers_wf() && self.memo_wf()
    }

    /// Position `i` holds the highest version satisfying the
    /// requirement, yanked or not.
    pub open spec fn is_best_match(&self, req: Seq<char>, i: int) -> bool {
        &&& 0 <= i < self.versions.len()
        &&& req_match(req, self.versions[i].record.vers@)
        &&& forall|j: int|
            i < j < self.versions.len() ==> !req_match(
                req,
                (#[trigger] self.versions[j]).record.vers@,
            )
    }

    /// Some version satisfies the requirement.
    pub open spec fn some_match(&self, req: Seq<char>) -> bool {
        exists|i: int|
            0 <= i < self.versions.len() && req_match(
                req,
                (#[trigger] self.versions[i]).record.vers@,
            )
    }

    /// Position `i` holds the highest non-yanked version satisfying the
    /// requirement: the version an edge of the reverse graph points at.
    pub open spec fn is_selected(&self, req: Seq<char>, i: int) -> bool {
        &&& 0 <= i < self.versions.len()
        &&& !self.versions[i].record.yanked
        &&& req_match(req, self.versions[i].record.vers@)
        &&& forall|j: int|
            i < j < self.versions.len() ==> ((#[trigger] self.versions[j]).record.yanked
                || !req_match(req, self.versions[j].record.vers@))
    }

    /// Some non-yanked version satisfies the requirement.
    pub open spec fn some_selectable(&self, req: Seq<char>) -> bool {
        exists|i: int|
            0 <= i < self.versions.len() && !(#[trigger] self.versions[i]).record.yanked
                && req_match(req, self.versions[i].record.vers@)
    }

    /// Position `i` holds the highest non-yanked version.
    pub open spec fn is_latest_non_yanked(&self, i: int) -> bool {
        &&& 0 <= i < self.versions.len()
        &&& !self.versions[i].record.yanked
        &&& forall|j: int|
            i < j < self.versions.len() ==> (#[trigger] self.versions[j]).record.yanked
    }

    /// All published versions of this package are yanked.
    pub open spec fn all_yanked(&self) -> bool {
        forall|j: int| 0 <= j < self.versions.len() ==> (#[trigger] self.versions[j]).record.yanked
    }

    /// An empty package entry.
    pub fn new(name: String) -> (r: Krate)
        ensures
            r.wf(),
            r.name@ == name@,
            r.versions@.len() == 0,
            r.asked@.len() == 0,
    {
        Krate { name, versions: Vec::new(), asked: Vec::new() }
    }

    /// Inserts a record at its place in the version order; a record with
    /// the same version replaces the one already there. Remembered
    /// lookups are forgotten: the answer may change.
    pub fn insert(&mut self, kv: KrateVersion)
        requires
            old(self).wf(),
            kv.wf(),
            kv.record.name@ == old(self).name@,
        ensures
            final(self).wf(),
            final(self).name@ == old(self).name@,
            final(self).asked@.len() == 0,
            // the new record is present
            exists|j: int|
                0 <= j < final(self).versions.len() && #[trigger] final(self).versions[j] == kv,
            // every old record with a different version is still present
            forall|i: int|
                0 <= i < old(self).versions.len() && !spec_version_eq(
                    (#[trigger] old(self).versions[i]).semver,
                    kv.semver,
                ) ==> exists|j: int|
                    0 <= j < final(self).versions.len()
                        && final(self).versions[j] == old(self).versions[i],
            // nothing else appears
            forall|j: int|
                0 <= j < final(self).versions.len() ==> (#[trigger] final(self).versions[j]) == kv
                    || exists|i: int|
                    0 <= i < old(self).versions.len()
                        && old(self).versions[i] == final(self).versions[j],
    {
        self.asked = Vec::new();
        let ghost old_versions = self.versions@;
        let mut i: usize = self.versions.len();
        loop
            invariant
                self.versions@ == old(self).versions@,
                self.name@ == old(self).name@,
                self.asked@.len() == 0,
                old(self).wf(),
                kv.wf(),
                kv.record.name@ == old(self).name@,
                old_versions == old(self).versions@,
                i <= self.versions.len(),
                forall|j: int|
                    i <= j < self.versions.len() ==> spec_version_lt(
                        kv.semver,
                        (#[trigger] self.versions[j]).semver,
                    ),
            ensures
                self.versions@ == old(self).versions@,
                self.name@ == old(self).name@,
                self.asked@.len() == 0,
                forall|j: int|
                    0 <= j < self.versions.len() ==> spec_version_lt(
                        kv.semver,
                        (#[trigger] self.versions[j]).semver,
                    ),
            decreases i,
        {
            if i == 0 {
                break;
            }
            let probe = &self.versions[i - 1];
            if kv.semver.lt(&probe.semver) {
                i -= 1;
            } else if kv.semver.same(&probe.semver) {
                // same version published again: the fresh record replaces
                // the one already there
                proof {
                    lemma_version_trichotomy(kv.semver, probe.semver);
                }
                self.versions.remove(i - 1);
                self.versions.insert(i - 1, kv);
                proof {
                    old_versions.remove_ensures(i - 1);
                    old_versions.remove(i - 1).insert_ensures(i - 1, kv);
                    assert(self.versions@ =~= old_versions.update(i - 1, kv));
                    assert forall|p: int, q: int|
                        0 <= p < q < self.versions.len() implies spec_version_lt(
                        self.versions[p].semver,
                        self.versions[q].semver,
                    ) by {
                        assert(spec_version_lt(old_versions[p].semver, old_versions[q].semver));
                    }
                    assert forall|p: int|
                        0 <= p < old_versions.len() && !spec_version_eq(
                            (#[trigger] old_versions[p]).semver,
                            kv.semver,
                        ) implies exists|j: int|
                        0 <= j < self.versions.len() && #[trigger] self.versions@[j]
                        == old_versions[p] by {
                        assert(p != i - 1);
                        assert(self.versions[p] == old_versions[p]);
                    }
                }
                return ;
            } else {
                // probe precedes kv: this is the place
                proof {
                    lemma_version_trichotomy(kv.semver, probe.semver);
                    assert forall|j: int| 0 <= j < i implies spec_version_lt(
                        self.versions[j].semver,
                        kv.semver,
                    ) by {
                        if j < i - 1 {
                            lemma_version_transitive(
                                self.versions[j].semver,
                                self.versions[i - 1].semver,
                                kv.semver,
                            );
                        }
                    }
                }
                self.versions.insert(i, kv);
                proof {
                    old_versions.insert_ensures(i as int, kv);
                    assert forall|p: int, q: int|
                        0 <= p < q < self.versions.len() implies spec_version_lt(
                        self.versions[p].semver,
                        self.versions[q].semver,
                    ) by {
                        if p < i && q > i {
                            lemma_version_transitive(
                                self.versions[p].semver,
                                kv.semver,
                                self.versions[q].semver,
                            );
                        }
                    }
                    assert forall|p: int| #![trigger old_versions[p]]
                        0 <= p < old_versions.len() implies exists|j: int|
                        0 <= j < self.versions.len() && #[trigger] self.versions@[j]
                        == old_versions[p] by {
                        if p < i {
                            assert(self.versions[p] == old_versions[p]);
                        } else {
                            assert(self.versions[p + 1] == old_versions[p]);
                        }
                    }
                }
                return ;
            }
        }
        // every version follows kv: it goes first
        self.versions.insert(0, kv);
        proof {
            old_versions.insert_ensures(0, kv);
            assert forall|p: int| #![trigger old_versions[p]]
                0 <= p < old_versions.len() implies exists|j: int|
                0 <= j < self.versions.len() && #[trigger] self.versions@[j]
                == old_versions[p] by {
                assert(self.versions[p + 1] == old_versions[p]);
            }
        }
    }

    /// The highest non-yanked version, scanning from the top; nothing
    /// when every version is yanked.
    pub fn latest_non_yanked(&self) -> (r: Option<&KrateVersion>)
        requires
            self.wf(),
        ensures
            match r {
                Some(v) => exists|i: int|
                    #[trigger] self.is_latest_non_yanked(i) && *v == self.versions[i],
                None => self.all_yanked(),
            },
    {
        let mut i: usize = self.versions.len();
        loop
            invariant
                i <= self.versions.len(),
                forall|j: int|
                    i <= j < self.versions.len() ==> (#[trigger] self.versions[j]).record.yanked,
            decreases i,
        {
            if i == 0 {
                return None;
            }
            i -= 1;
            if !self.versions[i].record.yanked {
                assert(self.is_latest_non_yanked(i as int));
                return Some(&self.versions[i]);
            }
        }
    }

    /// The version an edge of the reverse graph points at: the highest
    /// non-yanked version satisfying the requirement, if any.
    pub(crate) fn select(&self, req: &str) -> (r: Option<usize>)
        requires
            self.wf(),
            req_ok(req@),
        ensures
            match r {
                Some(i) => self.is_selected(req@, i as int),
                None => !self.some_selectable(req@),
            },
    {
        let mut i: usize = self.versions.len();
        loop
            invariant
                self.wf(),
                req_ok(req@),
                i <= self.versions.len(),
                forall|j: int|
                    i <= j < self.versions.len() ==> ((#[trigger] self.versions[j]).record.yanked
                        || !req_match(req@, self.versions[j].record.vers@)),
            decreases i,
        {
            if i == 0 {
                return None;
            }
            i -= 1;
            if !self.versions[i].record.yanked && requirement_matches(
                req,
                self.versions[i].record.vers.as_str(),
            ) {
                return Some(i);
            }
        }
    }

    /// The position of the version carrying this exact version string.
    pub fn find_version(&self, vers: &str) -> (r: Option<usize>)
        ensures
            match r {
                Some(j) => j < self.versions@.len() && self.versions@[j as int].record.vers@
                    == vers@,
                None => forall|j: int|
                    0 <= j < self.versions@.len() ==> (#[trigger] self.versions@[j]).record.vers@
                        != vers@,
            },
    {
        let mut j: usize = 0;
        let n = self.versions.len();
        while j < n
            invariant
                n == self.versions@.len(),
                j <= n,
                forall|q: int|
                    0 <= q < j ==> (#[trigger] self.versions@[q]).record.vers@ != vers@,
            decreases n - j,
        {
            if crate::version::str_eq(self.versions[j].record.vers.as_str(), vers) {
                return Some(j);
            }
            j += 1;
        }
        None
    }

    /// The highest version satisfying the requirement, yanked or not,
    /// remembering the answer; nothing when the requirement is
    /// ill-formed or nothing matches.
    pub fn ask_version(&mut self, req: &str) -> (r: Option<&KrateVersion>)
        requires
            old(self).wf(),
        ensures
            final(self).wf(),
            final(self).name@ == old(self).name@,
            final(self).versions@ == old(self).versions@,
            match r {
                Some(v) => req_ok(req@) && exists|i: int|
                    #[trigger] final(self).is_best_match(req@, i) && *v == final(self).versions[i],
                None => !req_ok(req@) || !old(self).some_match(req@),
            },
    {
        let mut k: usize = 0;
        let asked_len = self.asked.len();
        while k < asked_len
            invariant
                *self == *old(self),
                self.wf(),
                asked_len == self.asked.len(),
                k <= asked_len,
            decreases asked_len - k,
        {
            if crate::version::str_eq(self.asked[k].0.as_str(), req) {
                let idx = self.asked[k].1;
                assert(self.is_best_match(req@, idx as int));
                return Some(&self.versions[idx]);
            }
            k += 1;
        }
        if !requirement_is_valid(req) {
            return None;
        }
        let mut i: usize = self.versions.len();
        loop
            invariant
                *self == *old(self),
                self.wf(),
                req_ok(req@),
                i <= self.versions.len(),
                forall|j: int|
                    i <= j < self.versions.len() ==> !req_match(
                        req@,
                        (#[trigger] self.versions[j]).record.vers@,
                    ),
            decreases i,
        {
            if i == 0 {
                return None;
            }
            i -= 1;
            if requirement_matches(req, self.versions[i].record.vers.as_str()) {
                self.asked.push((req.to_owned(), i));
                assert(self.is_best_match(req@, i as int));
                return Some(&self.versions[i]);
            }
        }
    }
}

/// In a well-formed entry two positions cannot carry the same version
/// string: the parsed versions would be equal, yet the order is strict.
pub proof fn lemma_version_string_unique(k: &Krate, j1: int, j2: int)
    requires
        k.wf(),
        0 <= j1 < k.versions.len(),
        0 <= j2 < k.versions.len(),
        k.versions[j1].record.vers@ == k.versions[j2].record.vers@,
    ensures
        j1 == j2,
{
    if j1 != j2 {
        assert(spec_version_eq(k.versions[j1].semver, k.versions[j2].semver));
        lemma_version_trichotomy(k.versions[j1].semver, k.versions[j2].semver);
    }
}

} // verus!
