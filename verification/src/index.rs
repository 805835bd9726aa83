use vstd::prelude::*;

use crate::krate::Krate;
use crate::record::{KrateVersion, VersionRecord};
use crate::version::{semver_parse, str_eq};

verus! {

/// A record whose version string is not a semantic version; loading
/// stops on the first one and no index is produced.
#[derive(Debug)]
pub struct ParseError {
    pub name: String,
    pub vers: String,
}

/// The in-memory package index: one entry per package name, each with
/// its versions in ascending version order.
#[derive(Debug)]
pub struct PackageIndex {
    pub entries: Vec<Krate>,
}

impl PackageIndex {
    /// Entries are internally consistent and package names are unique.
    pub open spec fn wf(&self) -> bool {
        &&& forall|i: int| 0 <= i < self.entries.len() ==> (#[trigger] self.entries[i]).wf()
        &&& forall|i: int, j: int|
            0 <= i < j < self.entries.len() ==> (#[trigger] self.entries[i]).name@ != (
            #[trigger] self.entries[j]).name@
    }

    /// Some entry carries this package name.
    pub open spec fn has_package(&self, name: Seq<char>) -> bool {
        exists|i: int| 0 <= i < self.entries.len() && (#[trigger] self.entries[i]).name@ == name
    }

    /// Every stored record came from the given list, up to its
    /// mathematical value.
    pub open spec fn all_from(&self, records: Seq<VersionRecord>) -> bool {
        spec_all_from(self.entries@, records)
    }

    /// The index holds, under the record's package name, a version that
    /// parses the same as the record's.
    pub open spec fn covers_record(&self, rec: VersionRecord) -> bool {
        spec_covers(self.entries@, rec)
    }

    /// An empty index.
    pub fn new() -> (r: PackageIndex)
        ensures
            r.wf(),
            r.entries@.len() == 0,
    {
        PackageIndex { entries: Vec::new() }
    }

    /// The number of packages in the index.
    pub fn len(&self) -> (r: usize)
        ensures
            r == self.entries@.len(),
    {
        self.entries.len()
    }

    /// The entry for a package name, if the index holds one.
    pub fn get(&self, name: &str) -> (r: Option<&Krate>)
        requires
            self.wf(),
        ensures
            match r {
                Some(k) => exists|i: int|
                    0 <= i < self.entries.len() && *k == self.entries[i] && (
                    #[trigger] self.entries[i]).name@ == name@,
                None => !self.has_package(name@),
            },
    {
        let mut i: usize = 0;
        let n = self.entries.len();
        while i < n
            invariant
                n == self.entries.len(),
                i <= n,
                forall|k: int| 0 <= k < i ==> (#[trigger] self.entries[k]).name@ != name@,
            decreases n - i,
        {
            if str_eq(self.entries[i].name.as_str(), name) {
                return Some(&self.entries[i]);
            }
            i += 1;
        }
        None
    }

    /// Builds the index from raw records: groups them by package name
    /// and orders each package's versions ascending, a later record of
    /// the same version replacing an earlier one. Fails on the first
    /// record whose version string is not a semantic version; no partial
    /// index is produced.
    pub fn build(records: &Vec<VersionRecord>) -> (r: Result<PackageIndex, ParseError>)
        ensures
            match r {
                Ok(ix) => {
                    &&& ix.wf()
                    &&& forall|k: int|
                        0 <= k < records@.len() ==> semver_parse(
                            (#[trigger] records@[k]).vers@,
                        ) is Some
                    &&& forall|k: int|
                        0 <= k < records@.len() ==> ix.covers_record(#[trigger] records@[k])
                    &&& ix.all_from(records@)
                },
                Err(e) => exists|k: int|
                    0 <= k < records@.len() && (#[trigger] records@[k]).name@ == e.name@
                        && records@[k].vers@ == e.vers@ && semver_parse(records@[k].vers@) is None,
            },
    {
        let mut ix = PackageIndex::new();
        let n = records.len();
        let mut k: usize = 0;
        while k < n
            invariant
                n == records@.len(),
                k <= n,
                ix.wf(),
                forall|r: int|
                    0 <= r < k ==> semver_parse((#[trigger] records@[r]).vers@) is Some,
                forall|r: int| 0 <= r < k ==> ix.covers_record(#[trigger] records@[r]),
                ix.all_from(records@.take(k as int)),
            decreases n - k,
        {
            match PackageIndex::build_step(&mut ix, records, k) {
                Ok(()) => {},
                Err(e) => {
                    return Err(e);
                },
            }
            k += 1;
        }
        proof {
            assert(records@.take(n as int) =~= records@);
        }
        Ok(ix)
    }

    /// One step of `build`: folds record `k` into the index.
    fn build_step(ix: &mut PackageIndex, records: &Vec<VersionRecord>, k: usize) -> (r: Result<
        (),
        ParseError,
    >)
        requires
            old(ix).wf(),
            k < records@.len(),
            old(ix).all_from(records@.take(k as int)),
            forall|r: int| 0 <= r < k ==> old(ix).covers_record(#[trigger] records@[r]),
        ensures
            match r {
                Ok(()) => {
                    &&& final(ix).wf()
                    &&& semver_parse(records@[k as int].vers@) is Some
                    &&& final(ix).all_from(records@.take(k + 1))
                    &&& forall|r2: int|
                        0 <= r2 <= k ==> final(ix).covers_record(#[trigger] records@[r2])
                },
                Err(e) => e.name@ == records@[k as int].name@ && e.vers@
                    == records@[k as int].vers@ && semver_parse(records@[k as int].vers@) is None,
            },
    {
        let rec = records[k].duplicate();
        let name_copy = rec.name.clone();
        let vers_copy = rec.vers.clone();
        match KrateVersion::from_record(rec) {
            None => Err(ParseError { name: name_copy, vers: vers_copy }),
            Some(kv) => {
                ix.place(kv, Ghost(records@), Ghost(k as int));
                Ok(())
            },
        }
    }

    /// Puts one well-formed record pair into the index, creating the
    /// package entry if it is new.
    #[verifier::rlimit(60)]
    fn place(&mut self, kv: KrateVersion, Ghost(records): Ghost<Seq<VersionRecord>>, Ghost(k): Ghost<int>)
        requires
            old(self).wf(),
            kv.wf(),
            0 <= k < records.len(),
            kv.record@ == records[k]@,
            old(self).all_from(records.take(k)),
            forall|r: int| 0 <= r < k ==> old(self).covers_record(#[trigger] records[r]),
        ensures
            final(self).wf(),
            final(self).all_from(records.take(k + 1)),
            forall|r: int| 0 <= r <= k ==> final(self).covers_record(#[trigger] records[r]),
    {
        let ghost old_entries = self.entries@;
        let mut i: usize = 0;
        let n = self.entries.len();
        while i < n
            invariant
                *self == *old(self),
                old_entries == old(self).entries@,
                old(self).wf(),
                kv.wf(),
                0 <= k < records.len(),
                kv.record@ == records[k]@,
                old(self).all_from(records.take(k)),
                forall|r: int| 0 <= r < k ==> old(self).covers_record(#[trigger] records[r]),
                n == self.entries.len(),
                i <= n,
                forall|p: int| 0 <= p < i ==> (#[trigger] self.entries[p]).name@ != kv.record.name@,
            decreases n - i,
        {
            if str_eq(self.entries[i].name.as_str(), kv.record.name.as_str()) {
                let ghost prev = self.entries@[i as int];
                let mut kr = self.entries.remove(i);
                kr.insert(kv);
                self.entries.insert(i, kr);
                proof {
                    old_entries.remove_ensures(i as int);
                    old_entries.remove(i as int).insert_ensures(i as int, kr);
                    assert(self.entries@ =~= old_entries.update(i as int, kr));
                    self.lemma_place_existing(prev, kr, kv, old_entries, i as int, records, k);
                }
                return ;
            }
            i += 1;
        }
        // a package not seen before
        let mut kr = Krate::new(kv.record.name.clone());
        kr.insert(kv);
        self.entries.push(kr);
        proof {
            assert forall|r: int| 0 <= r <= k implies self.covers_record(records[r]) by {
                if r < k {
                    let (ei, ej) = choose|ei: int, ej: int|
                        0 <= ei < old_entries.len() && (#[trigger] old_entries[ei]).name@
                            == records[r].name@ && 0 <= ej < old_entries[ei].versions.len()
                            && semver_parse(
                            (#[trigger] old_entries[ei].versions[ej]).record.vers@,
                        ) == semver_parse(records[r].vers@);
                    assert(self.entries@[ei] == old_entries[ei]);
                } else {
                    let ej = choose|ej: int|
                        0 <= ej < kr.versions.len() && #[trigger] kr.versions@[ej] == kv;
                    assert(self.entries@[self.entries@.len() - 1] == kr);
                }
            }
            assert forall|i2: int, j2: int| #![trigger self.entries@[i2].versions@[j2]]
                0 <= i2 < self.entries.len() && 0 <= j2
                    < self.entries[i2].versions.len() implies exists|r: int|
                0 <= r < records.take(k + 1).len() && self.entries[i2].versions[j2].record@
                == (#[trigger] records.take(k + 1)[r])@ by {
                if i2 < old_entries.len() {
                    assert(old(self).all_from(records.take(k)));
                    let r0 = choose|r0: int|
                        0 <= r0 < records.take(k).len() && (old_entries[i2].versions[j2]).record@
                            == records.take(k)[r0]@;
                    assert(records.take(k + 1)[r0]@ == records.take(k)[r0]@);
                } else {
                    assert(self.entries@[i2] == kr);
                    assert(kr.versions@[j2] == kv);
                    assert(records.take(k + 1)[k]@ == records[k]@);
                }
            }
        }
    }

    /// The bookkeeping for placing a record into an existing entry.
    proof fn lemma_place_existing(
        &self,
        prev: Krate,
        kr: Krate,
        kv: KrateVersion,
        old_entries: Seq<Krate>,
        i: int,
        records: Seq<VersionRecord>,
        k: int,
    )
        requires
            0 <= i < old_entries.len(),
            0 <= k < records.len(),
            self.entries@ == old_entries.update(i, kr),
            prev == old_entries[i],
            prev.name@ == kv.record.name@,
            kv.wf(),
            kv.record@ == records[k]@,
            kr.name@ == prev.name@,
            kr.wf(),
            // what Krate::insert guarantees
            exists|j: int| 0 <= j < kr.versions.len() && #[trigger] kr.versions@[j] == kv,
            forall|j: int|
                0 <= j < prev.versions.len() && !crate::version::spec_version_eq(
                    (#[trigger] prev.versions[j]).semver,
                    kv.semver,
                ) ==> exists|j2: int|
                    0 <= j2 < kr.versions.len() && kr.versions@[j2] == prev.versions@[j],
            forall|j2: int|
                0 <= j2 < kr.versions.len() ==> (#[trigger] kr.versions@[j2]) == kv || exists|j: int|
                    0 <= j < prev.versions.len() && prev.versions@[j] == kr.versions@[j2],
            // entry invariants of the surrounding index
            forall|p: int| 0 <= p < old_entries.len() ==> (#[trigger] old_entries[p]).wf(),
            forall|p: int, q: int|
                0 <= p < q < old_entries.len() ==> (#[trigger] old_entries[p]).name@ != (
                #[trigger] old_entries[q]).name@,
            // history carried by the caller
            forall|r: int|
                0 <= r < k ==> spec_covers(old_entries, #[trigger] records[r]),
            spec_all_from(old_entries, records.take(k)),
        ensures
            self.wf(),
            forall|r: int| 0 <= r <= k ==> self.covers_record(#[trigger] records[r]),
            self.all_from(records.take(k + 1)),
    {
        assert forall|r: int| 0 <= r <= k implies self.covers_record(records[r]) by {
            if r < k {
                let (ei, ej) = choose|ei: int, ej: int|
                    0 <= ei < old_entries.len() && (#[trigger] old_entries[ei]).name@
                        == records[r].name@ && 0 <= ej < old_entries[ei].versions.len()
                        && semver_parse(
                            (#[trigger] old_entries[ei].versions[ej]).record.vers@,
                        ) == semver_parse(records[r].vers@);
                if ei != i {
                    assert(self.entries@[ei] == old_entries[ei]);
                } else {
                    // the touched entry: the version either survived or was
                    // replaced by one that parses the same
                    let pv = prev.versions@[ej];
                    if crate::version::spec_version_eq(pv.semver, kv.semver) {
                        let j2 = choose|j2: int|
                            0 <= j2 < kr.versions.len() && #[trigger] kr.versions@[j2] == kv;
                        assert(semver_parse(kv.record.vers@) == semver_parse(pv.record.vers@));
                        assert(self.entries@[i] == kr);
                    } else {
                        let j2 = choose|j2: int|
                            0 <= j2 < kr.versions.len() && #[trigger] kr.versions@[j2] == pv;
                        assert(self.entries@[i] == kr);
                    }
                }
            } else {
                let j2 = choose|j2: int|
                    0 <= j2 < kr.versions.len() && #[trigger] kr.versions@[j2] == kv;
                assert(self.entries@[i] == kr);
                assert(self.entries@[i].name@ == records[k].name@);
            }
        }
        assert forall|i2: int, j2: int| #![trigger self.entries@[i2].versions@[j2]]
            0 <= i2 < self.entries.len() && 0 <= j2
                < self.entries[i2].versions.len() implies exists|r: int|
            0 <= r < records.take(k + 1).len() && self.entries[i2].versions[j2].record@
                == (#[trigger] records.take(k + 1)[r])@ by {
            if i2 != i {
                let r0 = choose|r0: int|
                    0 <= r0 < records.take(k).len() && (old_entries[i2].versions[j2]).record@
                        == records.take(k)[r0]@;
                assert(records.take(k + 1)[r0]@ == records.take(k)[r0]@);
            } else {
                assert(self.entries@[i2] == kr);
                let v = kr.versions@[j2];
                if v == kv {
                    assert(records.take(k + 1)[k]@ == records[k]@);
                } else {
                    let j0 = choose|j0: int|
                        0 <= j0 < prev.versions.len() && #[trigger] prev.versions@[j0] == v;
                    let r0 = choose|r0: int|
                        0 <= r0 < records.take(k).len() && (old_entries[i].versions[j0]).record@
                            == records.take(k)[r0]@;
                    assert(records.take(k + 1)[r0]@ == records.take(k)[r0]@);
                }
            }
        }
    }
}

/// In a well-formed index every package's version sequence is strictly
/// ascending in the version order, so it holds no duplicate version.
pub proof fn lemma_versions_strictly_ascending(ix: PackageIndex, i: int, j1: int, j2: int)
    requires
        ix.wf(),
        0 <= i < ix.entries.len(),
        0 <= j1 < j2 < ix.entries[i].versions.len(),
    ensures
        crate::version::spec_version_lt(
            ix.entries[i].versions[j1].semver,
            ix.entries[i].versions[j2].semver,
        ),
        !crate::version::spec_version_eq(
            ix.entries[i].versions[j1].semver,
            ix.entries[i].versions[j2].semver,
        ),
{
    crate::version::lemma_version_trichotomy(
        ix.entries[i].versions[j1].semver,
        ix.entries[i].versions[j2].semver,
    );
}

/// `covers_record` stated over a bare entry list.
pub open spec fn spec_covers(entries: Seq<Krate>, rec: VersionRecord) -> bool {
    exists|i: int, j: int|
        0 <= i < entries.len() && (#[trigger] entries[i]).name@ == rec.name@ && 0 <= j
            < entries[i].versions.len() && semver_parse(
            (#[trigger] entries[i].versions[j]).record.vers@,
        ) == semver_parse(rec.vers@)
}

/// `all_from` stated over a bare entry list.
pub open spec fn spec_all_from(entries: Seq<Krate>, records: Seq<VersionRecord>) -> bool {
    forall|i: int, j: int|
        0 <= i < entries.len() && 0 <= j < (#[trigger] entries[i]).versions.len()
            ==> exists|r: int|
            0 <= r < records.len() && (#[trigger] entries[i].versions[j]).record@ == records[r]@
}

} // verus!
