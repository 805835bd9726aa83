use vstd::prelude::*;

use crate::classify::{spec_classify, ResolveError};
use crate::index::PackageIndex;
use crate::version::{str_eq, Version};

verus! {

/// One unit of work: resolve this package at this version.
#[derive(Debug)]
pub struct WorkItem {
    pub name: String,
    pub vers: String,
}

/// What to do for one work item.
#[derive(Debug, Clone, Copy, PartialEq, Eq, Structural)]
pub enum CacheDecision {
    /// A prior result is on disk: parse and reuse it; the resolver is
    /// not invoked.
    Reuse,
    /// Nothing cached: invoke the resolver.
    Invoke,
}

/// The keys for which a resolution result is on disk; one entry per
/// (package name, exact version).
#[derive(Debug)]
pub struct CacheState {
    pub keys: Vec<(String, String)>,
}

impl CacheState {
    /// Keys are unique.
    pub open spec fn wf(&self) -> bool {
        forall|i: int, j: int|
            0 <= i < j < self.keys.len() ==> ((#[trigger] self.keys[i]).0@ != (
            #[trigger] self.keys[j]).0@ || self.keys[i].1@ != self.keys[j].1@)
    }

    /// The set of cached keys.
    pub open spec fn key_set(&self) -> Set<(Seq<char>, Seq<char>)> {
        Set::new(
            |p: (Seq<char>, Seq<char>)|
                exists|i: int|
                    0 <= i < self.keys.len() && (#[trigger] self.keys[i]).0@ == p.0
                        && self.keys[i].1@ == p.1,
        )
    }

    /// An empty cache.
    pub fn new() -> (r: CacheState)
        ensures
            r.wf(),
            r.key_set() =~= Set::<(Seq<char>, Seq<char>)>::empty(),
    {
        let r = CacheState { keys: Vec::new() };
        proof {
            assert(r.key_set() =~= Set::<(Seq<char>, Seq<char>)>::empty());
        }
        r
    }

    /// Whether a key is cached.
    pub fn contains(&self, name: &str, vers: &str) -> (r: bool)
        ensures
            r == self.key_set().contains((name@, vers@)),
    {
        let mut i: usize = 0;
        let n = self.keys.len();
        while i < n
            invariant
                n == self.keys@.len(),
                i <= n,
                forall|q: int|
                    0 <= q < i ==> ((#[trigger] self.keys[q]).0@ != name@ || self.keys[q].1@
                        != vers@),
            decreases n - i,
        {
            if str_eq(self.keys[i].0.as_str(), name) && str_eq(self.keys[i].1.as_str(), vers) {
                return true;
            }
            i += 1;
        }
        false
    }

    /// Records that a result for this key is now on disk; recording a
    /// key twice changes nothing.
    pub fn record(&mut self, name: String, vers: String)
        requires
            old(self).wf(),
        ensures
            final(self).wf(),
            final(self).key_set() =~= old(self).key_set().insert((name@, vers@)),
    {
        let ghost old_keys = self.keys@;
        if !self.contains(name.as_str(), vers.as_str()) {
            self.keys.push((name, vers));
            proof {
                assert forall|p: (Seq<char>, Seq<char>)| self.key_set().contains(p) implies old(
                    self,
                ).key_set().insert((name@, vers@)).contains(p) by {
                    let i = choose|i: int|
                        0 <= i < self.keys.len() && (#[trigger] self.keys[i]).0@ == p.0
                            && self.keys[i].1@ == p.1;
                    if i < old_keys.len() {
                        assert(old_keys[i] == self.keys@[i]);
                    }
                }
                assert forall|p: (Seq<char>, Seq<char>)|
                    old(self).key_set().insert((name@, vers@)).contains(p) implies self.key_set().contains(
                    p,
                ) by {
                    if old(self).key_set().contains(p) {
                        let i = choose|i: int|
                            0 <= i < old_keys.len() && (#[trigger] old_keys[i]).0@ == p.0
                                && old_keys[i].1@ == p.1;
                        assert(self.keys@[i] == old_keys[i]);
                    } else {
                        assert(self.keys@[self.keys@.len() - 1].0@ == p.0);
                    }
                }
            }
        } else {
            proof {
                assert(self.key_set() =~= old(self).key_set().insert((name@, vers@)));
            }
        }
    }
}

/// The cache protocol: a cached key is reused, anything else is
/// resolved.
pub open spec fn spec_decide(cached: Set<(Seq<char>, Seq<char>)>, key: (Seq<char>, Seq<char>)) -> CacheDecision {
    if cached.contains(key) {
        CacheDecision::Reuse
    } else {
        CacheDecision::Invoke
    }
}

/// Decides one work item against the cache: reuse exactly when the key
/// is cached.
pub fn decide(cache: &CacheState, item: &WorkItem) -> (r: CacheDecision)
    ensures
        r == spec_decide(cache.key_set(), (item.name@, item.vers@)),
        r == CacheDecision::Reuse <==> cache.key_set().contains((item.name@, item.vers@)),
{
    if cache.contains(item.name.as_str(), item.vers.as_str()) {
        CacheDecision::Reuse
    } else {
        CacheDecision::Invoke
    }
}

/// A key the cache holds is never resolved again: the decision for it
/// is always to reuse.
pub proof fn lemma_cache_idempotent(cache: CacheState, name: Seq<char>, vers: Seq<char>)
    requires
        cache.key_set().contains((name, vers)),
    ensures
        spec_decide(cache.key_set(), (name, vers)) == CacheDecision::Reuse,
{
}

/// Once a success is recorded for a key, a later pass decides to reuse
/// it: a second run over an unchanged index invokes the resolver for
/// none of the keys that succeeded before.
pub proof fn lemma_second_run_reuses(
    before: Set<(Seq<char>, Seq<char>)>,
    key: (Seq<char>, Seq<char>),
)
    ensures
        spec_decide(before.insert(key), key) == CacheDecision::Reuse,
{
}

/// The worker a work item is pinned to; each worker owns one resolver
/// context for its whole lifetime, so an item never migrates between
/// contexts.
pub fn worker_of(item_index: usize, concurrency: usize) -> (r: usize)
    requires
        concurrency > 0,
    ensures
        r == item_index % concurrency,
        r < concurrency,
{
    item_index % concurrency
}

/// Entry `i2` of the index has its latest non-yanked version at
/// position `li`, and that version is (name, vers).
pub open spec fn item_matches(
    ix: PackageIndex,
    i2: int,
    li: int,
    name: Seq<char>,
    vers: Seq<char>,
) -> bool {
    &&& 0 <= i2 < ix.entries.len()
    &&& ix.entries[i2].name@ == name
    &&& ix.entries[i2].is_latest_non_yanked(li)
    &&& ix.entries[i2].versions[li].record.vers@ == vers
}

/// The work item names some package of the index at its latest
/// non-yanked version.
pub open spec fn item_ok(ix: PackageIndex, name: Seq<char>, vers: Seq<char>) -> bool {
    exists|i2: int, li: int| #[trigger] item_matches(ix, i2, li, name, vers)
}

/// Entry `i2` of the index is represented among the work items.
pub open spec fn entry_covered(ix: PackageIndex, i2: int, items: Seq<WorkItem>) -> bool {
    exists|k: int, li: int|
        0 <= k < items.len() && #[trigger] item_matches(ix, i2, li, items[k].name@, items[k].vers@)
}

/// Selects the work: per package its latest non-yanked version;
/// packages with none are skipped and counted, never errors.
pub fn select_work(ix: &PackageIndex) -> (r: (Vec<WorkItem>, usize))
    requires
        ix.wf(),
    ensures
        r.0@.len() + r.1 == ix.entries@.len(),
        forall|k: int|
            0 <= k < r.0@.len() ==> item_ok(*ix, (#[trigger] r.0@[k]).name@, r.0@[k].vers@),
        forall|i2: int|
            0 <= i2 < ix.entries.len() && !(#[trigger] ix.entries[i2]).all_yanked()
                ==> entry_covered(*ix, i2, r.0@),
{
    let mut items: Vec<WorkItem> = Vec::new();
    let mut skipped: usize = 0;
    let n = ix.entries.len();
    let mut i: usize = 0;
    while i < n
        invariant
            ix.wf(),
            n == ix.entries@.len(),
            i <= n,
            items@.len() + skipped == i,
            forall|k: int|
                0 <= k < items@.len() ==> item_ok(*ix, (#[trigger] items@[k]).name@, items@[k].vers@),
            forall|i2: int|
                0 <= i2 < i && !(#[trigger] ix.entries[i2]).all_yanked() ==> entry_covered(
                    *ix,
                    i2,
                    items@,
                ),
        decreases n - i,
    {
        let ghost items_prev = items@;
        match ix.entries[i].latest_non_yanked() {
            None => {
                skipped += 1;
            },
            Some(lv) => {
                items.push(
                    WorkItem { name: ix.entries[i].name.clone(), vers: lv.record.vers.clone() },
                );
                proof {
                    let li = choose|li: int|
                        #[trigger] ix.entries[i as int].is_latest_non_yanked(li)
                            && ix.entries[i as int].versions@[li] == *lv;
                    let last = items@.len() - 1;
                    assert(item_matches(*ix, i as int, li, items@[last].name@, items@[last].vers@));
                    assert forall|k: int| 0 <= k < items@.len() implies item_ok(
                        *ix,
                        (#[trigger] items@[k]).name@,
                        items@[k].vers@,
                    ) by {
                        if k < last {
                            assert(items@[k] == items_prev[k]);
                        }
                    }
                    assert forall|i2: int|
                        0 <= i2 < i + 1 && !(#[trigger] ix.entries[i2]).all_yanked()
                            implies entry_covered(*ix, i2, items@) by {
                        if i2 < i {
                            let (k0, li0) = choose|k0: int, li0: int|
                                0 <= k0 < items_prev.len() && #[trigger] item_matches(
                                    *ix,
                                    i2,
                                    li0,
                                    items_prev[k0].name@,
                                    items_prev[k0].vers@,
                                );
                            assert(items@[k0] == items_prev[k0]);
                            assert(item_matches(*ix, i2, li0, items@[k0].name@, items@[k0].vers@));
                        } else {
                            assert(item_matches(
                                *ix,
                                i as int,
                                li,
                                items@[last].name@,
                                items@[last].vers@,
                            ));
                        }
                    }
                }
            },
        }
        i += 1;
    }
    (items, skipped)
}

/// The running totals of one resolution pass: the cache as persisted so
/// far, the successes, and the classified failures.
#[derive(Debug)]
pub struct RunState {
    pub cache: CacheState,
    pub success_count: usize,
    pub failures: Vec<ResolveError>,
}

impl RunState {
    pub open spec fn wf(&self) -> bool {
        self.cache.wf()
    }

    /// A fresh pass over an existing cache.
    pub fn new(cache: CacheState) -> (r: RunState)
        requires
            cache.wf(),
        ensures
            r.wf(),
            r.cache == cache,
            r.success_count == 0,
            r.failures@.len() == 0,
    {
        RunState { cache, success_count: 0, failures: Vec::new() }
    }

    /// A cached result was reused: one more success, nothing written.
    pub fn on_cache_hit(&mut self)
        requires
            old(self).wf(),
            old(self).success_count < usize::MAX,
        ensures
            final(self).wf(),
            final(self).success_count == old(self).success_count + 1,
            final(self).cache == old(self).cache,
            final(self).failures@ == old(self).failures@,
    {
        self.success_count += 1;
    }

    /// The resolver succeeded: the result is persisted under the item's
    /// key, then counted.
    pub fn on_resolved(&mut self, item: &WorkItem)
        requires
            old(self).wf(),
            old(self).success_count < usize::MAX,
        ensures
            final(self).wf(),
            final(self).success_count == old(self).success_count + 1,
            final(self).cache.key_set() =~= old(self).cache.key_set().insert(
                (item.name@, item.vers@),
            ),
            final(self).failures@ == old(self).failures@,
    {
        self.cache.record(item.name.clone(), item.vers.clone());
        self.success_count += 1;
    }

    /// The resolver failed: the diagnostic is classified and recorded;
    /// an unclassifiable diagnostic is fatal and comes back unchanged,
    /// with nothing recorded.
    pub fn on_failed(&mut self, crate_name: String, version: Version, diag: String) -> (r: Result<
        (),
        String,
    >)
        requires
            old(self).wf(),
        ensures
            final(self).wf(),
            final(self).cache == old(self).cache,
            final(self).success_count == old(self).success_count,
            match r {
                Ok(()) => {
                    &&& spec_classify(diag@) is Some
                    &&& final(self).failures@.len() == old(self).failures@.len() + 1
                    &&& final(self).failures@.last().crate_name@ == crate_name@
                    &&& final(self).failures@.last().version == version
                    &&& Some(final(self).failures@.last().kind) == spec_classify(diag@)
                    &&& forall|k: int|
                        0 <= k < old(self).failures@.len() ==> final(self).failures@[k] == old(
                            self,
                        ).failures@[k]
                },
                Err(s) => spec_classify(diag@) is None && s@ == diag@ && final(self).failures@
                    == old(self).failures@,
            },
    {
        match ResolveError::from_str(crate_name, version, diag) {
            Ok(e) => {
                self.failures.push(e);
                Ok(())
            },
            Err(s) => Err(s),
        }
    }
}

} // verus!
