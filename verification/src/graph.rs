use vstd::prelude::*;

use crate::index::PackageIndex;
use crate::krate::Krate;
use crate::record::DepKind;
use crate::requirement::{req_ok, requirement_is_valid};
use crate::version::str_eq;

verus! {

/// One key of the reverse index: a package version together with the
/// set of package versions that depend on it.
#[derive(Debug)]
pub struct RevEntry {
    pub name: String,
    pub vers: String,
    /// The dependents: (package name, version string) pairs.
    pub dependents: Vec<(String, String)>,
}

/// The reverse-dependency index: for each package version, who depends
/// on it. Built once from a package index; insert-only.
#[derive(Debug)]
pub struct ReverseIndex {
    pub entries: Vec<RevEntry>,
}

impl ReverseIndex {
    /// Keys are unique, and so are the dependents under one key.
    pub open spec fn wf(&self) -> bool {
        &&& forall|i: int, j: int|
            0 <= i < j < self.entries.len() ==> ((#[trigger] self.entries[i]).name@ != (
            #[trigger] self.entries[j]).name@ || self.entries[i].vers@ != self.entries[j].vers@)
        &&& forall|i: int, p: int, q: int|
            0 <= i < self.entries.len() && 0 <= p < q < (
            #[trigger] self.entries[i]).dependents.len() ==> ((
            #[trigger] self.entries[i].dependents[p]).0@ != (
            #[trigger] self.entries[i].dependents[q]).0@ || self.entries[i].dependents[p].1@
                != self.entries[i].dependents[q].1@)
    }

    /// The reverse index holds a key for this package version.
    pub open spec fn has_key(&self, tn: Seq<char>, tv: Seq<char>) -> bool {
        exists|i: int|
            0 <= i < self.entries.len() && (#[trigger] self.entries[i]).name@ == tn
                && self.entries[i].vers@ == tv
    }

    /// The reverse index records that (sn, sv) depends on (tn, tv).
    pub open spec fn has_edge(&self, tn: Seq<char>, tv: Seq<char>, sn: Seq<char>, sv: Seq<char>) -> bool {
        exists|i: int, p: int|
            0 <= i < self.entries.len() && (#[trigger] self.entries[i]).name@ == tn
                && self.entries[i].vers@ == tv && 0 <= p < self.entries[i].dependents.len() && (
            #[trigger] self.entries[i].dependents[p]).0@ == sn && self.entries[i].dependents[p].1@
                == sv
    }

    /// An empty reverse index.
    pub fn new() -> (r: ReverseIndex)
        ensures
            r.wf(),
            r.entries@.len() == 0,
            forall|tn: Seq<char>, tv: Seq<char>, sn: Seq<char>, sv: Seq<char>|
                !#[trigger] r.has_edge(tn, tv, sn, sv),
    {
        ReverseIndex { entries: Vec::new() }
    }

    /// The position of the key for this package version, if present.
    pub(crate) fn find_key(&self, tn: &str, tv: &str) -> (r: Option<usize>)
        ensures
            match r {
                Some(i) => i < self.entries@.len() && self.entries@[i as int].name@ == tn@
                    && self.entries@[i as int].vers@ == tv@,
                None => !self.has_key(tn@, tv@),
            },
    {
        let mut i: usize = 0;
        let n = self.entries.len();
        while i < n
            invariant
                n == self.entries.len(),
                i <= n,
                forall|p: int|
                    0 <= p < i ==> ((#[trigger] self.entries[p]).name@ != tn@
                        || self.entries[p].vers@ != tv@),
            decreases n - i,
        {
            if str_eq(self.entries[i].name.as_str(), tn) && str_eq(
                self.entries[i].vers.as_str(),
                tv,
            ) {
                return Some(i);
            }
            i += 1;
        }
        None
    }

    /// Records the edge (tn, tv) <- (sn, sv); recording an edge twice
    /// changes nothing.
    pub fn insert(&mut self, tn: String, tv: String, sn: String, sv: String)
        requires
            old(self).wf(),
        ensures
            final(self).wf(),
            forall|a: Seq<char>, b: Seq<char>, c: Seq<char>, d: Seq<char>|
                #[trigger] final(self).has_edge(a, b, c, d) <==> (old(self).has_edge(a, b, c, d)
                    || (a == tn@ && b == tv@ && c == sn@ && d == sv@)),
    {
        let ghost old_entries = self.entries@;
        match self.find_key(tn.as_str(), tv.as_str()) {
            Some(i) => {
                let mut p: usize = 0;
                let n = self.entries[i].dependents.len();
                while p < n
                    invariant
                        *self == *old(self),
                        old(self).wf(),
                        i < self.entries@.len(),
                        self.entries@[i as int].name@ == tn@,
                        self.entries@[i as int].vers@ == tv@,
                        n == self.entries@[i as int].dependents.len(),
                        p <= n,
                        forall|q: int|
                            0 <= q < p ==> ((#[trigger] self.entries[i as int].dependents[q]).0@
                                != sn@ || self.entries[i as int].dependents[q].1@ != sv@),
                    decreases n - p,
                {
                    if str_eq(self.entries[i].dependents[p].0.as_str(), sn.as_str()) && str_eq(
                        self.entries[i].dependents[p].1.as_str(),
                        sv.as_str(),
                    ) {
                        // already recorded
                        proof {
                            assert(self.entries@[i as int].dependents@[p as int].0@ == sn@);
                            assert(self.has_edge(tn@, tv@, sn@, sv@));
                        }
                        return ;
                    }
                    p += 1;
                }
                let mut entry = self.entries.remove(i);
                entry.dependents.push((sn, sv));
                self.entries.insert(i, entry);
                proof {
                    old_entries.remove_ensures(i as int);
                    old_entries.remove(i as int).insert_ensures(i as int, entry);
                    assert(self.entries@ =~= old_entries.update(i as int, entry));
                    assert forall|a: Seq<char>, b: Seq<char>, c: Seq<char>, d: Seq<char>|
                        #[trigger] self.has_edge(a, b, c, d) implies (old(self).has_edge(a, b, c, d)
                        || (a == tn@ && b == tv@ && c == sn@ && d == sv@)) by {
                        let (i2, p2) = choose|i2: int, p2: int|
                            0 <= i2 < self.entries.len() && (#[trigger] self.entries[i2]).name@
                                == a && self.entries[i2].vers@ == b && 0 <= p2
                                < self.entries[i2].dependents.len() && (
                            #[trigger] self.entries[i2].dependents[p2]).0@ == c
                                && self.entries[i2].dependents[p2].1@ == d;
                        if i2 != i {
                            assert(old_entries[i2] == self.entries@[i2]);
                        } else if p2 < n {
                            assert(old_entries[i2].dependents@[p2]
                                == self.entries@[i2].dependents@[p2]);
                        }
                    }
                    assert forall|a: Seq<char>, b: Seq<char>, c: Seq<char>, d: Seq<char>|
                        old(self).has_edge(a, b, c, d) implies #[trigger] self.has_edge(
                        a,
                        b,
                        c,
                        d,
                    ) by {
                        let (i2, p2) = choose|i2: int, p2: int|
                            0 <= i2 < old_entries.len() && (#[trigger] old_entries[i2]).name@ == a
                                && old_entries[i2].vers@ == b && 0 <= p2
                                < old_entries[i2].dependents.len() && (
                            #[trigger] old_entries[i2].dependents[p2]).0@ == c
                                && old_entries[i2].dependents[p2].1@ == d;
                        if i2 != i {
                            assert(self.entries@[i2] == old_entries[i2]);
                        } else {
                            assert(self.entries@[i2].dependents@[p2]
                                == old_entries[i2].dependents@[p2]);
                        }
                    }
                    assert(self.entries@[i as int] == entry);
                    assert(self.entries@[i as int].name@ == tn@);
                    assert(self.entries@[i as int].vers@ == tv@);
                    assert(self.entries@[i as int].dependents@[n as int].0@ == sn@);
                    assert(self.entries@[i as int].dependents@[n as int].1@ == sv@);
                    assert(self.has_edge(tn@, tv@, sn@, sv@));
                }
            },
            None => {
                let mut dependents: Vec<(String, String)> = Vec::new();
                dependents.push((sn, sv));
                let entry = RevEntry { name: tn, vers: tv, dependents };
                self.entries.push(entry);
                proof {
                    assert forall|a: Seq<char>, b: Seq<char>, c: Seq<char>, d: Seq<char>|
                        #[trigger] self.has_edge(a, b, c, d) implies (old(self).has_edge(a, b, c, d)
                        || (a == entry.name@ && b == entry.vers@ && c == entry.dependents@[0].0@
                            && d == entry.dependents@[0].1@)) by {
                        let (i2, p2) = choose|i2: int, p2: int|
                            0 <= i2 < self.entries.len() && (#[trigger] self.entries[i2]).name@
                                == a && self.entries[i2].vers@ == b && 0 <= p2
                                < self.entries[i2].dependents.len() && (
                            #[trigger] self.entries[i2].dependents[p2]).0@ == c
                                && self.entries[i2].dependents[p2].1@ == d;
                        if i2 < old_entries.len() {
                            assert(old_entries[i2] == self.entries@[i2]);
                        }
                    }
                    assert forall|a: Seq<char>, b: Seq<char>, c: Seq<char>, d: Seq<char>|
                        old(self).has_edge(a, b, c, d) implies #[trigger] self.has_edge(
                        a,
                        b,
                        c,
                        d,
                    ) by {
                        let (i2, p2) = choose|i2: int, p2: int|
                            0 <= i2 < old_entries.len() && (#[trigger] old_entries[i2]).name@ == a
                                && old_entries[i2].vers@ == b && 0 <= p2
                                < old_entries[i2].dependents.len() && (
                            #[trigger] old_entries[i2].dependents[p2]).0@ == c
                                && old_entries[i2].dependents[p2].1@ == d;
                        assert(self.entries@[i2] == old_entries[i2]);
                    }
                    let ghost last = old_entries.len() as int;
                    assert(self.entries@[last] == entry);
                    assert(self.entries@[last].name@ == tn@);
                    assert(self.entries@[last].vers@ == tv@);
                    assert(self.entries@[last].dependents@[0].0@ == sn@);
                    assert(self.entries@[last].dependents@[0].1@ == sv@);
                    assert(self.has_edge(tn@, tv@, sn@, sv@));
                }
            },
        }
    }
}

/// The index selects (tname, tv) for a requirement: tv is the highest
/// non-yanked version of tname satisfying it.
pub open spec fn target_selected(ix: PackageIndex, tname: Seq<char>, req: Seq<char>, tv: Seq<char>) -> bool {
    exists|ti: int, si: int|
        0 <= ti < ix.entries.len() && (#[trigger] ix.entries[ti]).name@ == tname
            && ix.entries[ti].is_selected(req, si) && (
        #[trigger] ix.entries[ti].versions[si]).record.vers@ == tv
}

/// Dependency `di` of version `vi` of package `ki` yields the edge
/// (tn, tv) <- (sn, sv): the source is not yanked, the dependency is
/// not development-only, its requirement parses, and the index selects
/// (tn, tv) for it.
pub open spec fn edge_at(
    ix: PackageIndex,
    ki: int,
    vi: int,
    di: int,
    tn: Seq<char>,
    tv: Seq<char>,
    sn: Seq<char>,
    sv: Seq<char>,
) -> bool {
    &&& 0 <= ki < ix.entries.len()
    &&& 0 <= vi < ix.entries[ki].versions.len()
    &&& 0 <= di < ix.entries[ki].versions[vi].record.deps.len()
    &&& ix.entries[ki].versions[vi].record.name@ == sn
    &&& ix.entries[ki].versions[vi].record.vers@ == sv
    &&& !ix.entries[ki].versions[vi].record.yanked
    &&& ix.entries[ki].versions[vi].record.deps[di].kind != DepKind::Dev
    &&& ix.entries[ki].versions[vi].record.deps[di].name@ == tn
    &&& req_ok(ix.entries[ki].versions[vi].record.deps[di].req@)
    &&& target_selected(ix, tn, ix.entries[ki].versions[vi].record.deps[di].req@, tv)
}

/// Some dependency of some non-yanked version yields this edge.
pub open spec fn edge_exists(
    ix: PackageIndex,
    tn: Seq<char>,
    tv: Seq<char>,
    sn: Seq<char>,
    sv: Seq<char>,
) -> bool {
    exists|ki: int, vi: int, di: int| #[trigger] edge_at(ix, ki, vi, di, tn, tv, sn, sv)
}

/// Source positions strictly before (pk, pv, pd) in processing order.
pub open spec fn pos_lt(ki: int, vi: int, di: int, pk: int, pv: int, pd: int) -> bool {
    ki < pk || (ki == pk && vi < pv) || (ki == pk && vi == pv && di < pd)
}

/// Some dependency at a position before (pk, pv, pd) yields this edge.
pub open spec fn edge_before(
    ix: PackageIndex,
    pk: int,
    pv: int,
    pd: int,
    tn: Seq<char>,
    tv: Seq<char>,
    sn: Seq<char>,
    sv: Seq<char>,
) -> bool {
    exists|ki: int, vi: int, di: int|
        pos_lt(ki, vi, di, pk, pv, pd) && #[trigger] edge_at(ix, ki, vi, di, tn, tv, sn, sv)
}

/// The edges the reverse index holds are exactly those found before the
/// given position.
pub open spec fn edges_upto(ri: ReverseIndex, ix: PackageIndex, pk: int, pv: int, pd: int) -> bool {
    forall|tn: Seq<char>, tv: Seq<char>, sn: Seq<char>, sv: Seq<char>|
        #[trigger] ri.has_edge(tn, tv, sn, sv) <==> edge_before(ix, pk, pv, pd, tn, tv, sn, sv)
}

impl ReverseIndex {
    /// Builds the reverse-dependency index: for every non-yanked
    /// version of every package, for every non-development dependency,
    /// an edge to the selected target version — the highest non-yanked
    /// version satisfying the requirement. A dependency on an unknown
    /// package, an ill-formed requirement, or a requirement nothing
    /// satisfies yields no edge and no error.
    pub fn build(ix: &PackageIndex) -> (ri: ReverseIndex)
        requires
            ix.wf(),
        ensures
            ri.wf(),
            forall|tn: Seq<char>, tv: Seq<char>, sn: Seq<char>, sv: Seq<char>|
                #[trigger] ri.has_edge(tn, tv, sn, sv) <==> edge_exists(*ix, tn, tv, sn, sv),
    {
        let mut ri = ReverseIndex::new();
        let n = ix.entries.len();
        let mut ki: usize = 0;
        proof {
            assert forall|tn: Seq<char>, tv: Seq<char>, sn: Seq<char>, sv: Seq<char>|
                !#[trigger] edge_before(*ix, 0, 0, 0, tn, tv, sn, sv) by {
                if edge_before(*ix, 0, 0, 0, tn, tv, sn, sv) {
                    let (a, b, c) = choose|a: int, b: int, c: int|
                        pos_lt(a, b, c, 0, 0, 0) && #[trigger] edge_at(*ix, a, b, c, tn, tv, sn, sv);
                }
            }
        }
        while ki < n
            invariant
                ix.wf(),
                n == ix.entries@.len(),
                ki <= n,
                ri.wf(),
                edges_upto(ri, *ix, ki as int, 0, 0),
            decreases n - ki,
        {
            Self::build_package(&mut ri, ix, ki);
            ki += 1;
        }
        proof {
            assert forall|tn: Seq<char>, tv: Seq<char>, sn: Seq<char>, sv: Seq<char>|
                #[trigger] ri.has_edge(tn, tv, sn, sv) <==> edge_exists(*ix, tn, tv, sn, sv) by {
                if ri.has_edge(tn, tv, sn, sv) {
                    let (a, b, c) = choose|a: int, b: int, c: int|
                        pos_lt(a, b, c, n as int, 0, 0) && #[trigger] edge_at(
                            *ix,
                            a,
                            b,
                            c,
                            tn,
                            tv,
                            sn,
                            sv,
                        );
                    assert(edge_at(*ix, a, b, c, tn, tv, sn, sv));
                }
                if edge_exists(*ix, tn, tv, sn, sv) {
                    let (a, b, c) = choose|a: int, b: int, c: int|
                        #[trigger] edge_at(*ix, a, b, c, tn, tv, sn, sv);
                    assert(pos_lt(a, b, c, n as int, 0, 0));
                    assert(edge_before(*ix, n as int, 0, 0, tn, tv, sn, sv));
                }
            }
        }
        ri
    }

    /// Folds every version of package `ki` into the reverse index.
    fn build_package(ri: &mut ReverseIndex, ix: &PackageIndex, ki: usize)
        requires
            ix.wf(),
            ki < ix.entries@.len(),
            old(ri).wf(),
            edges_upto(*old(ri), *ix, ki as int, 0, 0),
        ensures
            final(ri).wf(),
            edges_upto(*final(ri), *ix, ki + 1, 0, 0),
    {
        let nv = ix.entries[ki].versions.len();
        let mut vi: usize = 0;
        while vi < nv
            invariant
                ix.wf(),
                ki < ix.entries@.len(),
                nv == ix.entries@[ki as int].versions@.len(),
                vi <= nv,
                ri.wf(),
                edges_upto(*ri, *ix, ki as int, vi as int, 0),
            decreases nv - vi,
        {
            Self::build_version(ri, ix, ki, vi);
            vi += 1;
        }
        proof {
            assert forall|tn: Seq<char>, tv: Seq<char>, sn: Seq<char>, sv: Seq<char>|
                #[trigger] ri.has_edge(tn, tv, sn, sv) <==> edge_before(
                    *ix,
                    ki + 1,
                    0,
                    0,
                    tn,
                    tv,
                    sn,
                    sv,
                ) by {
                if ri.has_edge(tn, tv, sn, sv) {
                    let (a, b, c) = choose|a: int, b: int, c: int|
                        pos_lt(a, b, c, ki as int, nv as int, 0) && #[trigger] edge_at(
                            *ix,
                            a,
                            b,
                            c,
                            tn,
                            tv,
                            sn,
                            sv,
                        );
                    assert(pos_lt(a, b, c, ki + 1, 0, 0));
                    assert(edge_before(*ix, ki + 1, 0, 0, tn, tv, sn, sv));
                }
                if edge_before(*ix, ki + 1, 0, 0, tn, tv, sn, sv) {
                    let (a, b, c) = choose|a: int, b: int, c: int|
                        pos_lt(a, b, c, ki + 1, 0, 0) && #[trigger] edge_at(
                            *ix,
                            a,
                            b,
                            c,
                            tn,
                            tv,
                            sn,
                            sv,
                        );
                    assert(pos_lt(a, b, c, ki as int, nv as int, 0));
                    assert(edge_before(*ix, ki as int, nv as int, 0, tn, tv, sn, sv));
                }
            }
        }
    }

    /// Folds every dependency of version `vi` of package `ki` into the
    /// reverse index; a yanked source yields nothing.
    fn build_version(ri: &mut ReverseIndex, ix: &PackageIndex, ki: usize, vi: usize)
        requires
            ix.wf(),
            ki < ix.entries@.len(),
            vi < ix.entries@[ki as int].versions@.len(),
            old(ri).wf(),
            edges_upto(*old(ri), *ix, ki as int, vi as int, 0),
        ensures
            final(ri).wf(),
            edges_upto(*final(ri), *ix, ki as int, vi + 1, 0),
    {
        let nd = ix.entries[ki].versions[vi].record.deps.len();
        if ix.entries[ki].versions[vi].record.yanked {
            proof {
                assert forall|tn: Seq<char>, tv: Seq<char>, sn: Seq<char>, sv: Seq<char>|
                    #[trigger] ri.has_edge(tn, tv, sn, sv) <==> edge_before(
                        *ix,
                        ki as int,
                        vi + 1,
                        0,
                        tn,
                        tv,
                        sn,
                        sv,
                    ) by {
                    if edge_before(*ix, ki as int, vi + 1, 0, tn, tv, sn, sv) {
                        let (a, b, c) = choose|a: int, b: int, c: int|
                            pos_lt(a, b, c, ki as int, vi + 1, 0) && #[trigger] edge_at(
                                *ix,
                                a,
                                b,
                                c,
                                tn,
                                tv,
                                sn,
                                sv,
                            );
                        assert(pos_lt(a, b, c, ki as int, vi as int, 0));
                        assert(edge_before(*ix, ki as int, vi as int, 0, tn, tv, sn, sv));
                    }
                    if ri.has_edge(tn, tv, sn, sv) {
                        let (a, b, c) = choose|a: int, b: int, c: int|
                            pos_lt(a, b, c, ki as int, vi as int, 0) && #[trigger] edge_at(
                                *ix,
                                a,
                                b,
                                c,
                                tn,
                                tv,
                                sn,
                                sv,
                            );
                        assert(pos_lt(a, b, c, ki as int, vi + 1, 0));
                        assert(edge_before(*ix, ki as int, vi + 1, 0, tn, tv, sn, sv));
                    }
                }
            }
            return ;
        }
        let mut di: usize = 0;
        while di < nd
            invariant
                ix.wf(),
                ki < ix.entries@.len(),
                vi < ix.entries@[ki as int].versions@.len(),
                !ix.entries@[ki as int].versions@[vi as int].record.yanked,
                nd == ix.entries@[ki as int].versions@[vi as int].record.deps@.len(),
                di <= nd,
                ri.wf(),
                edges_upto(*ri, *ix, ki as int, vi as int, di as int),
            decreases nd - di,
        {
            Self::build_dep(ri, ix, ki, vi, di);
            di += 1;
        }
        proof {
            assert forall|tn: Seq<char>, tv: Seq<char>, sn: Seq<char>, sv: Seq<char>|
                #[trigger] ri.has_edge(tn, tv, sn, sv) <==> edge_before(
                    *ix,
                    ki as int,
                    vi + 1,
                    0,
                    tn,
                    tv,
                    sn,
                    sv,
                ) by {
                if ri.has_edge(tn, tv, sn, sv) {
                    let (a, b, c) = choose|a: int, b: int, c: int|
                        pos_lt(a, b, c, ki as int, vi as int, nd as int) && #[trigger] edge_at(
                            *ix,
                            a,
                            b,
                            c,
                            tn,
                            tv,
                            sn,
                            sv,
                        );
                    assert(pos_lt(a, b, c, ki as int, vi + 1, 0));
                    assert(edge_before(*ix, ki as int, vi + 1, 0, tn, tv, sn, sv));
                }
                if edge_before(*ix, ki as int, vi + 1, 0, tn, tv, sn, sv) {
                    let (a, b, c) = choose|a: int, b: int, c: int|
                        pos_lt(a, b, c, ki as int, vi + 1, 0) && #[trigger] edge_at(
                            *ix,
                            a,
                            b,
                            c,
                            tn,
                            tv,
                            sn,
                            sv,
                        );
                    assert(pos_lt(a, b, c, ki as int, vi as int, nd as int));
                    assert(edge_before(*ix, ki as int, vi as int, nd as int, tn, tv, sn, sv));
                }
            }
        }
    }

    /// Considers one dependency: records an edge to the selected target
    /// version, or nothing when the dependency is development-only, the
    /// target package is unknown, the requirement does not parse, or no
    /// version satisfies it.
    fn build_dep(ri: &mut ReverseIndex, ix: &PackageIndex, ki: usize, vi: usize, di: usize)
        requires
            ix.wf(),
            ki < ix.entries@.len(),
            vi < ix.entries@[ki as int].versions@.len(),
            !ix.entries@[ki as int].versions@[vi as int].record.yanked,
            di < ix.entries@[ki as int].versions@[vi as int].record.deps@.len(),
            old(ri).wf(),
            edges_upto(*old(ri), *ix, ki as int, vi as int, di as int),
        ensures
            final(ri).wf(),
            edges_upto(*final(ri), *ix, ki as int, vi as int, di + 1),
    {
        let src = &ix.entries[ki].versions[vi].record;
        let dep = &src.deps[di];
        let mut inserted: bool = false;
        let ghost mut etn: Seq<char> = Seq::empty();
        let ghost mut etv: Seq<char> = Seq::empty();
        if !matches!(dep.kind, DepKind::Dev) && requirement_is_valid(dep.req.as_str()) {
            if let Some(target) = ix.get(dep.name.as_str()) {
                if let Some(si) = target.select(dep.req.as_str()) {
                    let tn = target.name.clone();
                    let tv = target.versions[si].record.vers.clone();
                    proof {
                        etn = tn@;
                        etv = tv@;
                        assert(target_selected(*ix, tn@, dep.req@, tv@));
                        assert(edge_at(*ix, ki as int, vi as int, di as int, tn@, tv@, src.name@, src.vers@));
                    }
                    ri.insert(tn, tv, src.name.clone(), src.vers.clone());
                    inserted = true;
                }
            }
        }
        proof {
            let k = ki as int;
            let v = vi as int;
            let d = di as int;
            assert forall|tn: Seq<char>, tv: Seq<char>, sn: Seq<char>, sv: Seq<char>|
                #[trigger] ri.has_edge(tn, tv, sn, sv) <==> edge_before(
                    *ix,
                    k,
                    v,
                    d + 1,
                    tn,
                    tv,
                    sn,
                    sv,
                ) by {
                if ri.has_edge(tn, tv, sn, sv) {
                    if old(ri).has_edge(tn, tv, sn, sv) {
                        let (a, b, c) = choose|a: int, b: int, c: int|
                            pos_lt(a, b, c, k, v, d) && #[trigger] edge_at(
                                *ix,
                                a,
                                b,
                                c,
                                tn,
                                tv,
                                sn,
                                sv,
                            );
                        assert(pos_lt(a, b, c, k, v, d + 1));
                        assert(edge_before(*ix, k, v, d + 1, tn, tv, sn, sv));
                    } else {
                        // the edge recorded just now
                        assert(inserted && tn == etn && tv == etv && sn
                            == ix.entries@[k].versions@[v].record.name@ && sv
                            == ix.entries@[k].versions@[v].record.vers@);
                        assert(edge_at(*ix, k, v, d, tn, tv, sn, sv));
                        assert(pos_lt(k, v, d, k, v, d + 1));
                        assert(edge_before(*ix, k, v, d + 1, tn, tv, sn, sv));
                    }
                }
                if edge_before(*ix, k, v, d + 1, tn, tv, sn, sv) {
                    let (a, b, c) = choose|a: int, b: int, c: int|
                        pos_lt(a, b, c, k, v, d + 1) && #[trigger] edge_at(
                            *ix,
                            a,
                            b,
                            c,
                            tn,
                            tv,
                            sn,
                            sv,
                        );
                    if pos_lt(a, b, c, k, v, d) {
                        assert(edge_before(*ix, k, v, d, tn, tv, sn, sv));
                        assert(old(ri).has_edge(tn, tv, sn, sv));
                    } else {
                        // exactly this dependency: it produced an edge, so
                        // the checks went through and the insert happened
                        assert(a == k && b == v && c == d);
                        assert(edge_at(*ix, k, v, d, tn, tv, sn, sv));
                        lemma_selected_unique(*ix, tn, ix.entries@[k].versions@[v].record.deps@[d].req@, tv, etv);
                        assert(ri.has_edge(tn, tv, sn, sv));
                    }
                }
            }
        }
    }
}

/// Under a well-formed index, the selected version for a requirement is
/// unique: two selections for the same package and requirement name the
/// same version string.
proof fn lemma_selected_unique(
    ix: PackageIndex,
    tname: Seq<char>,
    req: Seq<char>,
    tv1: Seq<char>,
    tv2: Seq<char>,
)
    requires
        ix.wf(),
        target_selected(ix, tname, req, tv1),
        target_selected(ix, tname, req, tv2),
    ensures
        tv1 == tv2,
{
    let (ti1, si1) = choose|ti: int, si: int|
        0 <= ti < ix.entries.len() && (#[trigger] ix.entries[ti]).name@ == tname
            && ix.entries[ti].is_selected(req, si) && (
        #[trigger] ix.entries[ti].versions[si]).record.vers@ == tv1;
    let (ti2, si2) = choose|ti: int, si: int|
        0 <= ti < ix.entries.len() && (#[trigger] ix.entries[ti]).name@ == tname
            && ix.entries[ti].is_selected(req, si) && (
        #[trigger] ix.entries[ti].versions[si]).record.vers@ == tv2;
    // names are unique, so the two entries are one
    assert(ti1 == ti2);
    // and within one entry the selected position is unique
    if si1 < si2 {
        assert(ix.entries[ti1].versions[si2].record.yanked || !crate::requirement::req_match(
            req,
            ix.entries[ti1].versions[si2].record.vers@,
        ));
    } else if si2 < si1 {
        assert(ix.entries[ti1].versions[si1].record.yanked || !crate::requirement::req_match(
            req,
            ix.entries[ti1].versions[si1].record.vers@,
        ));
    }
}

} // verus!
