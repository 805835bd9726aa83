use vstd::prelude::*;

use crate::graph::ReverseIndex;
use crate::index::PackageIndex;
use crate::requirement::{req_match, req_ok, requirement_is_valid, requirement_matches};
use crate::toolchain::{
    rust_version_compat, rust_version_compatible, rust_version_is_valid, rust_version_ok,
};
use crate::version::{semver_parse, str_eq, Version};

verus! {

/// A starting point of the traversal: a version of the target package,
/// present in the reverse index, that satisfies the requirement.
pub open spec fn seed_pair(
    ri: ReverseIndex,
    target: Seq<char>,
    req: Seq<char>,
    name: Seq<char>,
    vers: Seq<char>,
) -> bool {
    &&& name == target
    &&& req_ok(req)
    &&& semver_parse(vers) is Some
    &&& req_match(req, vers)
    &&& ri.has_key(name, vers)
}

/// The pair is reached from a seed in exactly `n` reverse-dependency
/// steps.
pub open spec fn reach_n(
    ri: ReverseIndex,
    target: Seq<char>,
    req: Seq<char>,
    name: Seq<char>,
    vers: Seq<char>,
    n: nat,
) -> bool
    decreases n,
{
    if n == 0 {
        seed_pair(ri, target, req, name, vers)
    } else {
        exists|qn: Seq<char>, qv: Seq<char>|
            reach_n(ri, target, req, qn, qv, (n - 1) as nat) && #[trigger] ri.has_edge(
                qn,
                qv,
                name,
                vers,
            )
    }
}

/// The pair is reached from a seed in some number of steps, the seed
/// itself included.
pub open spec fn reach_any(
    ri: ReverseIndex,
    target: Seq<char>,
    req: Seq<char>,
    name: Seq<char>,
    vers: Seq<char>,
) -> bool {
    exists|n: nat| #[trigger] reach_n(ri, target, req, name, vers, n)
}

/// The pair is a transitively reached dependent: at least one step away
/// from a seed.
pub open spec fn reachable_dependent(
    ri: ReverseIndex,
    target: Seq<char>,
    req: Seq<char>,
    name: Seq<char>,
    vers: Seq<char>,
) -> bool {
    exists|n: nat| n >= 1 && #[trigger] reach_n(ri, target, req, name, vers, n)
}

/// Reaching a pair and following one reverse edge reaches the next
/// pair, one step further out.
pub proof fn lemma_reach_step(
    ri: ReverseIndex,
    target: Seq<char>,
    req: Seq<char>,
    qn: Seq<char>,
    qv: Seq<char>,
    n: nat,
    dn: Seq<char>,
    dv: Seq<char>,
)
    requires
        reach_n(ri, target, req, qn, qv, n),
        ri.has_edge(qn, qv, dn, dv),
    ensures
        reach_n(ri, target, req, dn, dv, n + 1),
{
    assert(reach_n(ri, target, req, dn, dv, n + 1)) by {
        reveal_with_fuel(reach_n, 2);
        assert(reach_n(ri, target, req, qn, qv, ((n + 1) - 1) as nat));
        assert(ri.has_edge(qn, qv, dn, dv));
    }
}

/// The name occurs in the list.
pub open spec fn in_names(seen: Seq<String>, n: Seq<char>) -> bool {
    exists|k: int| 0 <= k < seen.len() && (#[trigger] seen[k])@ == n
}

/// Every package name that occurs as a dependent anywhere in the
/// reverse index.
pub open spec fn dep_names(entries: Seq<crate::graph::RevEntry>) -> Set<Seq<char>> {
    Set::new(
        |n: Seq<char>|
            exists|i: int, p: int|
                0 <= i < entries.len() && 0 <= p < (#[trigger] entries[i]).dependents.len() && (
                #[trigger] entries[i].dependents[p]).0@ == n,
    )
}

proof fn lemma_dep_names_finite(entries: Seq<crate::graph::RevEntry>)
    ensures
        dep_names(entries).finite(),
    decreases entries.len(),
{
    if entries.len() == 0 {
        assert(dep_names(entries) =~= Set::<Seq<char>>::empty());
    } else {
        let head = entries.drop_last();
        let last = entries.last();
        lemma_dep_names_finite(head);
        let last_names = last.dependents@.map_values(|d: (String, String)| d.0@);
        vstd::seq_lib::seq_to_set_is_finite(last_names);
        assert(dep_names(entries) =~= dep_names(head).union(last_names.to_set())) by {
            assert forall|n: Seq<char>| dep_names(entries).contains(n) implies dep_names(
                head,
            ).union(last_names.to_set()).contains(n) by {
                let (i, p) = choose|i: int, p: int|
                    0 <= i < entries.len() && 0 <= p < (#[trigger] entries[i]).dependents.len()
                        && (#[trigger] entries[i].dependents[p]).0@ == n;
                if i < entries.len() - 1 {
                    assert(head[i] == entries[i]);
                    assert(dep_names(head).contains(n));
                } else {
                    assert(last_names[p] == n);
                    assert(last_names.to_set().contains(n));
                }
            }
            assert forall|n: Seq<char>|
                dep_names(head).union(last_names.to_set()).contains(n) implies dep_names(
                entries,
            ).contains(n) by {
                if dep_names(head).contains(n) {
                    let (i, p) = choose|i: int, p: int|
                        0 <= i < head.len() && 0 <= p < (#[trigger] head[i]).dependents.len() && (
                        #[trigger] head[i].dependents[p]).0@ == n;
                    assert(entries[i] == head[i]);
                    assert((entries[i].dependents[p]).0@ == n);
                } else {
                    let p = choose|p: int| 0 <= p < last_names.len() && last_names[p] == n;
                    assert((entries[entries.len() - 1].dependents[p]).0@ == n);
                }
            }
        }
    }
}

/// Whether the list holds this name.
fn name_in(v: &Vec<String>, s: &str) -> (r: bool)
    ensures
        r == in_names(v@, s@),
{
    let mut k: usize = 0;
    let n = v.len();
    while k < n
        invariant
            n == v@.len(),
            k <= n,
            forall|q: int| 0 <= q < k ==> (#[trigger] v@[q])@ != s@,
        decreases n - k,
    {
        if str_eq(v[k].as_str(), s) {
            return true;
        }
        k += 1;
    }
    false
}

/// Expands one reached pair: looks up its dependents and records every
/// one whose package name has not been seen.
#[verifier::rlimit(60)]
fn expand(
    ri: &ReverseIndex,
    cur: &(String, String),
    result: &mut Vec<(String, String)>,
    queue: &mut Vec<(String, String)>,
    seen: &mut Vec<String>,
    g_rem: Ghost<Set<Seq<char>>>,
    g_target: Ghost<Seq<char>>,
    g_req: Ghost<Seq<char>>,
) -> (g_out: Ghost<Set<Seq<char>>>)
    requires
        ri.wf(),
        reach_any(*ri, g_target@, g_req@, cur.0@, cur.1@),
        // names seen so far: the target first, then one per result entry
        old(seen)@.len() == old(result)@.len() + 1,
        old(seen)@[0]@ == g_target@,
        forall|k: int|
            0 <= k < old(result)@.len() ==> (#[trigger] old(result)@[k]).0@ == old(seen)@[k + 1]@,
        forall|i: int, j: int| 0 <= i < j < old(seen)@.len() ==> old(seen)@[i]@ != old(seen)@[j]@,
        forall|k: int|
            0 <= k < old(result)@.len() ==> reachable_dependent(
                *ri,
                g_target@,
                g_req@,
                (#[trigger] old(result)@[k]).0@,
                old(result)@[k].1@,
            ),
        forall|k: int|
            0 <= k < old(queue)@.len() ==> reach_any(
                *ri,
                g_target@,
                g_req@,
                (#[trigger] old(queue)@[k]).0@,
                old(queue)@[k].1@,
            ),
        g_rem@.finite(),
        forall|nm: Seq<char>|
            dep_names(ri.entries@).contains(nm) && !in_names(old(seen)@, nm)
                ==> g_rem@.contains(nm),
    ensures
        final(seen)@.len() == final(result)@.len() + 1,
        final(seen)@[0]@ == g_target@,
        forall|k: int|
            0 <= k < final(result)@.len()
                ==> (#[trigger] final(result)@[k]).0@ == final(seen)@[k + 1]@,
        forall|i: int, j: int|
            0 <= i < j < final(seen)@.len() ==> final(seen)@[i]@ != final(seen)@[j]@,
        forall|k: int|
            0 <= k < final(result)@.len() ==> reachable_dependent(
                *ri,
                g_target@,
                g_req@,
                (#[trigger] final(result)@[k]).0@,
                final(result)@[k].1@,
            ),
        forall|k: int|
            0 <= k < final(queue)@.len() ==> reach_any(
                *ri,
                g_target@,
                g_req@,
                (#[trigger] final(queue)@[k]).0@,
                final(queue)@[k].1@,
            ),
        g_out@.finite(),
        g_out@.subset_of(g_rem@),
        forall|nm: Seq<char>|
            dep_names(ri.entries@).contains(nm) && !in_names(final(seen)@, nm)
                ==> g_out@.contains(nm),
        final(queue)@.len() - old(queue)@.len() <= g_rem@.len() - g_out@.len(),
        // growth only, and whatever joins the result also joins the queue
        old(seen)@.is_prefix_of(final(seen)@),
        old(result)@.is_prefix_of(final(result)@),
        old(queue)@.is_prefix_of(final(queue)@),
        final(queue)@.len() - old(queue)@.len() == final(result)@.len() - old(result)@.len(),
        forall|k: int|
            0 <= k < final(result)@.len() - old(result)@.len()
                ==> #[trigger] final(queue)@[old(queue)@.len() + k] == final(result)@[old(
                result,
            )@.len() + k],
        // every dependent of the expanded pair is now seen
        forall|dn: Seq<char>, dv: Seq<char>|
            #[trigger] ri.has_edge(cur.0@, cur.1@, dn, dv) ==> in_names(final(seen)@, dn),
{
    let ghost mut remaining: Set<Seq<char>> = g_rem@;
    let ei_opt = ri.find_key(cur.0.as_str(), cur.1.as_str());
    match ei_opt {
        None => {
            proof {
                assert forall|dn: Seq<char>, dv: Seq<char>|
                    #[trigger] ri.has_edge(cur.0@, cur.1@, dn, dv) implies in_names(
                    seen@,
                    dn,
                ) by {
                    let (i2, p2) = choose|i2: int, p2: int|
                        0 <= i2 < ri.entries.len() && (#[trigger] ri.entries[i2]).name@ == cur.0@
                            && ri.entries[i2].vers@ == cur.1@ && 0 <= p2
                            < ri.entries[i2].dependents.len() && (
                        #[trigger] ri.entries[i2].dependents[p2]).0@ == dn
                            && ri.entries[i2].dependents[p2].1@ == dv;
                    assert(ri.has_key(cur.0@, cur.1@));
                }
            }
            Ghost(remaining)
        },
        Some(ei) => {
            let ghost n_reach = choose|n: nat|
                #[trigger] reach_n(*ri, g_target@, g_req@, cur.0@, cur.1@, n);
            let nd = ri.entries[ei].dependents.len();
            let mut d: usize = 0;
            while d < nd
                invariant
                    ri.wf(),
                    ei < ri.entries@.len(),
                    ri.entries@[ei as int].name@ == cur.0@,
                    ri.entries@[ei as int].vers@ == cur.1@,
                    nd == ri.entries@[ei as int].dependents@.len(),
                    d <= nd,
                    reach_n(*ri, g_target@, g_req@, cur.0@, cur.1@, n_reach),
                    seen@.len() == result@.len() + 1,
                    seen@[0]@ == g_target@,
                    forall|k: int|
                        0 <= k < result@.len() ==> (#[trigger] result@[k]).0@ == seen@[k + 1]@,
                    forall|i: int, j: int| 0 <= i < j < seen@.len() ==> seen@[i]@ != seen@[j]@,
                    forall|k: int|
                        0 <= k < result@.len() ==> reachable_dependent(
                            *ri,
                            g_target@,
                            g_req@,
                            (#[trigger] result@[k]).0@,
                            result@[k].1@,
                        ),
                    forall|k: int|
                        0 <= k < queue@.len() ==> reach_any(
                            *ri,
                            g_target@,
                            g_req@,
                            (#[trigger] queue@[k]).0@,
                            queue@[k].1@,
                        ),
                    g_rem@.finite(),
                    remaining.finite(),
                    remaining.subset_of(g_rem@),
                    forall|nm: Seq<char>|
                        dep_names(ri.entries@).contains(nm) && !in_names(seen@, nm)
                            ==> remaining.contains(nm),
                    queue@.len() - old(queue)@.len() <= g_rem@.len() - remaining.len(),
                    old(seen)@.is_prefix_of(seen@),
                    old(result)@.is_prefix_of(result@),
                    old(queue)@.is_prefix_of(queue@),
                    queue@.len() - old(queue)@.len() == result@.len() - old(result)@.len(),
                    forall|k: int|
                        0 <= k < result@.len() - old(result)@.len()
                            ==> #[trigger] queue@[old(queue)@.len() + k] == result@[old(
                            result,
                        )@.len() + k],
                    forall|q: int|
                        0 <= q < d ==> in_names(
                            seen@,
                            (#[trigger] ri.entries@[ei as int].dependents@[q]).0@,
                        ),
                decreases nd - d,
            {
                let ghost s_prev = seen@;
                let dn = &ri.entries[ei].dependents[d].0;
                let dv = &ri.entries[ei].dependents[d].1;
                if !name_in(seen, dn.as_str()) {
                    proof {
                        assert(dep_names(ri.entries@).contains(dn@));
                        assert(remaining.contains(dn@));
                        remaining = remaining.remove(dn@);
                    }
                    seen.push(dn.clone());
                    result.push((dn.clone(), dv.clone()));
                    queue.push((dn.clone(), dv.clone()));
                    proof {
                        assert(ri.has_edge(cur.0@, cur.1@, dn@, dv@));
                        lemma_reach_step(
                            *ri,
                            g_target@,
                            g_req@,
                            cur.0@,
                            cur.1@,
                            n_reach,
                            dn@,
                            dv@,
                        );
                        assert(reachable_dependent(*ri, g_target@, g_req@, dn@, dv@));
                        assert(reach_any(*ri, g_target@, g_req@, dn@, dv@));
                        assert(seen@[seen@.len() - 1]@ == dn@);
                        assert forall|nm: Seq<char>|
                            dep_names(ri.entries@).contains(nm) && !in_names(seen@, nm)
                                implies remaining.contains(nm) by {
                            if in_names(s_prev, nm) {
                                let k = choose|k: int|
                                    0 <= k < s_prev.len() && (#[trigger] s_prev[k])@ == nm;
                                assert(seen@[k]@ == nm);
                            }
                        }
                        assert forall|q: int| 0 <= q < d + 1 implies in_names(
                            seen@,
                            (#[trigger] ri.entries@[ei as int].dependents@[q]).0@,
                        ) by {
                            if q < d {
                                let nm = ri.entries@[ei as int].dependents@[q].0@;
                                assert(in_names(s_prev, nm));
                                let k = choose|k: int|
                                    0 <= k < s_prev.len() && (#[trigger] s_prev[k])@ == nm;
                                assert(seen@[k]@ == nm);
                            } else {
                                assert(seen@[seen@.len() - 1]@ == dn@);
                            }
                        }
                    }
                } else {
                    proof {
                        assert(in_names(seen@, ri.entries@[ei as int].dependents@[d as int].0@));
                    }
                }
                d += 1;
            }
            proof {
                assert forall|dn: Seq<char>, dv: Seq<char>|
                    #[trigger] ri.has_edge(cur.0@, cur.1@, dn, dv) implies in_names(
                    seen@,
                    dn,
                ) by {
                    let (i2, p2) = choose|i2: int, p2: int|
                        0 <= i2 < ri.entries.len() && (#[trigger] ri.entries[i2]).name@ == cur.0@
                            && ri.entries[i2].vers@ == cur.1@ && 0 <= p2
                            < ri.entries[i2].dependents.len() && (
                        #[trigger] ri.entries[i2].dependents[p2]).0@ == dn
                            && ri.entries[i2].dependents[p2].1@ == dv;
                    // keys are unique, so the dependents come from entry ei
                    assert(i2 == ei as int);
                }
            }
            Ghost(remaining)
        },
    }
}

/// Breadth-first traversal of the reverse index from every version of
/// the target package satisfying the requirement. The result lists the
/// transitively reached dependents, one pair per package name, the
/// target itself excluded. An ill-formed requirement reaches nothing.
#[verifier::rlimit(60)]
pub fn walk_core(ri: &ReverseIndex, target: &str, req: &str) -> (r: Vec<(String, String)>)
    requires
        ri.wf(),
    ensures
        forall|i: int, j: int| 0 <= i < j < r@.len() ==> (#[trigger] r@[i]).0@ != (#[trigger] r@[j]).0@,
        forall|i: int| 0 <= i < r@.len() ==> (#[trigger] r@[i]).0@ != target@,
        forall|i: int|
            0 <= i < r@.len() ==> reachable_dependent(
                *ri,
                target@,
                req@,
                (#[trigger] r@[i]).0@,
                r@[i].1@,
            ),
        forall|sn: Seq<char>, sv: Seq<char>, dn: Seq<char>, dv: Seq<char>|
            seed_pair(*ri, target@, req@, sn, sv) && #[trigger] ri.has_edge(sn, sv, dn, dv) && dn
                != target@ ==> exists|i: int|
                0 <= i < r@.len() && (#[trigger] r@[i]).0@ == dn,
        // the result is closed under dependents: whatever depends on a
        // reached pair is itself represented
        forall|pn: Seq<char>, pv: Seq<char>, dn: Seq<char>, dv: Seq<char>|
            (exists|i: int| 0 <= i < r@.len() && (#[trigger] r@[i]).0@ == pn && r@[i].1@ == pv)
                && #[trigger] ri.has_edge(pn, pv, dn, dv) && dn != target@ ==> exists|k: int|
                0 <= k < r@.len() && (#[trigger] r@[k]).0@ == dn,
        !req_ok(req@) ==> r@.len() == 0,
{
    let mut result: Vec<(String, String)> = Vec::new();
    let mut queue: Vec<(String, String)> = Vec::new();
    let mut seen: Vec<String> = Vec::new();
    seen.push(target.to_owned());
    if !requirement_is_valid(req) {
        return result;
    }
    // seeds: every version of the target present in the reverse index
    // and satisfying the requirement
    let ne = ri.entries.len();
    let mut e: usize = 0;
    while e < ne
        invariant
            ri.wf(),
            req_ok(req@),
            ne == ri.entries@.len(),
            e <= ne,
            seen@.len() == 1,
            seen@[0]@ == target@,
            result@.len() == 0,
            forall|k: int|
                0 <= k < queue@.len() ==> seed_pair(
                    *ri,
                    target@,
                    req@,
                    (#[trigger] queue@[k]).0@,
                    queue@[k].1@,
                ),
            forall|i2: int|
                0 <= i2 < e && (#[trigger] ri.entries@[i2]).name@ == target@ && semver_parse(
                    ri.entries@[i2].vers@,
                ) is Some && req_match(req@, ri.entries@[i2].vers@) ==> exists|k: int|
                    0 <= k < queue@.len() && (#[trigger] queue@[k]).0@ == ri.entries@[i2].name@
                        && queue@[k].1@ == ri.entries@[i2].vers@,
        decreases ne - e,
    {
        let ghost q_prev = queue@;
        if str_eq(ri.entries[e].name.as_str(), target) && requirement_matches(
            req,
            ri.entries[e].vers.as_str(),
        ) {
            queue.push((ri.entries[e].name.clone(), ri.entries[e].vers.clone()));
            proof {
                assert(ri.has_key(target@, ri.entries@[e as int].vers@));
                assert(queue@[queue@.len() - 1].0@ == ri.entries@[e as int].name@);
                assert(queue@[queue@.len() - 1].1@ == ri.entries@[e as int].vers@);
                assert(seed_pair(
                    *ri,
                    target@,
                    req@,
                    queue@[queue@.len() - 1].0@,
                    queue@[queue@.len() - 1].1@,
                ));
                assert forall|i2: int|
                    0 <= i2 < e + 1 && (#[trigger] ri.entries@[i2]).name@ == target@
                        && semver_parse(ri.entries@[i2].vers@) is Some && req_match(
                        req@,
                        ri.entries@[i2].vers@,
                    ) implies exists|k: int|
                    0 <= k < queue@.len() && (#[trigger] queue@[k]).0@ == ri.entries@[i2].name@
                        && queue@[k].1@ == ri.entries@[i2].vers@ by {
                    if i2 < e {
                        let k = choose|k: int|
                            0 <= k < q_prev.len() && (#[trigger] q_prev[k]).0@
                                == ri.entries@[i2].name@ && q_prev[k].1@ == ri.entries@[i2].vers@;
                        assert(queue@[k] == q_prev[k]);
                    } else {
                        assert(queue@[queue@.len() - 1].0@ == ri.entries@[i2].name@);
                    }
                }
            }
        }
        e += 1;
    }
    let ghost mut processed: Set<(Seq<char>, Seq<char>)> = Set::empty();
    let ghost mut remaining: Set<Seq<char>> = dep_names(ri.entries@);
    proof {
        lemma_dep_names_finite(ri.entries@);
        assert forall|k: int| 0 <= k < queue@.len() implies reach_any(
            *ri,
            target@,
            req@,
            (#[trigger] queue@[k]).0@,
            queue@[k].1@,
        ) by {
            assert(reach_n(*ri, target@, req@, queue@[k].0@, queue@[k].1@, 0));
        }
    }
    while queue.len() > 0
        invariant
            ri.wf(),
            req_ok(req@),
            seen@.len() == result@.len() + 1,
            seen@[0]@ == target@,
            forall|k: int| 0 <= k < result@.len() ==> (#[trigger] result@[k]).0@ == seen@[k + 1]@,
            forall|i: int, j: int| 0 <= i < j < seen@.len() ==> seen@[i]@ != seen@[j]@,
            forall|k: int|
                0 <= k < result@.len() ==> reachable_dependent(
                    *ri,
                    target@,
                    req@,
                    (#[trigger] result@[k]).0@,
                    result@[k].1@,
                ),
            forall|k: int|
                0 <= k < queue@.len() ==> reach_any(
                    *ri,
                    target@,
                    req@,
                    (#[trigger] queue@[k]).0@,
                    queue@[k].1@,
                ),
            remaining.finite(),
            forall|nm: Seq<char>|
                dep_names(ri.entries@).contains(nm) && !in_names(seen@, nm) ==> remaining.contains(
                    nm,
                ),
            // every seed is either processed or still queued
            forall|sn: Seq<char>, sv: Seq<char>|
                #[trigger] seed_pair(*ri, target@, req@, sn, sv) ==> processed.contains((sn, sv))
                    || exists|k: int|
                    0 <= k < queue@.len() && (#[trigger] queue@[k]).0@ == sn && queue@[k].1@ == sv,
            // each processed pair's dependents are all seen
            forall|pn: Seq<char>, pv: Seq<char>, dn: Seq<char>, dv: Seq<char>|
                processed.contains((pn, pv)) && #[trigger] ri.has_edge(pn, pv, dn, dv) ==> in_names(
                    seen@,
                    dn,
                ),
            // every reached pair is either processed or still queued
            forall|k: int|
                0 <= k < result@.len() ==> processed.contains(
                    ((#[trigger] result@[k]).0@, result@[k].1@),
                ) || exists|q: int|
                    0 <= q < queue@.len() && (#[trigger] queue@[q]).0@ == result@[k].0@
                        && queue@[q].1@ == result@[k].1@,
        decreases remaining.len(), queue@.len(),
    {
        let ghost q_start = queue@;
        let ghost p_start = processed;
        let ghost s_start = seen@;
        let ghost r_start = result@;
        let cur = queue.remove(0);
        proof {
            processed = processed.insert((cur.0@, cur.1@));
        }
        let g_out = expand(
            ri,
            &cur,
            &mut result,
            &mut queue,
            &mut seen,
            Ghost(remaining),
            Ghost(target@),
            Ghost(req@),
        );
        proof {
            vstd::set_lib::lemma_len_subset(g_out@, remaining);
            remaining = g_out@;
            assert forall|sn: Seq<char>, sv: Seq<char>|
                #[trigger] seed_pair(*ri, target@, req@, sn, sv) implies processed.contains(
                (sn, sv),
            ) || exists|k: int|
                0 <= k < queue@.len() && (#[trigger] queue@[k]).0@ == sn && queue@[k].1@
                    == sv by {
                if !p_start.contains((sn, sv)) {
                    let k0 = choose|k0: int|
                        0 <= k0 < q_start.len() && (#[trigger] q_start[k0]).0@ == sn
                            && q_start[k0].1@ == sv;
                    if k0 == 0 {
                        assert(processed.contains((sn, sv)));
                    } else {
                        q_start.remove_ensures(0);
                        assert(q_start.remove(0)[k0 - 1] == q_start[k0]);
                        assert(queue@[k0 - 1] == q_start.remove(0)[k0 - 1]);
                    }
                }
            }
            assert forall|pn: Seq<char>, pv: Seq<char>, dn: Seq<char>, dv: Seq<char>|
                processed.contains((pn, pv)) && #[trigger] ri.has_edge(pn, pv, dn, dv) implies in_names(
                seen@,
                dn,
            ) by {
                if p_start.contains((pn, pv)) {
                    let k = choose|k: int|
                        0 <= k < s_start.len() && (#[trigger] s_start[k])@ == dn;
                    assert(seen@[k]@ == dn);
                }
            }
            assert forall|k: int| 0 <= k < result@.len() implies processed.contains(
                ((#[trigger] result@[k]).0@, result@[k].1@),
            ) || exists|q: int|
                0 <= q < queue@.len() && (#[trigger] queue@[q]).0@ == result@[k].0@
                    && queue@[q].1@ == result@[k].1@ by {
                if k < r_start.len() {
                    // an old pair: processed already, or it sat in the old
                    // queue and either was taken now or shifted down one
                    assert(result@[k] == r_start[k]);
                    if !p_start.contains((r_start[k].0@, r_start[k].1@)) {
                        let q0 = choose|q0: int|
                            0 <= q0 < q_start.len() && (#[trigger] q_start[q0]).0@
                                == r_start[k].0@ && q_start[q0].1@ == r_start[k].1@;
                        if q0 == 0 {
                            assert(cur == q_start[0]);
                            assert(processed.contains((result@[k].0@, result@[k].1@)));
                        } else {
                            q_start.remove_ensures(0);
                            assert(q_start.remove(0)[q0 - 1] == q_start[q0]);
                            assert(queue@[q0 - 1] == q_start.remove(0)[q0 - 1]);
                        }
                    }
                } else {
                    // a pair reached just now: it joined the queue too
                    let off = k - r_start.len();
                    assert(queue@[q_start.len() - 1 + off] == result@[k]);
                }
            }
        }
    }
    // the queue is drained: every seed and every reached pair was
    // processed, so all their dependents carry seen names, hence result
    // entries
    proof {
        assert forall|sn: Seq<char>, sv: Seq<char>, dn: Seq<char>, dv: Seq<char>|
            seed_pair(*ri, target@, req@, sn, sv) && #[trigger] ri.has_edge(sn, sv, dn, dv) && dn
                != target@ implies exists|i: int|
            0 <= i < result@.len() && (#[trigger] result@[i]).0@ == dn by {
            assert(processed.contains((sn, sv)));
            assert(in_names(seen@, dn));
            let k = choose|k: int| 0 <= k < seen@.len() && (#[trigger] seen@[k])@ == dn;
            assert(k != 0);
            assert(result@[k - 1].0@ == dn);
        }
        assert forall|pn: Seq<char>, pv: Seq<char>, dn: Seq<char>, dv: Seq<char>|
            (exists|i: int|
                0 <= i < result@.len() && (#[trigger] result@[i]).0@ == pn && result@[i].1@ == pv)
                && #[trigger] ri.has_edge(pn, pv, dn, dv) && dn != target@ implies exists|k: int|
            0 <= k < result@.len() && (#[trigger] result@[k]).0@ == dn by {
            let i = choose|i: int|
                0 <= i < result@.len() && (#[trigger] result@[i]).0@ == pn && result@[i].1@ == pv;
            assert(processed.contains((pn, pv)));
            assert(in_names(seen@, dn));
            let k = choose|k: int| 0 <= k < seen@.len() && (#[trigger] seen@[k])@ == dn;
            assert(k != 0);
            assert(result@[k - 1].0@ == dn);
        }
    }
    result
}


/// Which post-traversal filters to apply.
pub struct WalkFilters {
    /// Keep a dependent only at its package's latest non-yanked version.
    pub latest_only: bool,
    /// Keep a dependent only when it declares no minimum-supported
    /// toolchain, or declares one this toolchain version satisfies.
    pub min_version: Option<Version>,
    /// Keep only dependents that have no dependents of their own.
    pub leaf_only: bool,
}

impl WalkFilters {
    /// No filtering at all.
    pub fn none() -> (r: WalkFilters)
        ensures
            !r.latest_only,
            r.min_version is None,
            !r.leaf_only,
    {
        WalkFilters { latest_only: false, min_version: None, leaf_only: false }
    }
}

/// The pair names a package of the index at its latest non-yanked
/// version.
pub open spec fn spec_latest_keep(ix: PackageIndex, n: Seq<char>, v: Seq<char>) -> bool {
    exists|i: int, li: int|
        0 <= i < ix.entries.len() && (#[trigger] ix.entries[i]).name@ == n
            && #[trigger] ix.entries[i].is_latest_non_yanked(li)
            && ix.entries[i].versions[li].record.vers@ == v
}

/// The record's minimum-supported-toolchain constraint, when there is
/// one, is well-formed and satisfied by the toolchain version `t`.
pub open spec fn msv_ok(rv: Option<String>, t: Version) -> bool {
    match rv {
        None => true,
        Some(s) => rust_version_ok(s@) && rust_version_compat(
            s@,
            t.major as int,
            t.minor as int,
            t.patch as int,
        ),
    }
}

/// Every record of the index under this exact (name, version string)
/// pair carries a constraint that `t` satisfies, or none; a pair absent
/// from the index constrains nothing.
pub open spec fn spec_min_keep(ix: PackageIndex, n: Seq<char>, v: Seq<char>, t: Version) -> bool {
    forall|i: int, j: int|
        0 <= i < ix.entries.len() && (#[trigger] ix.entries[i]).name@ == n && 0 <= j
            < ix.entries[i].versions.len() && (#[trigger] ix.entries[i].versions[j]).record.vers@
            == v ==> msv_ok(ix.entries[i].versions[j].record.rust_version, t)
}

/// The package name occurs as a key of the reverse index.
pub open spec fn spec_key_name(ri: ReverseIndex, n: Seq<char>) -> bool {
    exists|i: int| 0 <= i < ri.entries.len() && (#[trigger] ri.entries[i]).name@ == n
}

/// What the filters keep of one reached pair.
pub open spec fn spec_keep(
    ix: PackageIndex,
    ri: ReverseIndex,
    f: WalkFilters,
    n: Seq<char>,
    v: Seq<char>,
) -> bool {
    &&& (f.latest_only ==> spec_latest_keep(ix, n, v))
    &&& (match f.min_version {
        Some(t) => spec_min_keep(ix, n, v, t),
        None => true,
    })
    &&& (f.leaf_only ==> !spec_key_name(ri, n))
}

fn latest_keep(ix: &PackageIndex, n: &str, v: &str) -> (r: bool)
    requires
        ix.wf(),
    ensures
        r == spec_latest_keep(*ix, n@, v@),
{
    match ix.get(n) {
        None => {
            assert(!spec_latest_keep(*ix, n@, v@)) by {
                if spec_latest_keep(*ix, n@, v@) {
                    let (i, li) = choose|i: int, li: int|
                        0 <= i < ix.entries.len() && (#[trigger] ix.entries[i]).name@ == n@
                            && #[trigger] ix.entries[i].is_latest_non_yanked(li)
                            && ix.entries[i].versions[li].record.vers@ == v@;
                    assert(ix.has_package(n@));
                }
            }
            false
        },
        Some(k) => {
            let ghost gi = choose|gi: int|
                0 <= gi < ix.entries.len() && *k == ix.entries[gi] && (
                #[trigger] ix.entries[gi]).name@ == n@;
            match k.latest_non_yanked() {
                None => {
                    assert(!spec_latest_keep(*ix, n@, v@)) by {
                        if spec_latest_keep(*ix, n@, v@) {
                            let (i, li) = choose|i: int, li: int|
                                0 <= i < ix.entries.len() && (#[trigger] ix.entries[i]).name@ == n@
                                    && #[trigger] ix.entries[i].is_latest_non_yanked(li)
                                    && ix.entries[i].versions[li].record.vers@ == v@;
                            assert(i == gi);
                            assert(!ix.entries[i].versions[li].record.yanked);
                        }
                    }
                    false
                },
                Some(lv) => {
                    let ghost gl = choose|gl: int|
                        #[trigger] k.is_latest_non_yanked(gl) && *lv == k.versions[gl];
                    let r = str_eq(lv.record.vers.as_str(), v);
                    proof {
                        if r {
                            assert(ix.entries[gi].is_latest_non_yanked(gl));
                            assert(spec_latest_keep(*ix, n@, v@));
                        } else {
                            if spec_latest_keep(*ix, n@, v@) {
                                let (i, li) = choose|i: int, li: int|
                                    0 <= i < ix.entries.len() && (#[trigger] ix.entries[i]).name@
                                        == n@ && #[trigger] ix.entries[i].is_latest_non_yanked(li)
                                        && ix.entries[i].versions[li].record.vers@ == v@;
                                assert(i == gi);
                                // two latest positions coincide
                                if li < gl {
                                    assert(ix.entries[gi].versions[gl].record.yanked);
                                } else if gl < li {
                                    assert(k.versions[li].record.yanked);
                                }
                            }
                        }
                    }
                    r
                },
            }
        },
    }
}

fn min_keep(ix: &PackageIndex, n: &str, v: &str, t: &Version) -> (r: bool)
    requires
        ix.wf(),
    ensures
        r == spec_min_keep(*ix, n@, v@, *t),
{
    match ix.get(n) {
        None => {
            assert(spec_min_keep(*ix, n@, v@, *t)) by {
                assert forall|i: int, j: int|
                    0 <= i < ix.entries.len() && (#[trigger] ix.entries[i]).name@ == n@ && 0 <= j
                        < ix.entries[i].versions.len() && (
                    #[trigger] ix.entries[i].versions[j]).record.vers@ == v@ implies msv_ok(
                    ix.entries[i].versions[j].record.rust_version,
                    *t,
                ) by {
                    assert(ix.has_package(n@));
                }
            }
            true
        },
        Some(k) => {
            let ghost gi = choose|gi: int|
                0 <= gi < ix.entries.len() && *k == ix.entries[gi] && (
                #[trigger] ix.entries[gi]).name@ == n@;
            match k.find_version(v) {
                None => {
                    assert(spec_min_keep(*ix, n@, v@, *t)) by {
                        assert forall|i: int, j: int|
                            0 <= i < ix.entries.len() && (#[trigger] ix.entries[i]).name@ == n@
                                && 0 <= j < ix.entries[i].versions.len() && (
                            #[trigger] ix.entries[i].versions[j]).record.vers@ == v@ implies msv_ok(
                            ix.entries[i].versions[j].record.rust_version,
                            *t,
                        ) by {
                            assert(i == gi);
                            assert(k.versions@[j].record.vers@ != v@);
                        }
                    }
                    true
                },
                Some(j) => {
                    let passes: bool = match &k.versions[j].record.rust_version {
                        None => true,
                        Some(s) => {
                            if crate::toolchain::rust_version_is_valid(s.as_str()) {
                                rust_version_compatible(s.as_str(), t.major, t.minor, t.patch)
                            } else {
                                false
                            }
                        },
                    };
                    proof {
                        if passes {
                            assert forall|i2: int, j2: int|
                                0 <= i2 < ix.entries.len() && (#[trigger] ix.entries[i2]).name@
                                    == n@ && 0 <= j2 < ix.entries[i2].versions.len() && (
                                #[trigger] ix.entries[i2].versions[j2]).record.vers@
                                == v@ implies msv_ok(
                                ix.entries[i2].versions[j2].record.rust_version,
                                *t,
                            ) by {
                                assert(i2 == gi);
                                crate::krate::lemma_version_string_unique(k, j2, j as int);
                            }
                        } else {
                            assert(!msv_ok(k.versions@[j as int].record.rust_version, *t));
                            assert(ix.entries[gi].versions[j as int].record.vers@ == v@);
                        }
                    }
                    passes
                },
            }
        },
    }
}

fn key_name_in(ri: &ReverseIndex, n: &str) -> (r: bool)
    ensures
        r == spec_key_name(*ri, n@),
{
    let mut i: usize = 0;
    let ne = ri.entries.len();
    while i < ne
        invariant
            ne == ri.entries@.len(),
            i <= ne,
            forall|q: int| 0 <= q < i ==> (#[trigger] ri.entries@[q]).name@ != n@,
        decreases ne - i,
    {
        if str_eq(ri.entries[i].name.as_str(), n) {
            return true;
        }
        i += 1;
    }
    false
}

/// Whether the filters keep one reached pair.
pub fn keep(ix: &PackageIndex, ri: &ReverseIndex, f: &WalkFilters, n: &str, v: &str) -> (r: bool)
    requires
        ix.wf(),
    ensures
        r == spec_keep(*ix, *ri, *f, n@, v@),
{
    let mut ok: bool = true;
    if f.latest_only {
        ok = latest_keep(ix, n, v);
    }
    if ok {
        match &f.min_version {
            Some(t) => {
                ok = min_keep(ix, n, v, t);
            },
            None => {},
        }
    }
    if ok && f.leaf_only {
        ok = !key_name_in(ri, n);
    }
    ok
}

/// Keeps the pairs the filters accept, in order. Besides the kept
/// pairs it reports where each came from.
fn apply_filters(
    ix: &PackageIndex,
    ri: &ReverseIndex,
    f: &WalkFilters,
    v: &Vec<(String, String)>,
) -> (out: (Vec<(String, String)>, Ghost<Seq<int>>))
    requires
        ix.wf(),
    ensures
        out.1@.len() == out.0@.len(),
        forall|k: int|
            0 <= k < out.1@.len() ==> 0 <= #[trigger] out.1@[k] < v@.len() && out.0@[k]
                == v@[out.1@[k]] && spec_keep(*ix, *ri, *f, v@[out.1@[k]].0@, v@[out.1@[k]].1@),
        forall|k1: int, k2: int|
            0 <= k1 < k2 < out.1@.len() ==> #[trigger] out.1@[k1] < #[trigger] out.1@[k2],
        forall|m: int|
            0 <= m < v@.len() && spec_keep(*ix, *ri, *f, (#[trigger] v@[m]).0@, v@[m].1@)
                ==> exists|k: int| 0 <= k < out.1@.len() && #[trigger] out.1@[k] == m,
{
    let mut kept: Vec<(String, String)> = Vec::new();
    let ghost mut idxs: Seq<int> = Seq::empty();
    let n = v.len();
    let mut i: usize = 0;
    while i < n
        invariant
            ix.wf(),
            n == v@.len(),
            i <= n,
            idxs.len() == kept@.len(),
            forall|k: int|
                0 <= k < idxs.len() ==> 0 <= #[trigger] idxs[k] < i && kept@[k] == v@[idxs[k]]
                    && spec_keep(*ix, *ri, *f, v@[idxs[k]].0@, v@[idxs[k]].1@),
            forall|k1: int, k2: int|
                0 <= k1 < k2 < idxs.len() ==> #[trigger] idxs[k1] < #[trigger] idxs[k2],
            forall|m: int|
                0 <= m < i && spec_keep(*ix, *ri, *f, (#[trigger] v@[m]).0@, v@[m].1@)
                    ==> exists|k: int| 0 <= k < idxs.len() && #[trigger] idxs[k] == m,
        decreases n - i,
    {
        let ghost idxs_prev = idxs;
        if keep(ix, ri, f, v[i].0.as_str(), v[i].1.as_str()) {
            kept.push((v[i].0.clone(), v[i].1.clone()));
            proof {
                idxs = idxs.push(i as int);
                assert(kept@[kept@.len() - 1] == v@[i as int]);
                assert(idxs[idxs.len() - 1] == i as int);
                assert forall|m: int|
                    0 <= m < i + 1 && spec_keep(*ix, *ri, *f, (#[trigger] v@[m]).0@, v@[m].1@)
                        implies exists|k: int|
                    0 <= k < idxs.len() && #[trigger] idxs[k] == m by {
                    if m < i {
                        let k0 = choose|k0: int|
                            0 <= k0 < idxs_prev.len() && #[trigger] idxs_prev[k0] == m;
                        assert(idxs[k0] == m);
                    } else {
                        assert(idxs[idxs.len() - 1] == m);
                    }
                }
            }
        }
        i += 1;
    }
    (kept, Ghost(idxs))
}

/// Walks the reverse index from every version of the target satisfying
/// the requirement, then applies the filters. One pair per reached
/// package name; the target itself never appears; an ill-formed
/// requirement reaches nothing.
pub fn walk(
    ri: &ReverseIndex,
    ix: &PackageIndex,
    target: &str,
    req: &str,
    filters: &WalkFilters,
) -> (r: Vec<(String, String)>)
    requires
        ri.wf(),
        ix.wf(),
    ensures
        forall|i: int, j: int| 0 <= i < j < r@.len() ==> (#[trigger] r@[i]).0@ != (#[trigger] r@[j]).0@,
        forall|i: int| 0 <= i < r@.len() ==> (#[trigger] r@[i]).0@ != target@,
        forall|i: int|
            0 <= i < r@.len() ==> reachable_dependent(
                *ri,
                target@,
                req@,
                (#[trigger] r@[i]).0@,
                r@[i].1@,
            ),
        forall|i: int|
            0 <= i < r@.len() ==> spec_keep(*ix, *ri, *filters, (#[trigger] r@[i]).0@, r@[i].1@),
        !req_ok(req@) ==> r@.len() == 0,
        // with no filters the direct dependents of every seed appear,
        // and the result is closed under dependents of reached pairs
        (!filters.latest_only && filters.min_version is None && !filters.leaf_only)
            ==> forall|sn: Seq<char>, sv: Seq<char>, dn: Seq<char>, dv: Seq<char>|
            seed_pair(*ri, target@, req@, sn, sv) && #[trigger] ri.has_edge(sn, sv, dn, dv) && dn
                != target@ ==> exists|i: int| 0 <= i < r@.len() && (#[trigger] r@[i]).0@ == dn,
        (!filters.latest_only && filters.min_version is None && !filters.leaf_only)
            ==> forall|pn: Seq<char>, pv: Seq<char>, dn: Seq<char>, dv: Seq<char>|
            (exists|i: int| 0 <= i < r@.len() && (#[trigger] r@[i]).0@ == pn && r@[i].1@ == pv)
                && #[trigger] ri.has_edge(pn, pv, dn, dv) && dn != target@ ==> exists|k: int|
                0 <= k < r@.len() && (#[trigger] r@[k]).0@ == dn,
{
    let core = walk_core(ri, target, req);
    let (out, g_idxs) = apply_filters(ix, ri, filters, &core);
    let ghost idxs = g_idxs@;
    proof {
        assert forall|i: int, j: int| 0 <= i < j < out@.len() implies (#[trigger] out@[i]).0@ != (
        #[trigger] out@[j]).0@ by {
            assert(out@[i] == core@[idxs[i]]);
            assert(out@[j] == core@[idxs[j]]);
            assert(idxs[i] < idxs[j]);
        }
        assert forall|i: int| 0 <= i < out@.len() implies (#[trigger] out@[i]).0@ != target@ by {
            assert(out@[i] == core@[idxs[i]]);
        }
        assert forall|i: int| 0 <= i < out@.len() implies reachable_dependent(
            *ri,
            target@,
            req@,
            (#[trigger] out@[i]).0@,
            out@[i].1@,
        ) by {
            assert(out@[i] == core@[idxs[i]]);
        }
        assert forall|i: int| 0 <= i < out@.len() implies spec_keep(
            *ix,
            *ri,
            *filters,
            (#[trigger] out@[i]).0@,
            out@[i].1@,
        ) by {
            assert(out@[i] == core@[idxs[i]]);
        }
        if core@.len() == 0 {
            assert(out@.len() == 0) by {
                if out@.len() > 0 {
                    assert(0 <= idxs[0] < core@.len());
                }
            }
        }
        if !filters.latest_only && filters.min_version is None && !filters.leaf_only {
            assert forall|sn: Seq<char>, sv: Seq<char>, dn: Seq<char>, dv: Seq<char>|
                seed_pair(*ri, target@, req@, sn, sv) && #[trigger] ri.has_edge(sn, sv, dn, dv)
                    && dn != target@ implies exists|i: int|
                0 <= i < out@.len() && (#[trigger] out@[i]).0@ == dn by {
                let m = choose|m: int| 0 <= m < core@.len() && (#[trigger] core@[m]).0@ == dn;
                assert(spec_keep(*ix, *ri, *filters, core@[m].0@, core@[m].1@));
                let k = choose|k: int| 0 <= k < idxs.len() && #[trigger] idxs[k] == m;
                assert(out@[k].0@ == dn);
            }
            assert forall|pn: Seq<char>, pv: Seq<char>, dn: Seq<char>, dv: Seq<char>|
                (exists|i: int|
                    0 <= i < out@.len() && (#[trigger] out@[i]).0@ == pn && out@[i].1@ == pv)
                    && #[trigger] ri.has_edge(pn, pv, dn, dv) && dn != target@ implies exists|
                k: int,
            |
                0 <= k < out@.len() && (#[trigger] out@[k]).0@ == dn by {
                let i = choose|i: int|
                    0 <= i < out@.len() && (#[trigger] out@[i]).0@ == pn && out@[i].1@ == pv;
                assert(out@[i] == core@[idxs[i]]);
                // the pair is reached by the traversal, whose closure
                // yields a reached entry for the dependent's name
                let m = choose|m: int| 0 <= m < core@.len() && (#[trigger] core@[m]).0@ == dn;
                assert(spec_keep(*ix, *ri, *filters, core@[m].0@, core@[m].1@));
                let k = choose|k: int| 0 <= k < idxs.len() && #[trigger] idxs[k] == m;
                assert(out@[k].0@ == dn);
            }
        }
    }
    out
}

} // verus!
