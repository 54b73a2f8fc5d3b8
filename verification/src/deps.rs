use vstd::prelude::*;
use crate::types::Var;

verus! {

/// Every dependency edge points to a strictly smaller identifier: the
/// dense-id form of combinational acyclicity.
pub open spec fn deps_downward(d: Seq<Vec<Var>>) -> bool {
    forall|v: int, j: int|
        0 <= v < d.len() && 0 <= j < d[v]@.len() ==> (#[trigger] d[v]@[j]).0 < v
}

/// The entries are strictly increasing, hence free of duplicates.
pub open spec fn strictly_sorted(s: Seq<Var>) -> bool {
    forall|i: int, j: int| 0 <= i < j < s.len() ==> s[i].0 < s[j].0
}

/// There is a direct fan-in edge from `u` to `w`.
pub open spec fn dep_edge(d: Seq<Vec<Var>>, u: int, w: int) -> bool {
    &&& 0 <= u < d.len()
    &&& exists|j: int| 0 <= j < d[u]@.len() && (#[trigger] d[u]@[j]).0 == w
}

/// `w` is reached from the seed set in exactly `n` dependency steps.
pub open spec fn reaches(d: Seq<Vec<Var>>, seed: Set<int>, w: int, n: nat) -> bool
    decreases n,
{
    if n == 0 {
        seed.contains(w)
    } else {
        exists|u: int| reaches(d, seed, u, (n - 1) as nat) && dep_edge(d, u, w)
    }
}

/// `w` is reached from the seed set by zero or more dependency steps.
pub open spec fn reachable(d: Seq<Vec<Var>>, seed: Set<int>, w: int) -> bool {
    exists|n: nat| reaches(d, seed, w, n)
}

/// The set of variable indices named by a sequence of seed variables.
pub open spec fn seed_set(s: Seq<Var>) -> Set<int> {
    Set::new(|w: int| exists|i: int| 0 <= i < s.len() && (#[trigger] s[i]).0 == w)
}

/// One dependency step preserves reachability.
pub proof fn lemma_reach_step(d: Seq<Vec<Var>>, seed: Set<int>, v: int, w: int)
    requires
        reachable(d, seed, v),
        dep_edge(d, v, w),
    ensures
        reachable(d, seed, w),
{
    let n = choose|n: nat| reaches(d, seed, v, n);
    assert(reaches(d, seed, w, n + 1));
}

/// Reachability composes: a path from `v` to `u` followed by `n` more
/// steps from `u` reaches the same target from `v`.
pub proof fn lemma_reach_trans(d: Seq<Vec<Var>>, v: int, u: int, w: int, n: nat)
    requires
        reachable(d, Set::empty().insert(v), u),
        reaches(d, Set::empty().insert(u), w, n),
    ensures
        reachable(d, Set::empty().insert(v), w),
    decreases n,
{
    if n > 0 {
        let x = choose|x: int|
            reaches(d, Set::empty().insert(u), x, (n - 1) as nat) && dep_edge(d, x, w);
        lemma_reach_trans(d, v, u, x, (n - 1) as nat);
        lemma_reach_step(d, Set::empty().insert(v), x, w);
    }
}

/// There is a dependency path of exactly `n` edges from `v` to `w` whose
/// intermediate variables all lie outside the domain.
pub open spec fn outside_path(
    d: Seq<Vec<Var>>,
    domain: Seq<bool>,
    v: int,
    w: int,
    n: nat,
) -> bool
    decreases n,
{
    if n == 0 {
        false
    } else if n == 1 {
        dep_edge(d, v, w)
    } else {
        exists|x: int|
            #[trigger] dep_edge(d, v, x) && 0 <= x < domain.len() && !domain[x]
                && outside_path(d, domain, x, w, (n - 1) as nat)
    }
}

/// If every direct dependency of `v` was handled — a domain member kept,
/// the compressed set of a non-domain member spliced in whole — and every
/// smaller variable is already completely compressed, then the merged set
/// contains every domain variable that an outside path from `v` reaches.
proof fn lemma_merge_complete(
    d: Seq<Vec<Var>>,
    domain: Seq<bool>,
    dnew: Seq<Vec<Var>>,
    merged: Seq<Var>,
    v: int,
    w: int,
    n: nat,
)
    requires
        d.len() == domain.len(),
        dnew.len() == d.len(),
        deps_downward(d),
        0 <= v < d.len(),
        forall|u: int, w0: int, nn: nat|
            0 <= u < v && 0 <= w0 < d.len() && domain[w0]
                && #[trigger] outside_path(d, domain, u, w0, nn)
                ==> dnew[u]@.contains(Var(w0 as u32)),
        forall|ii: int|
            0 <= ii < d[v]@.len() && domain[(#[trigger] d[v]@[ii]).idx()]
                ==> merged.contains(d[v]@[ii]),
        forall|ii: int, k: int|
            0 <= ii < d[v]@.len() && !domain[d[v]@[ii].idx()]
                && 0 <= k < dnew[d[v]@[ii].idx()]@.len()
                ==> merged.contains(#[trigger] dnew[d[v]@[ii].idx()]@[k]),
        outside_path(d, domain, v, w, n),
        0 <= w < d.len(),
        domain[w],
    ensures
        merged.contains(Var(w as u32)),
    decreases n,
{
    if n == 1 {
        let ii = choose|ii: int| 0 <= ii < d[v]@.len() && (#[trigger] d[v]@[ii]).0 == w;
        assert(d[v]@[ii] == Var(w as u32));
        assert(merged.contains(d[v]@[ii]));
    } else {
        let x = choose|x: int|
            #[trigger] dep_edge(d, v, x) && 0 <= x < domain.len() && !domain[x]
                && outside_path(d, domain, x, w, (n - 1) as nat);
        let ii = choose|ii: int| 0 <= ii < d[v]@.len() && (#[trigger] d[v]@[ii]).0 == x;
        assert(x < v);
        assert(dnew[x]@.contains(Var(w as u32)));
        let k = choose|k: int| 0 <= k < dnew[x]@.len() && dnew[x]@[k] == Var(w as u32);
        assert(d[v]@[ii].idx() == x);
        assert(merged.contains(dnew[d[v]@[ii].idx()]@[k]));
    }
}

/// A marking that contains the seeds and is closed under dependency edges
/// contains everything reachable.
pub proof fn lemma_closed_contains_reachable(
    d: Seq<Vec<Var>>,
    seed: Set<int>,
    marked: Seq<bool>,
    w: int,
    n: nat,
)
    requires
        d.len() == marked.len(),
        forall|s: int| seed.contains(s) ==> 0 <= s < marked.len() && marked[s],
        forall|u: int, j: int|
            0 <= u < marked.len() && marked[u] && 0 <= j < d[u]@.len()
                ==> 0 <= (#[trigger] d[u]@[j]).0 < marked.len() && marked[d[u]@[j].0 as int],
        reaches(d, seed, w, n),
        0 <= w < marked.len(),
    ensures
        marked[w],
    decreases n,
{
    if n > 0 {
        let u = choose|u: int| reaches(d, seed, u, (n - 1) as nat) && dep_edge(d, u, w);
        lemma_closed_contains_reachable(d, seed, marked, u, (n - 1) as nat);
        let j = choose|j: int| 0 <= j < d[u]@.len() && (#[trigger] d[u]@[j]).0 == w;
        assert(marked[d[u]@[j].0 as int]);
    }
}

/// Insert `x` into a strictly sorted vector, keeping it sorted and
/// duplicate-free.
pub fn insert_sorted(s: &mut Vec<Var>, x: Var)
    requires
        strictly_sorted(old(s)@),
    ensures
        strictly_sorted(final(s)@),
        forall|y: Var| final(s)@.contains(y) <==> (old(s)@.contains(y) || y == x),
        final(s)@.len() <= old(s)@.len() + 1,
{
    let mut i: usize = 0;
    while i < s.len() && s[i as usize].0 < x.0
        invariant
            strictly_sorted(s@),
            i <= s@.len(),
            forall|k: int| 0 <= k < i ==> (#[trigger] s@[k]).0 < x.0,
        decreases s@.len() - i,
    {
        i = i + 1;
    }
    if i < s.len() && s[i].0 == x.0 {
        proof {
            assert(s@[i as int] == x);
            assert(s@.contains(x));
        }
        return;
    }
    let ghost pre = s@;
    s.insert(i, x);
    proof {
        assert forall|a: int, b: int| 0 <= a < b < s@.len() implies s@[a].0 < s@[b].0 by {
            if b == i {
                assert(s@[a] == pre[a]);
            } else if a == i {
                assert(s@[b] == pre[b - 1]);
                assert(pre[i as int].0 > x.0 || i == pre.len());
            }
        }
        assert forall|y: Var| s@.contains(y) implies (pre.contains(y) || y == x) by {
            let k = choose|k: int| 0 <= k < s@.len() && s@[k] == y;
            if k < i {
                assert(pre[k] == y);
            } else if k > i {
                assert(pre[k - 1] == y);
            }
        }
        assert forall|y: Var| (pre.contains(y) || y == x) implies s@.contains(y) by {
            if pre.contains(y) {
                let k = choose|k: int| 0 <= k < pre.len() && pre[k] == y;
                if k < i {
                    assert(s@[k] == y);
                } else {
                    assert(s@[k + 1] == y);
                }
            } else {
                assert(s@[i as int] == y);
            }
        }
    }
}

/// Compress a per-variable direct-fan-in map against a target domain:
/// every direct dependency that is a domain member is kept; a dependency
/// outside the domain is replaced by its own (already compressed,
/// domain-only) dependency set. Entries are deduplicated and sorted for
/// determinism, and the list of every non-domain variable is cleared.
pub fn compress_deps(deps: Vec<Vec<Var>>, domain: &Vec<bool>) -> (r: Vec<Vec<Var>>)
    requires
        deps@.len() == domain@.len(),
        deps_downward(deps@),
    ensures
        r@.len() == deps@.len(),
        deps_downward(r@),
        forall|v: int, j: int|
            0 <= v < r@.len() && 0 <= j < r@[v]@.len()
                ==> domain@[(#[trigger] r@[v]@[j]).0 as int],
        forall|v: int| 0 <= v < r@.len() && !domain@[v] ==> r@[v]@.len() == 0,
        forall|v: int| 0 <= v < r@.len() ==> strictly_sorted((#[trigger] r@[v])@),
        forall|v: int, j: int|
            0 <= v < r@.len() && 0 <= j < r@[v]@.len()
                ==> reachable(deps@, Set::empty().insert(v), (#[trigger] r@[v]@[j]).idx()),
        forall|v: int, w: int, nn: nat|
            0 <= v < r@.len() && domain@[v] && 0 <= w < r@.len() && domain@[w]
                && #[trigger] outside_path(deps@, domain@, v, w, nn)
                ==> r@[v]@.contains(Var(w as u32)),
    {
        let n = deps.len();
        let ghost orig = deps@;
        let mut deps = deps;
        let mut v: usize = 0;
        while v < n
            invariant
                n == domain@.len(),
                deps@.len() == n,
                orig.len() == n,
                deps_downward(orig),
                v <= n,
                forall|u: int| v <= u < n ==> (#[trigger] deps@[u]) == orig[u],
                forall|u: int, j: int|
                    v <= u < n && 0 <= j < deps@[u]@.len()
                        ==> (#[trigger] deps@[u]@[j]).0 < u,
                forall|u: int, j: int|
                    0 <= u < v && 0 <= j < deps@[u]@.len()
                        ==> (#[trigger] deps@[u]@[j]).0 < u
                            && domain@[deps@[u]@[j].0 as int],
                forall|u: int, j: int|
                    0 <= u < v && 0 <= j < deps@[u]@.len()
                        ==> reachable(orig, Set::empty().insert(u),
                            (#[trigger] deps@[u]@[j]).idx()),
                forall|u: int, w: int, nn: nat|
                    0 <= u < v && 0 <= w < n && domain@[w]
                        && #[trigger] outside_path(orig, domain@, u, w, nn)
                        ==> deps@[u]@.contains(Var(w as u32)),
                forall|u: int| 0 <= u < v ==> strictly_sorted((#[trigger] deps@[u])@),
            decreases n - v,
        {
            let mut merged: Vec<Var> = Vec::new();
            let mut i: usize = 0;
            while i < deps[v].len()
                invariant
                    n == domain@.len(),
                    deps@.len() == n,
                    orig.len() == n,
                    deps_downward(orig),
                    v < n,
                    i <= deps@[v as int]@.len(),
                    forall|u: int| v <= u < n ==> (#[trigger] deps@[u]) == orig[u],
                    forall|u: int, j: int|
                        v <= u < n && 0 <= j < deps@[u]@.len()
                            ==> (#[trigger] deps@[u]@[j]).0 < u,
                    forall|u: int, j: int|
                        0 <= u < v && 0 <= j < deps@[u]@.len()
                            ==> (#[trigger] deps@[u]@[j]).0 < u
                                && domain@[deps@[u]@[j].0 as int],
                    forall|u: int, j: int|
                        0 <= u < v && 0 <= j < deps@[u]@.len()
                            ==> reachable(orig, Set::empty().insert(u),
                                (#[trigger] deps@[u]@[j]).idx()),
                    forall|u: int, w: int, nn: nat|
                        0 <= u < v && 0 <= w < n && domain@[w]
                            && #[trigger] outside_path(orig, domain@, u, w, nn)
                            ==> deps@[u]@.contains(Var(w as u32)),
                    forall|u: int| 0 <= u < v ==> strictly_sorted((#[trigger] deps@[u])@),
                    strictly_sorted(merged@),
                    forall|y: Var| merged@.contains(y)
                        ==> y.0 < v && domain@[y.0 as int]
                            && reachable(orig, Set::empty().insert(v as int), y.idx()),
                    forall|ii: int|
                        0 <= ii < i && domain@[(#[trigger] orig[v as int]@[ii]).idx()]
                            ==> merged@.contains(orig[v as int]@[ii]),
                    forall|ii: int, k: int|
                        0 <= ii < i && !domain@[orig[v as int]@[ii].idx()]
                            && 0 <= k < deps@[orig[v as int]@[ii].idx()]@.len()
                            ==> merged@.contains(
                                #[trigger] deps@[orig[v as int]@[ii].idx()]@[k]),
                decreases deps@[v as int]@.len() - i,
            {
                let d = deps[v][i];
                assert(d.0 < v);
                proof {
                    assert(reaches(orig, Set::empty().insert(v as int), v as int, 0));
                    assert(reachable(orig, Set::empty().insert(v as int), v as int));
                    assert(dep_edge(orig, v as int, d.idx())) by {
                        assert(orig[v as int]@[i as int] == d);
                    }
                    lemma_reach_step(orig, Set::empty().insert(v as int), v as int, d.idx());
                }
                if domain[d.0 as usize] {
                    insert_sorted(&mut merged, d);
                } else {
                    let dl = deps[d.0 as usize].len();
                    let mut j: usize = 0;
                    while j < dl
                        invariant
                            n == domain@.len(),
                            deps@.len() == n,
                            orig.len() == n,
                            d.0 < v < n,
                            dl == deps@[d.0 as int]@.len(),
                            j <= dl,
                            reachable(orig, Set::empty().insert(v as int), d.idx()),
                            forall|u: int, jj: int|
                                0 <= u < v && 0 <= jj < deps@[u]@.len()
                                    ==> (#[trigger] deps@[u]@[jj]).0 < u
                                        && domain@[deps@[u]@[jj].0 as int],
                            forall|u: int, jj: int|
                                0 <= u < v && 0 <= jj < deps@[u]@.len()
                                    ==> reachable(orig, Set::empty().insert(u),
                                        (#[trigger] deps@[u]@[jj]).idx()),
                            strictly_sorted(merged@),
                            forall|y: Var| merged@.contains(y)
                                ==> y.0 < v && domain@[y.0 as int]
                                    && reachable(orig, Set::empty().insert(v as int), y.idx()),
                            forall|ii: int|
                                0 <= ii < i && domain@[(#[trigger] orig[v as int]@[ii]).idx()]
                                    ==> merged@.contains(orig[v as int]@[ii]),
                            forall|ii: int, k: int|
                                0 <= ii < i && !domain@[orig[v as int]@[ii].idx()]
                                    && 0 <= k < deps@[orig[v as int]@[ii].idx()]@.len()
                                    ==> merged@.contains(
                                        #[trigger] deps@[orig[v as int]@[ii].idx()]@[k]),
                            forall|k: int| 0 <= k < j
                                ==> merged@.contains(#[trigger] deps@[d.idx()]@[k]),
                        decreases dl - j,
                    {
                        let dd = deps[d.0 as usize][j];
                        assert(dd.0 < d.0 && domain@[dd.0 as int]);
                        proof {
                            assert(reachable(orig, Set::empty().insert(d.idx()), dd.idx()));
                            let nn = choose|nn: nat|
                                reaches(orig, Set::empty().insert(d.idx()), dd.idx(), nn);
                            lemma_reach_trans(orig, v as int, d.idx(), dd.idx(), nn);
                        }
                        insert_sorted(&mut merged, dd);
                        j = j + 1;
                    }
                }
                i = i + 1;
            }
            let ghost mseq = merged@;
            deps[v] = merged;
            proof {
                assert forall|j: int| 0 <= j < deps@[v as int]@.len()
                    implies (#[trigger] deps@[v as int]@[j]).0 < v
                        && domain@[deps@[v as int]@[j].0 as int]
                        && reachable(orig, Set::empty().insert(v as int),
                            deps@[v as int]@[j].idx()) by {
                    assert(mseq.contains(mseq[j]));
                }
                assert forall|w: int, nn: nat|
                    0 <= w < n && domain@[w]
                        && #[trigger] outside_path(orig, domain@, v as int, w, nn)
                    implies deps@[v as int]@.contains(Var(w as u32)) by {
                    lemma_merge_complete(orig, domain@, deps@, mseq, v as int, w, nn);
                }
            }
            v = v + 1;
        }
        // Clear the dependency list of every variable outside the domain.
        let mut v: usize = 0;
        while v < n
            invariant
                n == domain@.len(),
                deps@.len() == n,
                orig.len() == n,
                deps_downward(orig),
                v <= n,
                forall|u: int, j: int|
                    0 <= u < n && 0 <= j < deps@[u]@.len()
                        ==> (#[trigger] deps@[u]@[j]).0 < u
                            && domain@[deps@[u]@[j].0 as int],
                forall|u: int, j: int|
                    0 <= u < n && 0 <= j < deps@[u]@.len()
                        ==> reachable(orig, Set::empty().insert(u),
                            (#[trigger] deps@[u]@[j]).idx()),
                forall|u: int, w: int, nn: nat|
                    0 <= u < n && domain@[u] && 0 <= w < n && domain@[w]
                        && #[trigger] outside_path(orig, domain@, u, w, nn)
                        ==> deps@[u]@.contains(Var(w as u32)),
                forall|u: int| 0 <= u < n ==> strictly_sorted((#[trigger] deps@[u])@),
                forall|u: int| 0 <= u < v && !domain@[u] ==> deps@[u]@.len() == 0,
            decreases n - v,
        {
            if !domain[v] {
                deps[v] = Vec::new();
            }
            v = v + 1;
        }
        deps
    }

} // verus!
