use vstd::prelude::*;
use crate::types::{Clause, Cnf, Lit, Var, VAR_LIMIT};
use crate::types::lemma_lit_code;
use crate::deps::{compress_deps, deps_downward};
use crate::circuit::{tseitin, tseitin_upto, lemma_tseitin_in_range, Circuit};
use crate::transys::Transys;

verus! {

/// Copy a vector of variables.
pub fn copy_vars(s: &Vec<Var>) -> (r: Vec<Var>)
    ensures
        r@ == s@,
{
    let mut r: Vec<Var> = Vec::new();
    let mut i: usize = 0;
    while i < s.len()
        invariant
            i <= s@.len(),
            r@ == s@.take(i as int),
        decreases s@.len() - i,
    {
        r.push(s[i]);
        i = i + 1;
    }
    proof {
        assert(r@ =~= s@);
    }
    r
}

/// Mark the seeds and everything reachable from them along the given
/// downward-pointing edges; the result is closed under the edges.
pub fn mark_closure(deps: &Vec<Vec<Var>>, seeds: &Vec<Var>) -> (r: Vec<bool>)
    requires
        deps_downward(deps@),
        forall|i: int| 0 <= i < seeds@.len() ==> (#[trigger] seeds@[i]).0 < deps@.len(),
    ensures
        r@.len() == deps@.len(),
        forall|i: int| 0 <= i < seeds@.len() ==> r@[(#[trigger] seeds@[i]).0 as int],
        forall|u: int, j: int|
            0 <= u < deps@.len() && r@[u] && 0 <= j < deps@[u]@.len()
                ==> r@[(#[trigger] deps@[u]@[j]).0 as int],
{
    let n = deps.len();
    let mut marked: Vec<bool> = Vec::new();
    let mut k: usize = 0;
    while k < n
        invariant
            marked@.len() == k,
            k <= n,
        decreases n - k,
    {
        marked.push(false);
        k = k + 1;
    }
    let mut i: usize = 0;
    while i < seeds.len()
        invariant
            marked@.len() == n,
            i <= seeds@.len(),
            forall|t: int| 0 <= t < seeds@.len() ==> (#[trigger] seeds@[t]).0 < n,
            forall|t: int| 0 <= t < i ==> marked@[(#[trigger] seeds@[t]).0 as int],
        decreases seeds@.len() - i,
    {
        let s = seeds[i];
        marked[s.0 as usize] = true;
        i = i + 1;
    }
    let mut v: usize = n;
    while v > 0
        invariant
            deps_downward(deps@),
            deps@.len() == n,
            marked@.len() == n,
            v <= n,
            forall|t: int| 0 <= t < seeds@.len() ==> (#[trigger] seeds@[t]).0 < n,
            forall|t: int| 0 <= t < seeds@.len() ==> marked@[(#[trigger] seeds@[t]).0 as int],
            forall|u: int, j: int|
                v <= u < n && marked@[u] && 0 <= j < deps@[u]@.len()
                    ==> marked@[(#[trigger] deps@[u]@[j]).0 as int],
        decreases v,
    {
        v = v - 1;
        if marked[v] {
            let dl = deps[v].len();
            let mut j: usize = 0;
            while j < dl
                invariant
                    deps_downward(deps@),
                    deps@.len() == n,
                    marked@.len() == n,
                    v < n,
                    marked@[v as int],
                    dl == deps@[v as int]@.len(),
                    j <= dl,
                    forall|t: int| 0 <= t < seeds@.len() ==> (#[trigger] seeds@[t]).0 < n,
                    forall|t: int| 0 <= t < seeds@.len()
                        ==> marked@[(#[trigger] seeds@[t]).0 as int],
                    forall|u: int, jj: int|
                        v < u < n && marked@[u] && 0 <= jj < deps@[u]@.len()
                            ==> marked@[(#[trigger] deps@[u]@[jj]).0 as int],
                    forall|jj: int| 0 <= jj < j
                        ==> marked@[(#[trigger] deps@[v as int]@[jj]).0 as int],
                decreases dl - j,
            {
                let d = deps[v][j];
                assert(d.0 < v);
                marked[d.0 as usize] = true;
                j = j + 1;
            }
        }
    }
    marked
}

/// The number of kept identifiers strictly below `v`.
pub open spec fn kept_below(keep: Seq<bool>, v: int) -> int
    decreases v,
{
    if v <= 0 {
        0
    } else {
        kept_below(keep, v - 1) + if keep[v - 1] { 1int } else { 0int }
    }
}

/// `kept_below` grows weakly with the bound, and strictly past a kept index.
pub proof fn lemma_kept_below_mono(keep: Seq<bool>, u: int, v: int)
    requires
        0 <= u <= v,
    ensures
        kept_below(keep, u) <= kept_below(keep, v),
        (u < v && 0 <= u < keep.len() && keep[u]) ==> kept_below(keep, u) + 1 <= kept_below(
            keep,
            v,
        ),
    decreases v,
{
    if u < v {
        lemma_kept_below_mono(keep, u, v - 1);
    }
}

/// Build the dense renumbering of the kept identifiers: position `v` maps
/// to the number of kept identifiers strictly below `v`, so the kept
/// identifiers are renumbered to `0..count` in ascending order.
pub fn compact_map(keep: &Vec<bool>) -> (r: (Vec<u32>, usize))
    requires
        keep@.len() <= VAR_LIMIT,
    ensures
        r.0@.len() == keep@.len(),
        r.1 == kept_below(keep@, keep@.len() as int),
        r.1 <= keep@.len(),
        forall|v: int| 0 <= v < keep@.len() ==> (#[trigger] r.0@[v]) == kept_below(keep@, v),
{
    let n = keep.len();
    let mut mapv: Vec<u32> = Vec::new();
    let mut count: usize = 0;
    let mut v: usize = 0;
    while v < n
        invariant
            n == keep@.len(),
            n <= VAR_LIMIT,
            mapv@.len() == v,
            v <= n,
            count == kept_below(keep@, v as int),
            count <= v,
            forall|u: int| 0 <= u < v ==> (#[trigger] mapv@[u]) == kept_below(keep@, u),
        decreases n - v,
    {
        mapv.push(count as u32);
        if keep[v] {
            count = count + 1;
        }
        v = v + 1;
    }
    (mapv, count)
}

/// Renumber a literal through the compaction map, preserving its polarity.
pub fn remap_lit(l: Lit, mapv: &Vec<u32>, num_var: usize) -> (r: Lit)
    requires
        0 <= l.var_idx() < mapv@.len(),
        mapv@[l.var_idx()] < num_var,
        num_var <= VAR_LIMIT,
    ensures
        r.var_idx() == mapv@[l.var_idx()] as int,
        r.polarity_spec() == l.polarity_spec(),
    {
        let v = l.var();
        Lit::new(Var(mapv[v.0 as usize]), l.polarity())
    }

/// Renumber every literal of a clause through the compaction map.
pub fn remap_clause(c: &Clause, mapv: &Vec<u32>, num_var: usize) -> (r: Clause)
    requires
        forall|k: int| 0 <= k < c@.len()
            ==> 0 <= (#[trigger] c@[k]).var_idx() < mapv@.len()
                && mapv@[c@[k].var_idx()] < num_var,
        num_var <= VAR_LIMIT,
    ensures
        r@.len() == c@.len(),
        forall|k: int| 0 <= k < c@.len()
            ==> (#[trigger] r@[k]).var_idx() == mapv@[c@[k].var_idx()] as int
                && r@[k].polarity_spec() == c@[k].polarity_spec(),
{
    let mut r: Clause = Vec::new();
    let mut k: usize = 0;
    while k < c.len()
        invariant
            forall|t: int| 0 <= t < c@.len()
                ==> 0 <= (#[trigger] c@[t]).var_idx() < mapv@.len()
                    && mapv@[c@[t].var_idx()] < num_var,
            num_var <= VAR_LIMIT,
            k <= c@.len(),
            r@.len() == k,
            forall|t: int| 0 <= t < k
                ==> (#[trigger] r@[t]).var_idx() == mapv@[c@[t].var_idx()] as int
                    && r@[t].polarity_spec() == c@[t].polarity_spec(),
        decreases c@.len() - k,
    {
        let l = c[k];
        r.push(remap_lit(l, mapv, num_var));
        k = k + 1;
    }
    r
}

/// A transition system with an empty latch set: the starting point that
/// `add_latch` then extends, one latch at a time.
pub fn new_core(
    num_var: usize,
    inputs: Vec<Var>,
    bad: Lit,
    constraints: Vec<Lit>,
    trans: Cnf,
    dependence: Vec<Vec<Var>>,
    latch_group: Vec<u32>,
) -> (r: Transys)
    requires
        1 <= num_var <= VAR_LIMIT,
        forall|i: int| 0 <= i < inputs@.len() ==> 1 <= (#[trigger] inputs@[i]).0 < num_var,
        bad.var_idx() < num_var,
        forall|i: int| 0 <= i < constraints@.len()
            ==> (#[trigger] constraints@[i]).var_idx() < num_var,
        forall|i: int, k: int| 0 <= i < trans@.len() && 0 <= k < trans@[i]@.len()
            ==> (#[trigger] trans@[i]@[k]).var_idx() < num_var,
        dependence@.len() == num_var,
        deps_downward(dependence@),
        latch_group@.len() == num_var,
    ensures
        r.wf(),
        r.num_var == num_var,
        r.inputs == inputs,
        r.bad == bad,
        r.constraints == constraints,
        r.trans == trans,
        r.dependence == dependence,
        r.latch_group == latch_group,
        r.latchs@.len() == 0,
        r.init@.len() == 0,
        r.max_latch == Var(0),
        forall|v: int| 0 <= v < num_var ==> (#[trigger] r.init_map@[v]) is None,
        forall|v: int| 0 <= v < num_var ==> !(#[trigger] r.is_latch@[v]),
{
    let mut init_map: Vec<Option<bool>> = Vec::new();
    let mut is_latch: Vec<bool> = Vec::new();
    let mut next_map: Vec<Lit> = Vec::new();
    let mut prev_map: Vec<Lit> = Vec::new();
    let mut v: usize = 0;
    while v < num_var
        invariant
            v <= num_var,
            init_map@.len() == v,
            is_latch@.len() == v,
            next_map@.len() == 2 * v,
            prev_map@.len() == 2 * v,
            forall|u: int| 0 <= u < v ==> (#[trigger] init_map@[u]) is None,
            forall|u: int| 0 <= u < v ==> !(#[trigger] is_latch@[u]),
        decreases num_var - v,
    {
        init_map.push(None);
        is_latch.push(false);
        next_map.push(Lit(0));
        next_map.push(Lit(0));
        prev_map.push(Lit(0));
        prev_map.push(Lit(0));
        v = v + 1;
    }
    let r = Transys {
        inputs,
        latchs: Vec::new(),
        init: Vec::new(),
        init_map,
        bad,
        constraints,
        trans,
        num_var,
        is_latch,
        next_map,
        prev_map,
        dependence,
        max_latch: Var(0),
        latch_group,
    };
    proof {
        assert forall|i: int| 0 <= i < r.trans@.len()
            implies r.clause_in_domain((#[trigger] r.trans@[i])@) by {}
        assert forall|l: Lit| l.0 < 2 * r.num_var && r.is_latch@[l.var_idx()]
            implies #[trigger] r.wf_pair_at(l) by {
            lemma_lit_code(l);
        }
    }
    r
}

impl Transys {
    /// Build a transition system from a structural circuit: translate the
    /// cone of the latch next-state functions, the constraints and the bad
    /// literal into CNF, allocate one fresh prime variable per latch with
    /// clauses enforcing `prime <-> next-state-function`, compact the
    /// variable domain to the identifiers in use (inputs, latches and
    /// primes always stay addressable), and derive the latch bookkeeping
    /// over the renumbered domain. The bad literal is the first declared
    /// bad, or else the first output.
    #[verifier::loop_isolation(false)]
    #[verifier::rlimit(60)]
    pub fn from_aig(c: &Circuit) -> (r: Transys)
        requires
            c.wf(),
            c.latchs@.len() >= 1,
            c.bads@.len() > 0 || c.outputs@.len() > 0,
        ensures
            r.wf(),
            r.latchs@.len() == c.latchs@.len(),
            r.inputs@.len() == c.inputs@.len(),
            forall|i: int| 0 <= i < c.latchs@.len()
                ==> r.init_map@[(#[trigger] r.latchs@[i]).idx()] == c.latchs@[i].init,
            forall|i: int| 0 <= i < c.latchs@.len()
                ==> ((#[trigger] c.latchs@[i].group) matches Some(g)
                    ==> r.latch_group@[r.latchs@[i].idx()] == g),
            r.bad.polarity_spec() == (if c.bads@.len() > 0 {
                c.bads@[0]
            } else {
                c.outputs@[0]
            }).polarity_spec(),
    {
        let n = c.nodes.len();
        let nl = c.latchs.len();
        let u = n + nl;
        // Provisional dependence over the original numbering: fan-ins for
        // AND nodes, the next-state function variable for each fresh prime.
        let mut deps0: Vec<Vec<Var>> = Vec::new();
        let mut v: usize = 0;
        while v < n
            invariant
                v <= n,
                deps0@.len() == v,
                forall|w: int, j: int|
                    0 <= w < v && 0 <= j < deps0@[w]@.len()
                        ==> (#[trigger] deps0@[w]@[j]).0 < w,
            decreases n - v,
        {
            let mut d: Vec<Var> = Vec::new();
            if let Some(f) = c.nodes[v] {
                proof {
                    lemma_lit_code(f.0);
                    lemma_lit_code(f.1);
                }
                d.push(f.0.var());
                d.push(f.1.var());
            }
            deps0.push(d);
            v = v + 1;
        }
        let mut i: usize = 0;
        while i < nl
            invariant
                i <= nl,
                deps0@.len() == n + i,
                forall|w: int, j: int|
                    0 <= w < n + i && 0 <= j < deps0@[w]@.len()
                        ==> (#[trigger] deps0@[w]@[j]).0 < w,
            decreases nl - i,
        {
            let mut d: Vec<Var> = Vec::new();
            d.push(c.latchs[i].next.var());
            deps0.push(d);
            i = i + 1;
        }
        assert(deps_downward(deps0@));
        // The roots of the logic cone: next-state functions, constraints,
        // and the bad literal.
        let bad0 = if c.bads.len() > 0 { c.bads[0] } else { c.outputs[0] };
        let mut roots: Vec<Var> = Vec::new();
        let mut i: usize = 0;
        while i < nl
            invariant
                i <= nl,
                forall|k: int| 0 <= k < roots@.len() ==> (#[trigger] roots@[k]).0 < n,
            decreases nl - i,
        {
            roots.push(c.latchs[i].next.var());
            i = i + 1;
        }
        let mut i: usize = 0;
        while i < c.constraints.len()
            invariant
                i <= c.constraints@.len(),
                forall|k: int| 0 <= k < roots@.len() ==> (#[trigger] roots@[k]).0 < n,
            decreases c.constraints@.len() - i,
        {
            roots.push(c.constraints[i].var());
            i = i + 1;
        }
        roots.push(bad0.var());
        let cone = mark_closure(&deps0, &roots);
        // The CNF of the cone, the unit clause forcing variable 0 false,
        // and one unit clause per constraint, in the original numbering.
        let tcnf = tseitin(c, &cone);
        proof {
            lemma_tseitin_in_range(c.nodes@, cone@, n as int, n as int);
        }
        let mut base: Cnf = Vec::new();
        let mut c0: Clause = Vec::new();
        c0.push(Lit::new(Var(0u32), false));
        base.push(c0);
        let ghost tview = tcnf@;
        let mut tc = tcnf;
        base.append(&mut tc);
        proof {
            assert forall|a: int, b: int|
                0 <= a < base@.len() && 0 <= b < base@[a]@.len()
                implies 0 <= (#[trigger] base@[a]@[b]).var_idx() < n by {
                if a > 0 {
                    assert(base@[a] == tview[a - 1]);
                    assert(tview.map_values(|cl: Clause| cl@)[a - 1]
                        == tseitin_upto(c.nodes@, cone@, n as int)[a - 1]);
                }
            }
        }
        let mut i: usize = 0;
        while i < c.constraints.len()
            invariant
                i <= c.constraints@.len(),
                forall|a: int, b: int|
                    0 <= a < base@.len() && 0 <= b < base@[a]@.len()
                        ==> 0 <= (#[trigger] base@[a]@[b]).var_idx() < n,
            decreases c.constraints@.len() - i,
        {
            let mut cc: Clause = Vec::new();
            cc.push(c.constraints[i]);
            base.push(cc);
            i = i + 1;
        }
        // The kept identifiers: everything in a clause, plus every input,
        // latch, next-state variable and prime, the bad variable, and the
        // reserved variable 0.
        let mut keep: Vec<bool> = Vec::new();
        let mut k: usize = 0;
        while k < u
            invariant
                keep@.len() == k,
                k <= u,
            decreases u - k,
        {
            keep.push(false);
            k = k + 1;
        }
        keep[0] = true;
        let mut a: usize = 0;
        while a < base.len()
            invariant
                a <= base@.len(),
                keep@.len() == u,
                keep@[0],
                forall|x: int, b: int|
                    0 <= x < a && 0 <= b < base@[x]@.len()
                        ==> keep@[(#[trigger] base@[x]@[b]).var_idx()],
            decreases base@.len() - a,
        {
            let bl = base[a].len();
            let mut b: usize = 0;
            while b < bl
                invariant
                    b <= bl,
                    bl == base@[a as int]@.len(),
                    a < base@.len(),
                    keep@.len() == u,
                    keep@[0],
                    forall|x: int, y: int|
                        0 <= x < a && 0 <= y < base@[x]@.len()
                            ==> keep@[(#[trigger] base@[x]@[y]).var_idx()],
                    forall|y: int| 0 <= y < b
                        ==> keep@[(#[trigger] base@[a as int]@[y]).var_idx()],
                decreases bl - b,
            {
                let l = base[a][b];
                keep[l.var().0 as usize] = true;
                b = b + 1;
            }
            a = a + 1;
        }
        let mut i: usize = 0;
        while i < c.inputs.len()
            invariant
                i <= c.inputs@.len(),
                keep@.len() == u,
                keep@[0],
                forall|x: int, y: int|
                    0 <= x < base@.len() && 0 <= y < base@[x]@.len()
                        ==> keep@[(#[trigger] base@[x]@[y]).var_idx()],
                forall|x: int| 0 <= x < i ==> keep@[(#[trigger] c.inputs@[x]).idx()],
            decreases c.inputs@.len() - i,
        {
            keep[c.inputs[i].0 as usize] = true;
            i = i + 1;
        }
        let mut i: usize = 0;
        while i < nl
            invariant
                i <= nl,
                keep@.len() == u,
                keep@[0],
                forall|x: int, y: int|
                    0 <= x < base@.len() && 0 <= y < base@[x]@.len()
                        ==> keep@[(#[trigger] base@[x]@[y]).var_idx()],
                forall|x: int| 0 <= x < c.inputs@.len()
                    ==> keep@[(#[trigger] c.inputs@[x]).idx()],
                forall|x: int| 0 <= x < i ==> keep@[(#[trigger] c.latchs@[x]).input.idx()],
                forall|x: int| 0 <= x < i ==> keep@[(#[trigger] c.latchs@[x]).next.var_idx()],
                forall|x: int| 0 <= x < i ==> #[trigger] keep@[n + x],
            decreases nl - i,
        {
            keep[c.latchs[i].input.0 as usize] = true;
            keep[c.latchs[i].next.var().0 as usize] = true;
            keep[n + i] = true;
            i = i + 1;
        }
        let mut i: usize = 0;
        while i < c.constraints.len()
            invariant
                i <= c.constraints@.len(),
                keep@.len() == u,
                keep@[0],
                forall|x: int, y: int|
                    0 <= x < base@.len() && 0 <= y < base@[x]@.len()
                        ==> keep@[(#[trigger] base@[x]@[y]).var_idx()],
                forall|x: int| 0 <= x < c.inputs@.len()
                    ==> keep@[(#[trigger] c.inputs@[x]).idx()],
                forall|x: int| 0 <= x < nl ==> keep@[(#[trigger] c.latchs@[x]).input.idx()],
                forall|x: int| 0 <= x < nl ==> keep@[(#[trigger] c.latchs@[x]).next.var_idx()],
                forall|x: int| 0 <= x < nl ==> #[trigger] keep@[n + x],
                forall|x: int| 0 <= x < i
                    ==> keep@[(#[trigger] c.constraints@[x]).var_idx()],
            decreases c.constraints@.len() - i,
        {
            keep[c.constraints[i].var().0 as usize] = true;
            i = i + 1;
        }
        keep[bad0.var().0 as usize] = true;
        // The dense renumbering of the kept identifiers.
        let (mapv, num_var) = compact_map(&keep);
        proof {
            lemma_kept_below_mono(keep@, 0, u as int);
        }
        assert(1 <= num_var <= u);
        assert forall|w: int| 0 <= w < u && keep@[w]
            implies (#[trigger] mapv@[w]) < num_var by {
            lemma_kept_below_mono(keep@, w, u as int);
        }
        assert forall|w: int| 1 <= w < u && keep@[w]
            implies 1 <= (#[trigger] mapv@[w]) by {
            lemma_kept_below_mono(keep@, 0, w);
        }
        assert forall|w1: int, w2: int| 0 <= w1 < w2 < u && keep@[w1] && keep@[w2]
            implies (#[trigger] mapv@[w1]) < (#[trigger] mapv@[w2]) by {
            lemma_kept_below_mono(keep@, w1, w2);
        }
        // Renumber the clauses, the inputs, the constraints and bad.
        let mut trans0: Cnf = Vec::new();
        let mut a: usize = 0;
        while a < base.len()
            invariant
                a <= base@.len(),
                trans0@.len() == a,
                forall|x: int, y: int|
                    0 <= x < a && 0 <= y < trans0@[x]@.len()
                        ==> (#[trigger] trans0@[x]@[y]).var_idx() < num_var,
            decreases base@.len() - a,
        {
            let rc = remap_clause(&base[a], &mapv, num_var);
            trans0.push(rc);
            a = a + 1;
        }
        let mut inputs_new: Vec<Var> = Vec::new();
        let mut i: usize = 0;
        while i < c.inputs.len()
            invariant
                i <= c.inputs@.len(),
                inputs_new@.len() == i,
                forall|x: int| 0 <= x < i
                    ==> 1 <= (#[trigger] inputs_new@[x]).0 < num_var,
            decreases c.inputs@.len() - i,
        {
            inputs_new.push(Var(mapv[c.inputs[i].0 as usize]));
            i = i + 1;
        }
        let mut constraints_new: Vec<Lit> = Vec::new();
        let mut i: usize = 0;
        while i < c.constraints.len()
            invariant
                i <= c.constraints@.len(),
                constraints_new@.len() == i,
                forall|x: int| 0 <= x < i
                    ==> (#[trigger] constraints_new@[x]).var_idx() < num_var,
            decreases c.constraints@.len() - i,
        {
            constraints_new.push(remap_lit(c.constraints[i], &mapv, num_var));
            i = i + 1;
        }
        let bad_new = remap_lit(bad0, &mapv, num_var);
        // The renumbered latch and prime variables.
        let mut lnew: Vec<Var> = Vec::new();
        let mut pnew: Vec<Var> = Vec::new();
        let mut i: usize = 0;
        while i < nl
            invariant
                i <= nl,
                lnew@.len() == i,
                pnew@.len() == i,
                forall|x: int| 0 <= x < i
                    ==> 1 <= (#[trigger] lnew@[x]).0 < num_var
                        && lnew@[x].0 == mapv@[c.latchs@[x].input.idx()],
                forall|x: int| 0 <= x < i
                    ==> 1 <= (#[trigger] pnew@[x]).0 < num_var
                        && pnew@[x].0 == mapv@[n + x],
            decreases nl - i,
        {
            lnew.push(Var(mapv[c.latchs[i].input.0 as usize]));
            pnew.push(Var(mapv[n + i]));
            i = i + 1;
        }
        assert forall|x: int, y: int| 0 <= x < nl && 0 <= y < nl && x != y
            implies #[trigger] lnew@[x] != #[trigger] lnew@[y] by {
            let vx = c.latchs@[x].input.idx();
            let vy = c.latchs@[y].input.idx();
            assert(vx != vy);
        }
        assert forall|x: int, y: int| 0 <= x < nl && 0 <= y < nl && x != y
            implies #[trigger] pnew@[x] != #[trigger] pnew@[y] by {}
        assert forall|x: int, y: int| 0 <= x < nl && 0 <= y < nl
            implies #[trigger] lnew@[x] != #[trigger] pnew@[y] by {
            assert(c.latchs@[x].input.idx() < n <= n + y);
        }
        // The compressed, renumbered dependence map.
        let dep1 = compress_deps(deps0, &keep);
        let mut depsn: Vec<Vec<Var>> = Vec::new();
        let mut v: usize = 0;
        while v < u
            invariant
                v <= u,
                depsn@.len() == kept_below(keep@, v as int),
                depsn@.len() <= v,
                forall|w: int, j: int|
                    0 <= w < depsn@.len() && 0 <= j < depsn@[w]@.len()
                        ==> (#[trigger] depsn@[w]@[j]).0 < w,
            decreases u - v,
        {
            if keep[v] {
                let ghost before = depsn@.len() as int;
                proof {
                    assert(before == mapv@[v as int]);
                }
                let dl = dep1[v].len();
                let mut nd: Vec<Var> = Vec::new();
                let mut j: usize = 0;
                while j < dl
                    invariant
                        j <= dl,
                        dl == dep1@[v as int]@.len(),
                        v < u,
                        keep@[v as int],
                        nd@.len() == j,
                        forall|y: int| 0 <= y < j
                            ==> (#[trigger] nd@[y]).0 < mapv@[v as int],
                    decreases dl - j,
                {
                    let e = dep1[v][j];
                    assert(e.0 < v && keep@[e.idx()]);
                    nd.push(Var(mapv[e.0 as usize]));
                    j = j + 1;
                }
                depsn.push(nd);
            }
            v = v + 1;
        }
        assert(depsn@.len() == num_var);
        // Latch partition tags: a tagged latch keeps its tag; each untagged
        // latch receives a fresh tag above every provided one.
        let mut groups: Vec<u32> = Vec::new();
        let mut k: usize = 0;
        while k < num_var
            invariant
                groups@.len() == k,
                k <= num_var,
            decreases num_var - k,
        {
            groups.push(0);
            k = k + 1;
        }
        let mut fresh: u32 = 0;
        let mut i: usize = 0;
        while i < nl
            invariant
                i <= nl,
            decreases nl - i,
        {
            if let Some(g) = c.latchs[i].group {
                if g >= fresh && g < 0xFFFF_FFFFu32 {
                    fresh = g + 1;
                }
            }
            i = i + 1;
        }
        let mut i: usize = 0;
        while i < nl
            invariant
                i <= nl,
                groups@.len() == num_var,
                forall|x: int| 0 <= x < i
                    ==> ((#[trigger] c.latchs@[x].group) matches Some(g)
                        ==> groups@[lnew@[x].idx()] == g),
            decreases nl - i,
        {
            let g = match c.latchs[i].group {
                Some(g) => g,
                None => {
                    let x = fresh;
                    if fresh < 0xFFFF_FFFFu32 {
                        fresh = fresh + 1;
                    }
                    x
                },
            };
            groups[lnew[i].0 as usize] = g;
            i = i + 1;
        }
        // Assemble the latch-free core, then wire each latch in.
        let mut t = new_core(
            num_var,
            inputs_new,
            bad_new,
            constraints_new,
            trans0,
            depsn,
            groups,
        );
        let ghost groups_view = t.latch_group@;
        let mut i: usize = 0;
        while i < nl
            invariant
                i <= nl,
                t.wf(),
                t.num_var == num_var,
                t.latchs@.len() == i,
                t.inputs@.len() == c.inputs@.len(),
                t.bad == bad_new,
                t.latch_group@ == groups_view,
                forall|j: int| 0 <= j < i ==> (#[trigger] t.latchs@[j]) == lnew@[j],
                forall|j: int| 0 <= j < i
                    ==> t.init_map@[(#[trigger] lnew@[j]).idx()] == c.latchs@[j].init,
                forall|j: int| 0 <= j < i
                    ==> t.spec_next((#[trigger] lnew@[j]).pos_lit()) == pnew@[j].pos_lit()
                        && t.spec_next(lnew@[j].neg_lit()) == pnew@[j].neg_lit(),
            decreases nl - i,
        {
            let state = lnew[i];
            let pn = pnew[i].lit();
            let nxn = remap_lit(c.latchs[i].next, &mapv, num_var);
            let mut c1: Clause = Vec::new();
            c1.push(pn.negate());
            c1.push(nxn);
            let mut c2: Clause = Vec::new();
            c2.push(pn);
            c2.push(nxn.negate());
            let mut tcls: Vec<Clause> = Vec::new();
            tcls.push(c1);
            tcls.push(c2);
            let dep = copy_vars(&t.dependence[state.0 as usize]);
            let dep_next = copy_vars(&t.dependence[pnew[i].0 as usize]);
            proof {
                lemma_lit_code(pn);
                assert(!t.spec_is_latch(state.idx())) by {
                    if t.spec_is_latch(state.idx()) {
                        assert(t.latchs@.contains(Var(state.idx() as u32)));
                        let j = choose|j: int|
                            0 <= j < t.latchs@.len() && t.latchs@[j] == Var(state.idx() as u32);
                        assert(lnew@[j] == lnew@[i as int]);
                        assert(false);
                    }
                }
                assert(!t.spec_is_prime(pn)) by {
                    if t.spec_is_prime(pn) {
                        let pl = t.spec_prev(pn);
                        assert(t.latchs@.contains(Var(pl.var_idx() as u32)));
                        let j = choose|j: int|
                            0 <= j < t.latchs@.len()
                                && t.latchs@[j] == Var(pl.var_idx() as u32);
                        lemma_lit_code(pl);
                        assert(pl == lnew@[j].pos_lit() || pl == lnew@[j].neg_lit());
                        assert(t.spec_next(pl) == pnew@[j].pos_lit()
                            || t.spec_next(pl) == pnew@[j].neg_lit());
                        assert(pnew@[j] != pnew@[i as int]);
                        assert(false);
                    }
                }
                assert(!t.spec_is_prime(pn.negate_spec())) by {
                    let np = pn.negate_spec();
                    if t.spec_is_prime(np) {
                        let pl = t.spec_prev(np);
                        assert(t.latchs@.contains(Var(pl.var_idx() as u32)));
                        let j = choose|j: int|
                            0 <= j < t.latchs@.len()
                                && t.latchs@[j] == Var(pl.var_idx() as u32);
                        lemma_lit_code(pl);
                        assert(pl == lnew@[j].pos_lit() || pl == lnew@[j].neg_lit());
                        assert(t.spec_next(pl) == pnew@[j].pos_lit()
                            || t.spec_next(pl) == pnew@[j].neg_lit());
                        assert(pnew@[j] != pnew@[i as int]);
                        assert(false);
                    }
                }
                assert(pn.var_idx() != state.idx());
                assert forall|y: int| 0 <= y < dep@.len()
                    implies (#[trigger] dep@[y]).idx() < state.idx() by {}
                assert forall|y: int| 0 <= y < dep_next@.len()
                    implies (#[trigger] dep_next@[y]).idx() < pn.var_idx() by {}
            }
            let ghost tpre = t;
            t.add_latch(state, pn, c.latchs[i].init, tcls, dep, dep_next);
            proof {
                assert forall|j: int| 0 <= j < i + 1
                    implies t.spec_next((#[trigger] lnew@[j]).pos_lit()) == pnew@[j].pos_lit()
                        && t.spec_next(lnew@[j].neg_lit()) == pnew@[j].neg_lit() by {
                    if j < i {
                        assert(lnew@[j] != state);
                        assert(lnew@[j].pos_lit().0 != state.pos_lit().0);
                        assert(lnew@[j].pos_lit().0 != state.neg_lit().0);
                        assert(lnew@[j].neg_lit().0 != state.pos_lit().0);
                        assert(lnew@[j].neg_lit().0 != state.neg_lit().0);
                        assert(t.spec_next(lnew@[j].pos_lit())
                            == tpre.spec_next(lnew@[j].pos_lit()));
                        assert(t.spec_next(lnew@[j].neg_lit())
                            == tpre.spec_next(lnew@[j].neg_lit()));
                    } else {
                        assert(t.spec_next(state.pos_lit()) == pn);
                        assert(pn == pnew@[j].pos_lit());
                        assert(t.spec_next(state.neg_lit()) == pn.negate_spec());
                        assert(pn.negate_spec() == pnew@[j].neg_lit());
                    }
                }
                assert forall|j: int| 0 <= j < i + 1
                    implies t.init_map@[(#[trigger] lnew@[j]).idx()] == c.latchs@[j].init by {
                    if j < i {
                        assert(lnew@[j].idx() != state.idx());
                    }
                }
            }
            i = i + 1;
        }
        t
    }
}

} // verus!
