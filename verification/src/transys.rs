use vstd::prelude::*;
use crate::types::{Clause, Cnf, Cube, Lit, Var, VAR_LIMIT};
use crate::types::lemma_lit_code;
use crate::deps::{
    dep_edge, lemma_closed_contains_reachable, lemma_reach_step, reachable, reaches, seed_set,
    strictly_sorted,
};

verus! {

/// The canonical transition-system object: a CNF transition relation over a
/// compact variable domain `[0, num_var)`, together with the latch
/// bookkeeping every reachability algorithm relies on.
///
/// Variable `0` is reserved and permanently bound to the boolean constant
/// false; a unit clause forcing it negated is installed during construction.
pub struct Transys {
    /// Primary (uncontrolled) input variables.
    pub inputs: Vec<Var>,
    /// State-holding variables, the current-state side.
    pub latchs: Vec<Var>,
    /// Literals forced true in the initial state.
    pub init: Cube,
    /// Per-variable initial polarity; `None` means unconstrained at init.
    pub init_map: Vec<Option<bool>>,
    /// The property-violation literal.
    pub bad: Lit,
    /// Invariant constraints that must hold at every step.
    pub constraints: Vec<Lit>,
    /// CNF encoding of the one-step transition relation.
    pub trans: Cnf,
    /// Size of the compact variable domain `[0, num_var)`.
    pub num_var: usize,
    /// Per-variable latch membership.
    pub is_latch: Vec<bool>,
    /// Maps a latch literal to its next-state (prime) literal, by literal code.
    pub next_map: Vec<Lit>,
    /// Maps a prime literal back to its latch literal, by literal code.
    pub prev_map: Vec<Lit>,
    /// Per-variable direct combinational fan-in, restricted to the domain.
    pub dependence: Vec<Vec<Var>>,
    /// The largest latch identifier, used to size latch-indexed arrays.
    pub max_latch: Var,
    /// Partition tag grouping related latches; preserved under remapping.
    pub latch_group: Vec<u32>,
}

impl Transys {
    /// The next-state literal recorded for literal `l`.
    pub open spec fn spec_next(self, l: Lit) -> Lit {
        self.next_map@[l.0 as int]
    }

    /// The current-state literal recorded for prime literal `l`.
    pub open spec fn spec_prev(self, l: Lit) -> Lit {
        self.prev_map@[l.0 as int]
    }

    /// Whether variable index `v` is a latch.
    pub open spec fn spec_is_latch(self, v: int) -> bool {
        0 <= v < self.num_var && self.is_latch@[v]
    }

    /// All dense maps are sized to the variable domain.
    pub open spec fn wf_sizes(self) -> bool {
        &&& 1 <= self.num_var <= VAR_LIMIT
        &&& self.init_map@.len() == self.num_var
        &&& self.is_latch@.len() == self.num_var
        &&& self.next_map@.len() == 2 * self.num_var
        &&& self.prev_map@.len() == 2 * self.num_var
        &&& self.dependence@.len() == self.num_var
        &&& self.latch_group@.len() == self.num_var
    }

    /// Latches are distinct domain variables, none of them the reserved
    /// variable `0`, all bounded by `max_latch`, and `is_latch` is their
    /// exact membership map.
    pub open spec fn wf_latches(self) -> bool {
        &&& forall|i: int| 0 <= i < self.latchs@.len()
                ==> 1 <= (#[trigger] self.latchs@[i]).0 < self.num_var
        &&& forall|i: int| 0 <= i < self.latchs@.len()
                ==> (#[trigger] self.latchs@[i]).0 <= self.max_latch.0
        &&& self.max_latch.0 < self.num_var
        &&& forall|i: int, j: int| 0 <= i < j < self.latchs@.len()
                ==> self.latchs@[i] != self.latchs@[j]
        &&& forall|v: int| 0 <= v < self.num_var
                ==> ((#[trigger] self.is_latch@[v]) <==> self.latchs@.contains(Var(v as u32)))
        &&& forall|i: int| 0 <= i < self.inputs@.len()
                ==> 1 <= (#[trigger] self.inputs@[i]).0 < self.num_var
    }

    /// The next/prev entries at latch literal `l` form an inverse,
    /// polarity-preserving pair.
    pub open spec fn wf_pair_at(self, l: Lit) -> bool {
        &&& self.spec_next(l).0 < 2 * self.num_var
        &&& self.spec_prev(self.spec_next(l)) == l
        &&& self.spec_next(l.negate_spec()) == self.spec_next(l).negate_spec()
    }

    /// `next_map` and `prev_map` are exact inverses on latch literals,
    /// in both phases.
    pub open spec fn wf_next_prev(self) -> bool {
        forall|l: Lit| l.0 < 2 * self.num_var && self.is_latch@[l.var_idx()]
            ==> #[trigger] self.wf_pair_at(l)
    }

    /// Every literal of the clause names a domain variable.
    pub open spec fn clause_in_domain(self, c: Seq<Lit>) -> bool {
        forall|k: int| 0 <= k < c.len() ==> (#[trigger] c[k]).var_idx() < self.num_var
    }

    /// Every variable appearing in `trans`, `init`, `constraints` or `bad`
    /// lies in the compact domain.
    pub open spec fn wf_domain(self) -> bool {
        &&& forall|i: int| 0 <= i < self.trans@.len()
                ==> self.clause_in_domain((#[trigger] self.trans@[i])@)
        &&& self.clause_in_domain(self.init@)
        &&& forall|i: int| 0 <= i < self.constraints@.len()
                ==> (#[trigger] self.constraints@[i]).var_idx() < self.num_var
        &&& self.bad.var_idx() < self.num_var
    }

    /// `init` holds exactly one literal per latch with a determined initial
    /// value, with the polarity `init_map` records.
    pub open spec fn wf_init(self) -> bool {
        &&& forall|k: int| 0 <= k < self.init@.len() ==> {
                let l = #[trigger] self.init@[k];
                &&& l.var_idx() < self.num_var
                &&& self.is_latch@[l.var_idx()]
                &&& self.init_map@[l.var_idx()] == Some(l.polarity_spec())
            }
        &&& forall|v: int| 0 <= v < self.num_var && (#[trigger] self.init_map@[v]) is Some
                ==> self.is_latch@[v]
                    && exists|k: int| 0 <= k < self.init@.len()
                        && (#[trigger] self.init@[k]).var_idx() == v
        &&& forall|k1: int, k2: int| 0 <= k1 < k2 < self.init@.len()
                ==> self.init@[k1].var_idx() != self.init@[k2].var_idx()
    }

    /// Dependency edges point to strictly smaller identifiers: the dense-id
    /// form of combinational acyclicity. In particular every entry lies in
    /// the domain and no variable depends on itself.
    pub open spec fn wf_deps(self) -> bool {
        forall|v: int, j: int|
            0 <= v < self.num_var && 0 <= j < self.dependence@[v]@.len()
                ==> (#[trigger] self.dependence@[v]@[j]).0 < v
    }

    /// The conjunction of all structural invariants of a transition system.
    pub open spec fn wf(self) -> bool {
        &&& self.wf_sizes()
        &&& self.wf_latches()
        &&& self.wf_next_prev()
        &&& self.wf_domain()
        &&& self.wf_init()
        &&& self.wf_deps()
    }

    /// O(1) latch-membership test.
    pub fn is_latch(&self, v: Var) -> (r: bool)
        requires
            self.wf(),
            v.0 < self.num_var,
        ensures
            r == self.spec_is_latch(v.idx()),
    {
        self.is_latch[v.0 as usize]
    }

    /// The next-state literal of latch literal `lit`; polarity-correct.
    pub fn lit_next(&self, lit: Lit) -> (r: Lit)
        requires
            self.wf(),
            self.spec_is_latch(lit.var_idx()),
        ensures
            r == self.spec_next(lit),
    {
        proof {
            lemma_lit_code(lit);
        }
        self.next_map[lit.0 as usize]
    }

    /// Whether `l` is a prime literal: the image of some latch literal
    /// under `next_map`.
    pub open spec fn spec_is_prime(self, l: Lit) -> bool {
        &&& l.0 < 2 * self.num_var
        &&& self.spec_prev(l).0 < 2 * self.num_var
        &&& self.spec_is_latch(self.spec_prev(l).var_idx())
        &&& self.spec_next(self.spec_prev(l)) == l
    }

    /// The current-state literal of prime literal `lit`; polarity-correct.
    pub fn lit_prev(&self, lit: Lit) -> (r: Lit)
        requires
            self.wf(),
            self.spec_is_prime(lit),
        ensures
            r == self.spec_prev(lit),
            self.spec_next(r) == lit,
            self.spec_is_latch(r.var_idx()),
    {
        self.prev_map[lit.0 as usize]
    }

    /// Element-wise `lit_next` over a cube of latch literals.
    pub fn cube_next(&self, cube: &[Lit]) -> (r: Cube)
        requires
            self.wf(),
            forall|k: int| 0 <= k < cube@.len()
                ==> self.spec_is_latch((#[trigger] cube@[k]).var_idx()),
        ensures
            r@.len() == cube@.len(),
            forall|k: int| 0 <= k < cube@.len() ==> r@[k] == self.spec_next(#[trigger] cube@[k]),
    {
        let mut r: Cube = Vec::new();
        let mut i: usize = 0;
        while i < cube.len()
            invariant
                self.wf(),
                i <= cube@.len(),
                r@.len() == i,
                forall|k: int| 0 <= k < cube@.len()
                    ==> self.spec_is_latch((#[trigger] cube@[k]).var_idx()),
                forall|k: int| 0 <= k < i ==> r@[k] == self.spec_next(#[trigger] cube@[k]),
            decreases cube@.len() - i,
        {
            let l = cube[i];
            r.push(self.lit_next(l));
            i = i + 1;
        }
        r
    }

    /// Literal `l` does not contradict a determined initial value.
    pub open spec fn lit_init_compatible(self, l: Lit) -> bool {
        if l.var_idx() < self.num_var {
            match self.init_map@[l.var_idx()] {
                Some(b) => b == l.polarity_spec(),
                None => true,
            }
        } else {
            true
        }
    }

    /// Whether the state cube `x` can include initial states: false exactly
    /// when some literal of `x` contradicts a determined initial value.
    /// Literals of unconstrained or non-latch variables never block.
    pub fn cube_subsume_init(&self, x: &[Lit]) -> (r: bool)
        requires
            self.wf(),
        ensures
            r <==> forall|k: int| 0 <= k < x@.len()
                ==> self.lit_init_compatible(#[trigger] x@[k]),
    {
        let mut i: usize = 0;
        while i < x.len()
            invariant
                self.wf(),
                i <= x@.len(),
                forall|k: int| 0 <= k < i ==> self.lit_init_compatible(#[trigger] x@[k]),
            decreases x@.len() - i,
        {
            let l = x[i];
            let v = l.var();
            if (v.0 as usize) < self.init_map.len() {
                if let Some(b) = self.init_map[v.0 as usize] {
                    if b != l.polarity() {
                        return false;
                    }
                }
            }
            i = i + 1;
        }
        true
    }

    /// The blocking cubes of the determined initial values: one cube per
    /// determined latch, holding the negation of its initial literal, in
    /// ascending variable order.
    pub fn inits(&self) -> (r: Vec<Cube>)
        requires
            self.wf(),
        ensures
            forall|k: int| 0 <= k < r@.len() ==> {
                let c = (#[trigger] r@[k])@;
                &&& c.len() == 1
                &&& 0 <= c[0].var_idx() < self.num_var
                &&& self.init_map@[c[0].var_idx()] == Some(!c[0].polarity_spec())
            },
            forall|v: int| 0 <= v < self.num_var && (#[trigger] self.init_map@[v]) is Some
                ==> exists|k: int| 0 <= k < r@.len() && (#[trigger] r@[k])@[0].var_idx() == v,
            forall|k1: int, k2: int| 0 <= k1 < k2 < r@.len()
                ==> r@[k1]@[0].var_idx() < r@[k2]@[0].var_idx(),
    {
        let mut r: Vec<Cube> = Vec::new();
        let mut v: usize = 0;
        while v < self.num_var
            invariant
                self.wf(),
                v <= self.num_var,
                forall|k: int| 0 <= k < r@.len() ==> {
                    let c = (#[trigger] r@[k])@;
                    &&& c.len() == 1
                    &&& 0 <= c[0].var_idx() < v
                    &&& self.init_map@[c[0].var_idx()] == Some(!c[0].polarity_spec())
                },
                forall|u: int| 0 <= u < v && (#[trigger] self.init_map@[u]) is Some
                    ==> exists|k: int| 0 <= k < r@.len() && (#[trigger] r@[k])@[0].var_idx() == u,
                forall|k1: int, k2: int| 0 <= k1 < k2 < r@.len()
                    ==> r@[k1]@[0].var_idx() < r@[k2]@[0].var_idx(),
            decreases self.num_var - v,
        {
            if let Some(b) = self.init_map[v] {
                let mut c: Cube = Vec::new();
                c.push(Lit::new(Var(v as u32), !b));
                let ghost old_r = r@;
                r.push(c);
                proof {
                    assert forall|u: int|
                        0 <= u < v + 1 && (#[trigger] self.init_map@[u]) is Some
                        implies exists|k: int|
                            0 <= k < r@.len() && (#[trigger] r@[k])@[0].var_idx() == u by {
                        if u < v {
                            let k = choose|k: int|
                                0 <= k < old_r.len() && (#[trigger] old_r[k])@[0].var_idx() == u;
                            assert(r@[k]@[0].var_idx() == u);
                        } else {
                            assert(r@[old_r.len() as int]@[0].var_idx() == u);
                        }
                    }
                }
            }
            v = v + 1;
        }
        r
    }

    /// Allocate the next identifier beyond `num_var`, growing every
    /// variable-indexed map to cover it; registers no semantic role.
    pub fn new_var(&mut self) -> (r: Var)
        requires
            old(self).wf(),
            old(self).num_var < VAR_LIMIT,
        ensures
            final(self).wf(),
            r == Var(old(self).num_var as u32),
            final(self).num_var == old(self).num_var + 1,
            final(self).inputs == old(self).inputs,
            final(self).latchs == old(self).latchs,
            final(self).init == old(self).init,
            final(self).bad == old(self).bad,
            final(self).constraints == old(self).constraints,
            final(self).trans == old(self).trans,
            final(self).max_latch == old(self).max_latch,
            final(self).init_map@ == old(self).init_map@.push(None::<bool>),
            final(self).is_latch@ == old(self).is_latch@.push(false),
            final(self).latch_group@ == old(self).latch_group@.push(0u32),
            final(self).next_map@ == old(self).next_map@.push(Lit(0)).push(Lit(0)),
            final(self).prev_map@ == old(self).prev_map@.push(Lit(0)).push(Lit(0)),
            final(self).dependence@.len() == old(self).num_var + 1,
            forall|i: int| 0 <= i < old(self).num_var
                ==> final(self).dependence@[i] == old(self).dependence@[i],
            final(self).dependence@[old(self).num_var as int]@.len() == 0,
    {
        let r = Var(self.num_var as u32);
        let ghost n = self.num_var as int;
        self.init_map.push(None);
        self.is_latch.push(false);
        self.next_map.push(Lit(0));
        self.next_map.push(Lit(0));
        self.prev_map.push(Lit(0));
        self.prev_map.push(Lit(0));
        self.dependence.push(Vec::new());
        self.latch_group.push(0);
        self.num_var = self.num_var + 1;
        proof {
            assert forall|i: int| 0 <= i < self.latchs@.len()
                implies (#[trigger] self.latchs@[i]).0 != n by {}
            assert forall|l: Lit| l.0 < 2 * self.num_var && self.is_latch@[l.var_idx()]
                implies #[trigger] self.wf_pair_at(l) by {
                lemma_lit_code(l);
                assert(l.var_idx() < n);
                assert(l.0 < 2 * n);
                assert(old(self).wf_pair_at(l));
                lemma_lit_code(old(self).spec_next(l));
            }
        }
        r
    }

    /// Extend the system with a new latch in place: append `state` to the
    /// latch set, wire `next_map`/`prev_map` between `state` and `next` in
    /// both phases, record the initial value, append the supplied transition
    /// clauses, raise `max_latch` if needed, and install the supplied
    /// dependency lists for `state` and for `next`'s variable. The caller
    /// supplies already-consistent clauses and dependency lists; no
    /// independent simplification is performed.
    pub fn add_latch(
        &mut self,
        state: Var,
        next: Lit,
        init: Option<bool>,
        trans_clauses: Vec<Clause>,
        dep: Vec<Var>,
        dep_next: Vec<Var>,
    )
        requires
            old(self).wf(),
            1 <= state.0,
            state.idx() < old(self).num_var,
            !old(self).spec_is_latch(state.idx()),
            next.0 < 2 * old(self).num_var,
            next.var_idx() != state.idx(),
            !old(self).spec_is_prime(next),
            !old(self).spec_is_prime(next.negate_spec()),
            forall|k: int| 0 <= k < trans_clauses@.len()
                ==> old(self).clause_in_domain((#[trigger] trans_clauses@[k])@),
            forall|k: int| 0 <= k < dep@.len() ==> (#[trigger] dep@[k]).idx() < state.idx(),
            forall|k: int| 0 <= k < dep_next@.len()
                ==> (#[trigger] dep_next@[k]).idx() < next.var_idx(),
        ensures
            final(self).wf(),
            final(self).spec_is_latch(state.idx()),
            final(self).latchs@ == old(self).latchs@.push(state),
            final(self).is_latch@ == old(self).is_latch@.update(state.idx(), true),
            final(self).trans@ == old(self).trans@ + trans_clauses@,
            final(self).init_map@ == old(self).init_map@.update(state.idx(), init),
            final(self).spec_next(state.pos_lit()) == next,
            final(self).spec_next(state.neg_lit()) == next.negate_spec(),
            match init {
                Some(b) => final(self).init@ == old(self).init@.push(
                    if b { state.pos_lit() } else { state.neg_lit() },
                ),
                None => final(self).init@ == old(self).init@,
            },
            final(self).max_latch == if state.0 > old(self).max_latch.0 {
                state
            } else {
                old(self).max_latch
            },
            final(self).num_var == old(self).num_var,
            final(self).inputs == old(self).inputs,
            final(self).bad == old(self).bad,
            final(self).constraints == old(self).constraints,
            final(self).latch_group == old(self).latch_group,
            final(self).next_map@ == old(self).next_map@
                .update(state.pos_lit().0 as int, next)
                .update(state.neg_lit().0 as int, next.negate_spec()),
            final(self).prev_map@ == old(self).prev_map@
                .update(next.0 as int, state.pos_lit())
                .update(next.negate_spec().0 as int, state.neg_lit()),
            final(self).dependence@[state.idx()] == dep,
            final(self).dependence@[next.var_idx()] == dep_next,
            forall|v: int| 0 <= v < final(self).num_var && v != state.idx() && v != next.var_idx()
                ==> final(self).dependence@[v] == old(self).dependence@[v],
    {
        proof {
            lemma_lit_code(next);
        }
        let s = state.0 as usize;
        self.latchs.push(state);
        let mut tc = trans_clauses;
        self.trans.append(&mut tc);
        self.init_map[s] = init;
        self.is_latch[s] = true;
        let pos = state.lit();
        let neg = pos.negate();
        let nneg = next.negate();
        self.next_map[pos.0 as usize] = next;
        self.next_map[neg.0 as usize] = nneg;
        self.prev_map[next.0 as usize] = pos;
        self.prev_map[nneg.0 as usize] = neg;
        if let Some(b) = init {
            self.init.push(Lit::new(state, b));
        }
        if state.0 > self.max_latch.0 {
            self.max_latch = state;
        }
        self.dependence[s] = dep;
        self.dependence[next.var().0 as usize] = dep_next;
        proof {
            self.lemma_add_latch_wf(*old(self), state, next, init);
        }
    }

    /// Cone of influence: the set of variables reachable from the seed
    /// variables by zero or more `dependence` edges (the seeds included),
    /// each reported once, in ascending order.
    pub fn get_coi(&self, seed: &[Var]) -> (r: Vec<Var>)
        requires
            self.wf(),
            forall|i: int| 0 <= i < seed@.len() ==> (#[trigger] seed@[i]).0 < self.num_var,
        ensures
            strictly_sorted(r@),
            forall|k: int| 0 <= k < r@.len() ==> (#[trigger] r@[k]).0 < self.num_var,
            forall|w: int| 0 <= w < self.num_var
                ==> ((exists|k: int| 0 <= k < r@.len() && (#[trigger] r@[k]).0 == w)
                    <==> reachable(self.dependence@, seed_set(seed@), w)),
    {
        let n = self.num_var;
        let ghost dp = self.dependence@;
        let ghost sd = seed_set(seed@);
        let mut marked: Vec<bool> = Vec::new();
        let mut k: usize = 0;
        while k < n
            invariant
                marked@.len() == k,
                k <= n,
                forall|w: int| 0 <= w < k ==> !marked@[w],
            decreases n - k,
        {
            marked.push(false);
            k = k + 1;
        }
        // Mark the seeds.
        let mut i: usize = 0;
        while i < seed.len()
            invariant
                self.wf(),
                n == self.num_var,
                dp == self.dependence@,
                sd == seed_set(seed@),
                marked@.len() == n,
                i <= seed@.len(),
                forall|t: int| 0 <= t < seed@.len() ==> (#[trigger] seed@[t]).0 < n,
                forall|w: int| 0 <= w < n && marked@[w] ==> reachable(dp, sd, w),
                forall|t: int| 0 <= t < i ==> marked@[(#[trigger] seed@[t]).0 as int],
            decreases seed@.len() - i,
        {
            let s = seed[i];
            if !marked[s.0 as usize] {
                marked[s.0 as usize] = true;
                proof {
                    assert(sd.contains(s.0 as int));
                    assert(reaches(dp, sd, s.0 as int, 0));
                }
            }
            i = i + 1;
        }
        // Propagate marks along dependency edges; edges point strictly
        // downward, so one descending sweep closes the marking.
        let mut v: usize = n;
        while v > 0
            invariant
                self.wf(),
                n == self.num_var,
                dp == self.dependence@,
                sd == seed_set(seed@),
                marked@.len() == n,
                v <= n,
                forall|t: int| 0 <= t < seed@.len() ==> (#[trigger] seed@[t]).0 < n,
                forall|w: int| 0 <= w < n && marked@[w] ==> reachable(dp, sd, w),
                forall|t: int| 0 <= t < seed@.len()
                    ==> marked@[(#[trigger] seed@[t]).0 as int],
                forall|u: int, j: int|
                    v <= u < n && marked@[u] && 0 <= j < dp[u]@.len()
                        ==> marked@[(#[trigger] dp[u]@[j]).0 as int],
            decreases v,
        {
            v = v - 1;
            if marked[v] {
                let dl = self.dependence[v].len();
                let mut j: usize = 0;
                while j < dl
                    invariant
                        self.wf(),
                        n == self.num_var,
                        dp == self.dependence@,
                        sd == seed_set(seed@),
                        marked@.len() == n,
                        v < n,
                        marked@[v as int],
                        dl == dp[v as int]@.len(),
                        j <= dl,
                        forall|t: int| 0 <= t < seed@.len() ==> (#[trigger] seed@[t]).0 < n,
                        forall|w: int| 0 <= w < n && marked@[w] ==> reachable(dp, sd, w),
                        forall|t: int| 0 <= t < seed@.len()
                            ==> marked@[(#[trigger] seed@[t]).0 as int],
                        forall|u: int, jj: int|
                            v < u < n && marked@[u] && 0 <= jj < dp[u]@.len()
                                ==> marked@[(#[trigger] dp[u]@[jj]).0 as int],
                        forall|jj: int| 0 <= jj < j
                            ==> marked@[(#[trigger] dp[v as int]@[jj]).0 as int],
                    decreases dl - j,
                {
                    let d = self.dependence[v][j];
                    assert(d.0 < v);
                    if !marked[d.0 as usize] {
                        marked[d.0 as usize] = true;
                        proof {
                            assert(dep_edge(dp, v as int, d.0 as int)) by {
                                assert(dp[v as int]@[j as int].0 == d.0);
                            }
                            lemma_reach_step(dp, sd, v as int, d.0 as int);
                        }
                    }
                    j = j + 1;
                }
            }
        }
        // Collect the closure in ascending order.
        let mut r: Vec<Var> = Vec::new();
        let mut w: usize = 0;
        while w < n
            invariant
                self.wf(),
                n == self.num_var,
                marked@.len() == n,
                w <= n,
                forall|k: int| 0 <= k < r@.len() ==> (#[trigger] r@[k]).0 < w,
                forall|k1: int, k2: int| 0 <= k1 < k2 < r@.len() ==> r@[k1].0 < r@[k2].0,
                forall|u: int| 0 <= u < w
                    ==> (marked@[u] <==> exists|k: int|
                        0 <= k < r@.len() && (#[trigger] r@[k]).0 == u),
            decreases n - w,
        {
            if marked[w] {
                let ghost old_r = r@;
                r.push(Var(w as u32));
                proof {
                    assert forall|u: int| 0 <= u < w + 1
                        implies (marked@[u] <==> exists|k: int|
                            0 <= k < r@.len() && (#[trigger] r@[k]).0 == u) by {
                        if u < w {
                            if marked@[u] {
                                let k = choose|k: int|
                                    0 <= k < old_r.len() && (#[trigger] old_r[k]).0 == u;
                                assert(r@[k].0 == u);
                            } else {
                                if exists|k: int| 0 <= k < r@.len() && (#[trigger] r@[k]).0 == u {
                                    let k = choose|k: int|
                                        0 <= k < r@.len() && (#[trigger] r@[k]).0 == u;
                                    assert(k < old_r.len());
                                }
                            }
                        } else {
                            assert(r@[old_r.len() as int].0 == u);
                        }
                    }
                }
            }
            w = w + 1;
        }
        proof {
            assert forall|w0: int|
                0 <= w0 < self.num_var
                implies ((exists|k: int| 0 <= k < r@.len() && (#[trigger] r@[k]).0 == w0)
                    <==> reachable(dp, sd, w0)) by {
                if reachable(dp, sd, w0) {
                    let nn = choose|nn: nat| reaches(dp, sd, w0, nn);
                    lemma_closed_contains_reachable(dp, sd, marked@, w0, nn);
                }
            }
        }
        r
    }

    /// The well-formedness argument for `add_latch`, separated out to keep
    /// the executable body readable.
    proof fn lemma_add_latch_wf(self, pre: Transys, state: Var, next: Lit, init: Option<bool>)
        requires
            pre.wf(),
            1 <= state.0,
            state.idx() < pre.num_var,
            !pre.spec_is_latch(state.idx()),
            next.0 < 2 * pre.num_var,
            next.var_idx() != state.idx(),
            !pre.spec_is_prime(next),
            !pre.spec_is_prime(next.negate_spec()),
            self.num_var == pre.num_var,
            self.inputs == pre.inputs,
            self.bad == pre.bad,
            self.constraints == pre.constraints,
            self.latch_group == pre.latch_group,
            self.latchs@ == pre.latchs@.push(state),
            self.is_latch@ == pre.is_latch@.update(state.idx(), true),
            self.init_map@ == pre.init_map@.update(state.idx(), init),
            forall|k: int| 0 <= k < self.trans@.len()
                ==> pre.clause_in_domain((#[trigger] self.trans@[k])@),
            match init {
                Some(b) => self.init@ == pre.init@.push(
                    if b { state.pos_lit() } else { state.neg_lit() },
                ),
                None => self.init@ == pre.init@,
            },
            self.max_latch == if state.0 > pre.max_latch.0 { state } else { pre.max_latch },
            self.next_map@ == pre.next_map@
                .update(state.pos_lit().0 as int, next)
                .update(state.neg_lit().0 as int, next.negate_spec()),
            self.prev_map@ == pre.prev_map@
                .update(next.0 as int, state.pos_lit())
                .update(next.negate_spec().0 as int, state.neg_lit()),
            self.dependence@.len() == pre.dependence@.len(),
            forall|k: int| 0 <= k < self.dependence@[state.idx()]@.len()
                ==> (#[trigger] self.dependence@[state.idx()]@[k]).idx() < state.idx(),
            forall|k: int| 0 <= k < self.dependence@[next.var_idx()]@.len()
                ==> (#[trigger] self.dependence@[next.var_idx()]@[k]).idx() < next.var_idx(),
            forall|v: int| 0 <= v < self.num_var && v != state.idx() && v != next.var_idx()
                ==> self.dependence@[v] == pre.dependence@[v],
        ensures
            self.wf(),
            self.spec_is_latch(state.idx()),
            self.spec_next(state.pos_lit()) == next,
            self.spec_next(state.neg_lit()) == next.negate_spec(),
    {
        let n = pre.num_var as int;
        let sp = state.pos_lit();
        let sn = state.neg_lit();
        let np = next.negate_spec();
        lemma_lit_code(next);
        assert(sp.var_idx() == state.idx() && sn.var_idx() == state.idx());
        assert(sp.negate_spec() == sn && sn.negate_spec() == sp);
        assert(np.negate_spec() == next);
        assert(np.var_idx() == next.var_idx());
        // Latch bookkeeping.
        assert forall|v: int| 0 <= v < self.num_var
            implies ((#[trigger] self.is_latch@[v]) <==> self.latchs@.contains(Var(v as u32))) by {
            if v == state.idx() {
                assert(self.latchs@[pre.latchs@.len() as int] == state);
                assert(Var(v as u32) == state);
            } else {
                if pre.is_latch@[v] {
                    let i = choose|i: int|
                        0 <= i < pre.latchs@.len() && pre.latchs@[i] == Var(v as u32);
                    assert(self.latchs@[i] == Var(v as u32));
                } else {
                    if self.latchs@.contains(Var(v as u32)) {
                        let i = choose|i: int|
                            0 <= i < self.latchs@.len() && self.latchs@[i] == Var(v as u32);
                        assert(i < pre.latchs@.len());
                        assert(pre.latchs@.contains(Var(v as u32)));
                    }
                }
            }
        }
        assert forall|i: int, j: int| 0 <= i < j < self.latchs@.len()
            implies self.latchs@[i] != self.latchs@[j] by {
            if j == pre.latchs@.len() as int {
                if self.latchs@[i] == state {
                    assert(pre.latchs@.contains(state));
                    assert(pre.is_latch@[state.idx()]);
                }
            }
        }
        // Next/prev pairs.
        assert forall|l: Lit| l.0 < 2 * self.num_var && self.is_latch@[l.var_idx()]
            implies #[trigger] self.wf_pair_at(l) by {
            lemma_lit_code(l);
            if l.var_idx() == state.idx() {
                assert(l == sp || l == sn);
                assert(self.spec_next(sp) == next);
                assert(self.spec_next(sn) == np);
                assert(self.spec_prev(next) == sp);
                assert(self.spec_prev(np) == sn);
            } else {
                assert(pre.is_latch@[l.var_idx()]);
                assert(pre.wf_pair_at(l));
                let m = pre.spec_next(l);
                lemma_lit_code(m);
                // The old pair survives: the rewired codes belong to `state`
                // and to `next`'s variable, which this latch does not touch.
                assert(l.0 != sp.0 && l.0 != sn.0);
                assert(l.negate_spec().0 != sp.0 && l.negate_spec().0 != sn.0);
                assert(self.spec_next(l) == m);
                assert(self.spec_next(l.negate_spec()) == pre.spec_next(l.negate_spec()));
                // `m` is a prime of `pre`, so it is neither `next` nor its negation.
                assert(pre.spec_is_prime(m)) by {
                    assert(pre.spec_prev(m) == l);
                }
                if m.0 == next.0 {
                    assert(pre.spec_is_prime(next));
                    assert(false);
                }
                if m.0 == np.0 {
                    assert(m == np);
                    assert(pre.spec_is_prime(next.negate_spec()));
                    assert(false);
                }
                assert(self.spec_prev(m) == pre.spec_prev(m));
            }
        }
        // Initial-state bookkeeping.
        assert forall|k: int| 0 <= k < self.init@.len() implies {
            let l = #[trigger] self.init@[k];
            &&& l.var_idx() < self.num_var
            &&& self.is_latch@[l.var_idx()]
            &&& self.init_map@[l.var_idx()] == Some(l.polarity_spec())
        } by {
            if k < pre.init@.len() {
                let l = pre.init@[k];
                assert(pre.init_map@[l.var_idx()] == Some(l.polarity_spec()));
                assert(l.var_idx() != state.idx());
            }
        }
        assert forall|v: int| 0 <= v < self.num_var && (#[trigger] self.init_map@[v]) is Some
            implies self.is_latch@[v]
                && exists|k: int| 0 <= k < self.init@.len()
                    && (#[trigger] self.init@[k]).var_idx() == v by {
            if v == state.idx() {
                assert(self.init@[self.init@.len() - 1].var_idx() == v);
            } else {
                assert(pre.init_map@[v] is Some);
                let k = choose|k: int|
                    0 <= k < pre.init@.len() && (#[trigger] pre.init@[k]).var_idx() == v;
                assert(self.init@[k].var_idx() == v);
            }
        }
        assert forall|k1: int, k2: int| 0 <= k1 < k2 < self.init@.len()
            implies self.init@[k1].var_idx() != self.init@[k2].var_idx() by {
            if k2 == self.init@.len() - 1 && init is Some && self.init@.len() > pre.init@.len() {
                let l = pre.init@[k1];
                assert(pre.init_map@[l.var_idx()] == Some(l.polarity_spec()));
                assert(l.var_idx() != state.idx());
            }
        }
    }
}

/// Domain closure law: every variable of every clause of the transition
/// relation lies in the compact domain `[0, num_var)`.
pub proof fn lemma_trans_domain_closure(t: Transys, i: int, k: int)
    requires
        t.wf(),
        0 <= i < t.trans@.len(),
        0 <= k < t.trans@[i]@.len(),
    ensures
        0 <= t.trans@[i]@[k].var_idx() < t.num_var,
{
    assert(t.clause_in_domain(t.trans@[i]@));
}

/// Dependency domain-closure law: every entry of a domain variable's
/// dependency list is itself a domain variable, and no variable depends
/// on itself.
pub proof fn lemma_dependence_closure(t: Transys, v: int, j: int)
    requires
        t.wf(),
        0 <= v < t.num_var,
        0 <= j < t.dependence@[v]@.len(),
    ensures
        0 <= t.dependence@[v]@[j].idx() < t.num_var,
        t.dependence@[v]@[j].idx() != v,
{
}

/// Next/prev inverse law: on every latch literal `l`, in either phase,
/// `prev(next(l)) == l`, hence `next(prev(next(l))) == next(l)`, and the
/// polarity flip commutes with the mapping: `next(!l) == !next(l)`.
pub proof fn lemma_next_prev_inverse(t: Transys, l: Lit)
    requires
        t.wf(),
        t.spec_is_latch(l.var_idx()),
    ensures
        t.spec_prev(t.spec_next(l)) == l,
        t.spec_next(t.spec_prev(t.spec_next(l))) == t.spec_next(l),
        t.spec_next(l.negate_spec()) == t.spec_next(l).negate_spec(),
{
    lemma_lit_code(l);
    assert(t.wf_pair_at(l));
}

} // verus!
