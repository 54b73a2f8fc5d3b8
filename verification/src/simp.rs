use vstd::prelude::*;
use crate::types::{Clause, Cnf, Lit, Var};
use crate::types::lemma_lit_code;
use crate::deps::compress_deps;
use crate::builder::copy_vars;
use crate::transys::Transys;

verus! {

/// Copy the first `n` elements of a vector.
pub fn take_prefix<T: Copy>(s: &Vec<T>, n: usize) -> (r: Vec<T>)
    requires
        n <= s@.len(),
    ensures
        r@ == s@.take(n as int),
{
    let mut r: Vec<T> = Vec::new();
    let mut i: usize = 0;
    while i < n
        invariant
            n <= s@.len(),
            i <= n,
            r@ == s@.take(i as int),
        decreases n - i,
    {
        r.push(s[i]);
        proof {
            assert(r@ =~= s@.take(i + 1));
        }
        i = i + 1;
    }
    r
}

impl Transys {
    /// The next-state variable of the `i`-th latch.
    pub open spec fn next_var_of(self, i: int) -> int {
        self.spec_next(self.latchs@[i].pos_lit()).var_idx()
    }

    /// The next-state variable of every latch lies in the domain.
    pub proof fn lemma_next_var_of_bound(self, i: int)
        requires
            self.wf(),
            0 <= i < self.latchs@.len(),
        ensures
            0 <= self.next_var_of(i) < self.num_var,
    {
        let lv = self.latchs@[i];
        assert(self.latchs@.contains(lv));
        assert(self.is_latch@[lv.idx()]);
        assert(self.wf_pair_at(lv.pos_lit()));
        lemma_lit_code(self.spec_next(lv.pos_lit()));
    }

    /// Derive a further-simplified transition system: the transition
    /// relation is joined with the extra learned clauses (and, when
    /// `assert_constrain` is set, with one unit clause per constraint,
    /// instead of keeping the constraints frozen), the variable watermark
    /// is recomputed over the frozen variables (inputs, latches, their
    /// next-state variables, the bad variable) and the clause set, and the
    /// dependency map is compressed against that new domain. Variable
    /// identifiers are stable: the domain is not renumbered on this path.
    /// `keep_dep` selects the elimination backend an embedder couples in;
    /// it does not affect the combination performed here.
    #[verifier::loop_isolation(false)]
    #[verifier::rlimit(60)]
    pub fn simplify(&self, lemmas: &[Clause], keep_dep: bool, assert_constrain: bool) -> (r:
        Transys)
        requires
            self.wf(),
            forall|i: int, k: int| 0 <= i < lemmas@.len() && 0 <= k < lemmas@[i]@.len()
                ==> (#[trigger] lemmas@[i]@[k]).var_idx() < self.num_var,
        ensures
            r.wf(),
            r.inputs@ == self.inputs@,
            r.latchs@ == self.latchs@,
            r.init@ == self.init@,
            r.bad == self.bad,
            r.constraints@ == self.constraints@,
            r.max_latch == self.max_latch,
            r.num_var <= self.num_var,
            r.init_map@ == self.init_map@.take(r.num_var as int),
            r.is_latch@ == self.is_latch@.take(r.num_var as int),
            r.next_map@ == self.next_map@.take(2 * r.num_var as int),
            r.prev_map@ == self.prev_map@.take(2 * r.num_var as int),
            r.latch_group@ == self.latch_group@.take(r.num_var as int),
            r.trans@.len() == self.trans@.len() + lemmas@.len() + (if assert_constrain {
                self.constraints@.len() as int
            } else {
                0int
            }),
            forall|i: int| 0 <= i < self.trans@.len()
                ==> (#[trigger] r.trans@[i])@ == self.trans@[i]@,
            forall|i: int| 0 <= i < lemmas@.len()
                ==> (#[trigger] r.trans@[self.trans@.len() + i])@ == lemmas@[i]@,
            assert_constrain ==> forall|i: int| 0 <= i < self.constraints@.len()
                ==> (#[trigger] r.trans@[self.trans@.len() + lemmas@.len() + i])@
                    =~= seq![self.constraints@[i]],
        {
            let n = self.num_var;
            let _ = keep_dep;
            // Assemble the combined clause set.
            let mut clauses: Cnf = Vec::new();
            let mut i: usize = 0;
            while i < self.trans.len()
                invariant
                    i <= self.trans@.len(),
                    clauses@.len() == i,
                    forall|x: int| 0 <= x < i
                        ==> (#[trigger] clauses@[x])@ == self.trans@[x]@,
                decreases self.trans@.len() - i,
            {
                let cl = take_prefix(&self.trans[i], self.trans[i].len());
                proof {
                    assert(cl@ =~= self.trans@[i as int]@);
                }
                clauses.push(cl);
                i = i + 1;
            }
            let mut i: usize = 0;
            while i < lemmas.len()
                invariant
                    i <= lemmas@.len(),
                    clauses@.len() == self.trans@.len() + i,
                    forall|x: int| 0 <= x < self.trans@.len()
                        ==> (#[trigger] clauses@[x])@ == self.trans@[x]@,
                    forall|x: int| 0 <= x < i
                        ==> (#[trigger] clauses@[self.trans@.len() + x])@ == lemmas@[x]@,
                decreases lemmas@.len() - i,
            {
                let cl = take_prefix(&lemmas[i], lemmas[i].len());
                proof {
                    assert(cl@ =~= lemmas@[i as int]@);
                }
                clauses.push(cl);
                i = i + 1;
            }
            let ghost base_len = clauses@.len();
            if assert_constrain {
                let mut i: usize = 0;
                while i < self.constraints.len()
                    invariant
                        i <= self.constraints@.len(),
                        clauses@.len() == base_len + i,
                        forall|x: int| 0 <= x < self.trans@.len()
                            ==> (#[trigger] clauses@[x])@ == self.trans@[x]@,
                        forall|x: int| 0 <= x < lemmas@.len()
                            ==> (#[trigger] clauses@[self.trans@.len() + x])@ == lemmas@[x]@,
                        forall|x: int| 0 <= x < i
                            ==> (#[trigger] clauses@[base_len + x])@
                                =~= seq![self.constraints@[x]],
                    decreases self.constraints@.len() - i,
                {
                    let mut cc: Clause = Vec::new();
                    cc.push(self.constraints[i]);
                    clauses.push(cc);
                    i = i + 1;
                }
            }
            // Mark the new domain: the reserved variable, the frozen
            // variables, and everything in a clause.
            let mut keep: Vec<bool> = Vec::new();
            let mut k: usize = 0;
            while k < n
                invariant
                    keep@.len() == k,
                    k <= n,
                decreases n - k,
            {
                keep.push(false);
                k = k + 1;
            }
            keep[0] = true;
            keep[self.max_latch.0 as usize] = true;
            keep[self.bad.var().0 as usize] = true;
            let mut i: usize = 0;
            while i < self.inputs.len()
                invariant
                    i <= self.inputs@.len(),
                    keep@.len() == n,
                    keep@[0],
                    keep@[self.max_latch.idx()],
                    keep@[self.bad.var_idx()],
                    forall|x: int| 0 <= x < i ==> keep@[(#[trigger] self.inputs@[x]).idx()],
                decreases self.inputs@.len() - i,
            {
                keep[self.inputs[i].0 as usize] = true;
                i = i + 1;
            }
            let mut i: usize = 0;
            while i < self.latchs.len()
                invariant
                    i <= self.latchs@.len(),
                    keep@.len() == n,
                    keep@[0],
                    keep@[self.max_latch.idx()],
                    keep@[self.bad.var_idx()],
                    forall|x: int| 0 <= x < self.inputs@.len()
                        ==> keep@[(#[trigger] self.inputs@[x]).idx()],
                    forall|x: int| 0 <= x < i ==> keep@[(#[trigger] self.latchs@[x]).idx()],
                    forall|x: int| 0 <= x < i
                        ==> (0 <= #[trigger] self.next_var_of(x) < n && keep@[self.next_var_of(x)]),
                decreases self.latchs@.len() - i,
            {
                let lv = self.latchs[i];
                keep[lv.0 as usize] = true;
                let nx = self.lit_next(lv.lit());
                proof {
                    self.lemma_next_var_of_bound(i as int);
                    assert(nx.var_idx() == self.next_var_of(i as int));
                    lemma_lit_code(nx);
                }
                keep[nx.var().0 as usize] = true;
                i = i + 1;
            }
            if !assert_constrain {
                let mut i: usize = 0;
                while i < self.constraints.len()
                    invariant
                        i <= self.constraints@.len(),
                        keep@.len() == n,
                        keep@[0],
                        keep@[self.max_latch.idx()],
                        keep@[self.bad.var_idx()],
                        forall|x: int| 0 <= x < self.inputs@.len()
                            ==> keep@[(#[trigger] self.inputs@[x]).idx()],
                        forall|x: int| 0 <= x < self.latchs@.len()
                            ==> keep@[(#[trigger] self.latchs@[x]).idx()],
                        forall|x: int| 0 <= x < self.latchs@.len()
                            ==> (0 <= #[trigger] self.next_var_of(x) < n && keep@[self.next_var_of(x)]),
                        forall|x: int| 0 <= x < i
                            ==> keep@[(#[trigger] self.constraints@[x]).var_idx()],
                    decreases self.constraints@.len() - i,
                {
                    keep[self.constraints[i].var().0 as usize] = true;
                    i = i + 1;
                }
            }
            proof {
                assert forall|x: int, y: int|
                    0 <= x < clauses@.len() && 0 <= y < clauses@[x]@.len()
                    implies (#[trigger] clauses@[x]@[y]).var_idx() < n by {
                    if x < self.trans@.len() {
                        assert(clauses@[x]@ == self.trans@[x]@);
                        assert(self.clause_in_domain(self.trans@[x]@));
                    } else if x < self.trans@.len() + lemmas@.len() {
                        let x0 = x - self.trans@.len();
                        assert(clauses@[self.trans@.len() + x0]@ == lemmas@[x0]@);
                    } else {
                        let x0 = x - self.trans@.len() - lemmas@.len();
                        assert((clauses@[base_len + x0])@ =~= seq![self.constraints@[x0]]);
                    }
                }
            }
            let mut a: usize = 0;
            while a < clauses.len()
                invariant
                    a <= clauses@.len(),
                    keep@.len() == n,
                    keep@[0],
                    keep@[self.max_latch.idx()],
                    keep@[self.bad.var_idx()],
                    forall|x: int| 0 <= x < self.inputs@.len()
                        ==> keep@[(#[trigger] self.inputs@[x]).idx()],
                    forall|x: int| 0 <= x < self.latchs@.len()
                        ==> keep@[(#[trigger] self.latchs@[x]).idx()],
                    forall|x: int| 0 <= x < self.latchs@.len()
                        ==> (0 <= #[trigger] self.next_var_of(x) < n && keep@[self.next_var_of(x)]),
                    assert_constrain || forall|x: int| 0 <= x < self.constraints@.len()
                        ==> keep@[(#[trigger] self.constraints@[x]).var_idx()],
                    forall|x: int, y: int| 0 <= x < clauses@.len() && 0 <= y < clauses@[x]@.len()
                        ==> (#[trigger] clauses@[x]@[y]).var_idx() < n,
                    forall|x: int, y: int| 0 <= x < a && 0 <= y < clauses@[x]@.len()
                        ==> keep@[(#[trigger] clauses@[x]@[y]).var_idx()],
                decreases clauses@.len() - a,
            {
                let bl = clauses[a].len();
                let mut b: usize = 0;
                while b < bl
                    invariant
                        b <= bl,
                        a < clauses@.len(),
                        bl == clauses@[a as int]@.len(),
                        keep@.len() == n,
                        keep@[0],
                        keep@[self.max_latch.idx()],
                        keep@[self.bad.var_idx()],
                        forall|x: int| 0 <= x < self.inputs@.len()
                            ==> keep@[(#[trigger] self.inputs@[x]).idx()],
                        forall|x: int| 0 <= x < self.latchs@.len()
                            ==> keep@[(#[trigger] self.latchs@[x]).idx()],
                        forall|x: int| 0 <= x < self.latchs@.len()
                            ==> (0 <= #[trigger] self.next_var_of(x) < n && keep@[self.next_var_of(x)]),
                        assert_constrain || forall|x: int| 0 <= x < self.constraints@.len()
                            ==> keep@[(#[trigger] self.constraints@[x]).var_idx()],
                        forall|x: int, y: int|
                            0 <= x < clauses@.len() && 0 <= y < clauses@[x]@.len()
                                ==> (#[trigger] clauses@[x]@[y]).var_idx() < n,
                        forall|x: int, y: int| 0 <= x < a && 0 <= y < clauses@[x]@.len()
                            ==> keep@[(#[trigger] clauses@[x]@[y]).var_idx()],
                        forall|y: int| 0 <= y < b
                            ==> keep@[(#[trigger] clauses@[a as int]@[y]).var_idx()],
                    decreases bl - b,
                {
                    let l = clauses[a][b];
                    keep[l.var().0 as usize] = true;
                    b = b + 1;
                }
                a = a + 1;
            }
            // The new watermark: one past the highest marked identifier.
            let mut nv: usize = n;
            while nv > 0 && !keep[nv - 1]
                invariant
                    nv <= n,
                    keep@.len() == n,
                    forall|x: int| nv <= x < n ==> !keep@[x],
                decreases nv,
            {
                nv = nv - 1;
            }
            assert(nv >= 1);
            assert forall|x: int| 0 <= x < n && keep@[x] implies x < nv by {}
            // Truncate the variable-indexed maps and compress the
            // dependency map against the new domain.
            let init_map = take_prefix(&self.init_map, nv);
            let is_latch = take_prefix(&self.is_latch, nv);
            let next_map = take_prefix(&self.next_map, 2 * nv);
            let prev_map = take_prefix(&self.prev_map, 2 * nv);
            let latch_group = take_prefix(&self.latch_group, nv);
            let keep2 = take_prefix(&keep, nv);
            let mut deps0: Vec<Vec<Var>> = Vec::new();
            let mut v: usize = 0;
            while v < nv
                invariant
                    v <= nv,
                    nv <= self.dependence@.len(),
                    deps0@.len() == v,
                    forall|x: int| 0 <= x < v ==> (#[trigger] deps0@[x])@ == self.dependence@[x]@,
                decreases nv - v,
            {
                deps0.push(copy_vars(&self.dependence[v]));
                v = v + 1;
            }
            let dependence = compress_deps(deps0, &keep2);
            let inputs = copy_vars(&self.inputs);
            let latchs = copy_vars(&self.latchs);
            let init = take_prefix(&self.init, self.init.len());
            let constraints = take_prefix(&self.constraints, self.constraints.len());
            proof {
                assert(init@ =~= self.init@);
                assert(constraints@ =~= self.constraints@);
            }
            let r = Transys {
                inputs,
                latchs,
                init,
                init_map,
                bad: self.bad,
                constraints,
                trans: clauses,
                num_var: nv,
                is_latch,
                next_map,
                prev_map,
                dependence,
                max_latch: self.max_latch,
                latch_group,
            };
            proof {
                assert forall|l: Lit| l.0 < 2 * r.num_var && r.is_latch@[l.var_idx()]
                    implies #[trigger] r.wf_pair_at(l) by {
                    lemma_lit_code(l);
                    assert(self.wf_pair_at(l));
                    let lv = Var(l.var_idx() as u32);
                    assert(self.latchs@.contains(lv));
                    let j = choose|j: int|
                        0 <= j < self.latchs@.len() && self.latchs@[j] == lv;
                    // The next-state variable of this latch is frozen, so the
                    // whole pair survives the truncation.
                    self.lemma_next_var_of_bound(j);
                    assert(keep@[self.next_var_of(j)]);
                    assert(l == lv.pos_lit() || l == lv.neg_lit());
                    let m = self.spec_next(l);
                    lemma_lit_code(m);
                    assert(self.wf_pair_at(lv.pos_lit()));
                    assert(m.var_idx() == self.next_var_of(j));
                    assert(m.var_idx() < nv);
                    assert(r.spec_next(l) == m);
                    assert(r.spec_prev(m) == self.spec_prev(m));
                    assert(r.spec_next(l.negate_spec()) == self.spec_next(l.negate_spec()));
                }
                assert forall|v0: int| 0 <= v0 < r.num_var
                    implies ((#[trigger] r.is_latch@[v0]) <==> r.latchs@.contains(
                        Var(v0 as u32))) by {
                    assert(r.is_latch@[v0] == self.is_latch@[v0]);
                }
                assert forall|x: int| 0 <= x < n && keep@[x] implies x < nv by {}
                assert forall|i: int| 0 <= i < r.latchs@.len()
                    implies 1 <= (#[trigger] r.latchs@[i]).0 < r.num_var by {
                    assert(keep@[self.latchs@[i].idx()]);
                }
                assert forall|i: int| 0 <= i < r.inputs@.len()
                    implies 1 <= (#[trigger] r.inputs@[i]).0 < r.num_var by {
                    assert(keep@[self.inputs@[i].idx()]);
                }
                assert forall|x: int| 0 <= x < r.trans@.len()
                    implies r.clause_in_domain((#[trigger] r.trans@[x])@) by {
                    assert forall|y: int| 0 <= y < r.trans@[x]@.len()
                        implies (#[trigger] r.trans@[x]@[y]).var_idx() < r.num_var by {
                        assert(keep@[clauses@[x]@[y].var_idx()]);
                    }
                }
                assert forall|k: int| 0 <= k < r.init@.len()
                    implies (#[trigger] r.init@[k]).var_idx() < r.num_var by {
                    let l = self.init@[k];
                    assert(self.is_latch@[l.var_idx()]);
                    assert(self.latchs@.contains(Var(l.var_idx() as u32)));
                    let j = choose|j: int|
                        0 <= j < self.latchs@.len()
                            && self.latchs@[j] == Var(l.var_idx() as u32);
                    assert(keep@[self.latchs@[j].idx()]);
                }
                assert forall|i: int| 0 <= i < r.constraints@.len()
                    implies (#[trigger] r.constraints@[i]).var_idx() < r.num_var by {
                    if assert_constrain {
                        assert((clauses@[base_len + i])@ =~= seq![self.constraints@[i]]);
                        assert(keep@[clauses@[base_len + i]@[0].var_idx()]);
                    } else {
                        assert(keep@[self.constraints@[i].var_idx()]);
                    }
                }
                assert(r.wf_init()) by {
                    assert forall|v0: int|
                        0 <= v0 < r.num_var && (#[trigger] r.init_map@[v0]) is Some
                        implies r.is_latch@[v0]
                            && exists|k0: int| 0 <= k0 < r.init@.len()
                                && (#[trigger] r.init@[k0]).var_idx() == v0 by {
                        assert(self.init_map@[v0] is Some);
                        let k0 = choose|k0: int|
                            0 <= k0 < self.init@.len()
                                && (#[trigger] self.init@[k0]).var_idx() == v0;
                        assert(r.init@[k0].var_idx() == v0);
                    }
                }
            }
            r
        }
}

} // verus!
