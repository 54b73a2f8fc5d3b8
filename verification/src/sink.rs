use vstd::prelude::*;
use crate::types::{Clause, Cnf, Lit, Var, VAR_LIMIT};
use crate::transys::Transys;
use crate::simp::take_prefix;

verus! {

/// The loadable form of a SAT query: a variable count and a clause set.
/// The library fills it; an embedder replays it, clause by clause, into
/// whatever incremental solver it couples in.
pub struct SatInstance {
    /// The number of allocated solver variables.
    pub num_var: usize,
    /// The clauses asserted so far, in order.
    pub clauses: Cnf,
}

impl SatInstance {
    /// An empty instance: no variables, no clauses.
    pub fn new() -> (r: SatInstance)
        ensures
            r.num_var == 0,
            r.clauses@.len() == 0,
    {
        SatInstance { num_var: 0, clauses: Vec::new() }
    }

    /// Allocate the next variable.
    pub fn new_var(&mut self) -> (r: Var)
        requires
            old(self).num_var < VAR_LIMIT,
        ensures
            final(self).num_var == old(self).num_var + 1,
            final(self).clauses == old(self).clauses,
            r == Var(old(self).num_var as u32),
    {
        let r = Var(self.num_var as u32);
        self.num_var = self.num_var + 1;
        r
    }

    /// Assert one clause.
    pub fn add_clause(&mut self, clause: Clause)
        ensures
            final(self).num_var == old(self).num_var,
            final(self).clauses@ == old(self).clauses@.push(clause),
    {
        self.clauses.push(clause);
    }
}

impl Transys {
    /// Extend the instance's variable count to cover the domain, then
    /// assert every transition clause, in order.
    pub fn load_trans(&self, solver: &mut SatInstance)
        requires
            self.wf(),
            old(solver).num_var <= VAR_LIMIT,
        ensures
            final(solver).num_var == if old(solver).num_var < self.num_var {
                self.num_var as int
            } else {
                old(solver).num_var as int
            },
            final(solver).clauses@.len() == old(solver).clauses@.len() + self.trans@.len(),
            forall|i: int| 0 <= i < old(solver).clauses@.len()
                ==> (#[trigger] final(solver).clauses@[i]) == old(solver).clauses@[i],
            forall|i: int| 0 <= i < self.trans@.len()
                ==> (#[trigger] final(solver).clauses@[old(solver).clauses@.len() + i])@
                    == self.trans@[i]@,
    {
        while solver.num_var < self.num_var
            invariant
                self.wf(),
                solver.num_var <= VAR_LIMIT,
                solver.clauses == old(solver).clauses,
                old(solver).num_var < self.num_var ==> solver.num_var <= self.num_var,
                old(solver).num_var >= self.num_var ==> solver.num_var == old(solver).num_var,
            decreases self.num_var - solver.num_var,
        {
            solver.new_var();
        }
        let mut i: usize = 0;
        while i < self.trans.len()
            invariant
                self.wf(),
                i <= self.trans@.len(),
                solver.num_var == if old(solver).num_var < self.num_var {
                    self.num_var as int
                } else {
                    old(solver).num_var as int
                },
                solver.clauses@.len() == old(solver).clauses@.len() + i,
                forall|x: int| 0 <= x < old(solver).clauses@.len()
                    ==> (#[trigger] solver.clauses@[x]) == old(solver).clauses@[x],
                forall|x: int| 0 <= x < i
                    ==> (#[trigger] solver.clauses@[old(solver).clauses@.len() + x])@
                        == self.trans@[x]@,
            decreases self.trans@.len() - i,
        {
            let cl = take_prefix(&self.trans[i], self.trans[i].len());
            proof {
                assert(cl@ =~= self.trans@[i as int]@);
            }
            solver.add_clause(cl);
            i = i + 1;
        }
    }

    /// Extend the instance's variable count to cover the domain, then
    /// assert each initial-state literal as a unit clause, in order.
    pub fn load_init(&self, solver: &mut SatInstance)
        requires
            self.wf(),
            old(solver).num_var <= VAR_LIMIT,
        ensures
            final(solver).num_var == if old(solver).num_var < self.num_var {
                self.num_var as int
            } else {
                old(solver).num_var as int
            },
            final(solver).clauses@.len() == old(solver).clauses@.len() + self.init@.len(),
            forall|i: int| 0 <= i < old(solver).clauses@.len()
                ==> (#[trigger] final(solver).clauses@[i]) == old(solver).clauses@[i],
            forall|i: int| 0 <= i < self.init@.len()
                ==> (#[trigger] final(solver).clauses@[old(solver).clauses@.len() + i])@
                    =~= seq![self.init@[i]],
    {
        while solver.num_var < self.num_var
            invariant
                self.wf(),
                solver.num_var <= VAR_LIMIT,
                solver.clauses == old(solver).clauses,
                old(solver).num_var < self.num_var ==> solver.num_var <= self.num_var,
                old(solver).num_var >= self.num_var ==> solver.num_var == old(solver).num_var,
            decreases self.num_var - solver.num_var,
        {
            solver.new_var();
        }
        let mut i: usize = 0;
        while i < self.init.len()
            invariant
                self.wf(),
                i <= self.init@.len(),
                solver.num_var == if old(solver).num_var < self.num_var {
                    self.num_var as int
                } else {
                    old(solver).num_var as int
                },
                solver.clauses@.len() == old(solver).clauses@.len() + i,
                forall|x: int| 0 <= x < old(solver).clauses@.len()
                    ==> (#[trigger] solver.clauses@[x]) == old(solver).clauses@[x],
                forall|x: int| 0 <= x < i
                    ==> (#[trigger] solver.clauses@[old(solver).clauses@.len() + x])@
                        =~= seq![self.init@[x]],
            decreases self.init@.len() - i,
        {
            let mut cl: Clause = Vec::new();
            cl.push(self.init[i]);
            solver.add_clause(cl);
            i = i + 1;
        }
    }
}

} // verus!
