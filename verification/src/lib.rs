//! Transition-system representation for SAT-based model checking.
//!
//! The crate builds, simplifies and queries the canonical transition-system
//! object of a reachability engine: a structural circuit of AND gates,
//! inverters, latches and inputs is translated into a CNF transition
//! relation over a compact variable domain, together with the bookkeeping
//! every downstream algorithm relies on — the bijection between
//! current-state and next-state literals, the initial-state map, and a
//! cone-of-influence dependency graph.

use vstd::prelude::*;

mod types;
mod transys;
mod deps;
mod circuit;
mod builder;
mod simp;
mod sink;

pub use types::{Clause, Cnf, Cube, Lit, Var, VAR_LIMIT};
pub use types::lemma_lit_code;
pub use transys::{
    lemma_dependence_closure, lemma_next_prev_inverse, lemma_trans_domain_closure, Transys,
};
pub use deps::{
    compress_deps, dep_edge, deps_downward, insert_sorted, lemma_closed_contains_reachable,
    lemma_reach_step, lemma_reach_trans, outside_path, reachable, reaches, seed_set,
    strictly_sorted,
};
pub use circuit::{
    and_gate_clauses, lemma_tseitin_in_range, tseitin, tseitin_upto, Circuit, CircuitLatch,
};
pub use builder::{
    compact_map, copy_vars, kept_below, lemma_kept_below_mono, mark_closure, new_core,
    remap_clause, remap_lit,
};
pub use simp::take_prefix;
pub use sink::SatInstance;
