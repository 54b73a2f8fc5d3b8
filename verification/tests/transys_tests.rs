use transys::{Circuit, CircuitLatch, Lit, SatInstance, Transys, Var};

fn xor_circuit() -> Circuit {
    // Nodes: 0 constant, 1 input, 2 latch, and the XOR of 1 and 2 built
    // from three AND gates: 3 = 1 & !2, 4 = !1 & 2, 5 = !3 & !4; the
    // latch's next-state function is !5, the bad literal is the latch.
    let i = Var(1);
    let l = Var(2);
    Circuit {
        nodes: vec![
            None,
            None,
            None,
            Some((Lit::new(i, true), Lit::new(l, false))),
            Some((Lit::new(i, false), Lit::new(l, true))),
            Some((Lit::new(Var(3), false), Lit::new(Var(4), false))),
        ],
        inputs: vec![i],
        latchs: vec![CircuitLatch {
            input: l,
            next: Lit::new(Var(5), false),
            init: Some(false),
            group: None,
        }],
        constraints: vec![],
        outputs: vec![],
        bads: vec![Lit::new(l, true)],
    }
}

#[test]
fn lit_encoding_round_trip() {
    let v = Var(7);
    let p = Lit::new(v, true);
    let n = Lit::new(v, false);
    assert_eq!(p.var(), v);
    assert_eq!(n.var(), v);
    assert!(p.polarity());
    assert!(!n.polarity());
    assert_eq!(p.negate(), n);
    assert_eq!(n.negate(), p);
    assert_eq!(v.lit(), p);
}

#[test]
fn xor_scenario_builds_compact_system() {
    let t = Transys::from_aig(&xor_circuit());
    // Everything is in the cone, so all six nodes plus one prime survive.
    assert_eq!(t.num_var, 7);
    assert_eq!(t.inputs.len(), 1);
    assert_eq!(t.latchs.len(), 1);
    // One forced-false unit, three AND gates of three clauses each, and
    // two prime-equivalence clauses.
    assert_eq!(t.trans.len(), 12);
    assert_eq!(t.trans[0], vec![Lit::new(Var(0), false)]);
}

#[test]
fn xor_scenario_init_cube() {
    let t = Transys::from_aig(&xor_circuit());
    let latch = t.latchs[0];
    // The latch starts false, so init holds exactly its negative literal.
    assert_eq!(t.init.len(), 1);
    assert_eq!(t.init[0], Lit::new(latch, false));
    assert_eq!(t.init_map[latch.0 as usize], Some(false));
}

#[test]
fn xor_scenario_subsume_init() {
    let t = Transys::from_aig(&xor_circuit());
    let latch = t.latchs[0];
    assert!(!t.cube_subsume_init(&[Lit::new(latch, true)]));
    assert!(t.cube_subsume_init(&[Lit::new(latch, false)]));
}

#[test]
fn xor_scenario_next_prev() {
    let t = Transys::from_aig(&xor_circuit());
    let latch = t.latchs[0];
    let ll = latch.lit();
    let pn = t.lit_next(ll);
    // The prime is a distinct, positive literal.
    assert_ne!(pn.var(), latch);
    assert!(pn.polarity());
    assert_eq!(t.lit_prev(pn), ll);
    assert_eq!(t.lit_next(ll.negate()), pn.negate());
    assert_eq!(t.lit_prev(pn.negate()), ll.negate());
    // The prime-equivalence clauses wire the prime to the XOR output.
    let equiv_a = vec![pn.negate(), Lit::new(Var(5), false)];
    let equiv_b = vec![pn, Lit::new(Var(5), true)];
    assert!(t.trans.contains(&equiv_a));
    assert!(t.trans.contains(&equiv_b));
}

#[test]
fn xor_scenario_bad_literal() {
    let t = Transys::from_aig(&xor_circuit());
    let latch = t.latchs[0];
    assert_eq!(t.bad, Lit::new(latch, true));
    assert!(t.is_latch(latch));
    assert!(!t.is_latch(t.inputs[0]));
}

#[test]
fn xor_scenario_xor_gate_clauses() {
    let t = Transys::from_aig(&xor_circuit());
    // Node identifiers are unchanged here (every node is kept), so the
    // first AND gate 3 = 1 & !2 contributes its three defining clauses.
    let n3 = Var(3);
    let a = Lit::new(Var(1), true);
    let b = Lit::new(Var(2), false);
    assert!(t.trans.contains(&vec![Lit::new(n3, false), a]));
    assert!(t.trans.contains(&vec![Lit::new(n3, false), b]));
    assert!(t.trans.contains(&vec![Lit::new(n3, true), a.negate(), b.negate()]));
}

#[test]
fn cube_next_maps_elementwise() {
    let t = Transys::from_aig(&xor_circuit());
    let latch = t.latchs[0];
    let ll = latch.lit();
    let pn = t.lit_next(ll);
    let c = t.cube_next(&[ll, ll.negate()]);
    assert_eq!(c, vec![pn, pn.negate()]);
}

#[test]
fn inits_blocks_undetermined_states() {
    let t = Transys::from_aig(&xor_circuit());
    let latch = t.latchs[0];
    // The latch starts false; the blocking cube holds its positive literal.
    let cubes = t.inits();
    assert_eq!(cubes, vec![vec![Lit::new(latch, true)]]);
}

#[test]
fn coi_follows_dependency_edges() {
    let t = Transys::from_aig(&xor_circuit());
    let latch = t.latchs[0];
    let prime = t.lit_next(latch.lit()).var();
    // From the prime, the cone reaches the XOR logic, the input and the latch.
    let coi = t.get_coi(&[prime]);
    assert_eq!(coi, vec![Var(1), Var(2), Var(3), Var(4), Var(5), prime]);
    // The input has no dependencies.
    let coi_in = t.get_coi(&[t.inputs[0]]);
    assert_eq!(coi_in, vec![t.inputs[0]]);
}

#[test]
fn coi_of_bad_var_reaches_nothing_new() {
    let t = Transys::from_aig(&xor_circuit());
    let latch = t.latchs[0];
    // The latch itself is a leaf of the dependency graph.
    assert_eq!(t.get_coi(&[latch]), vec![latch]);
}

#[test]
fn subsume_init_ignores_non_latch_vars() {
    let t = Transys::from_aig(&xor_circuit());
    // An input variable is unconstrained at init and never blocks.
    let inp = t.inputs[0];
    assert!(t.cube_subsume_init(&[Lit::new(inp, true)]));
    assert!(t.cube_subsume_init(&[Lit::new(inp, false)]));
    assert!(t.cube_subsume_init(&[]));
}

#[test]
fn add_latch_wires_everything() {
    let mut t = Transys::from_aig(&xor_circuit());
    let s = t.new_var();
    let n = t.new_var();
    let nl = n.lit();
    let cls = vec![vec![nl.negate(), s.lit()], vec![nl, s.lit().negate()]];
    t.add_latch(s, nl, Some(true), cls, vec![], vec![Var(1)]);
    assert!(t.is_latch(s));
    assert_eq!(t.lit_next(s.lit()), nl);
    assert_eq!(t.lit_next(s.lit().negate()), nl.negate());
    assert_eq!(t.lit_prev(nl), s.lit());
    assert!(t.init.contains(&Lit::new(s, true)));
    assert_eq!(t.init_map[s.0 as usize], Some(true));
    assert_eq!(t.max_latch, s);
    assert_eq!(t.latchs.len(), 2);
    assert!(!t.cube_subsume_init(&[Lit::new(s, false)]));
    assert!(t.cube_subsume_init(&[Lit::new(s, true)]));
}

#[test]
fn simplify_appends_lemmas_and_keeps_roles() {
    let t = Transys::from_aig(&xor_circuit());
    let latch = t.latchs[0];
    let lemma = vec![Lit::new(latch, false), Lit::new(Var(1), true)];
    let t2 = t.simplify(&[lemma.clone()], true, false);
    assert_eq!(t2.trans.len(), t.trans.len() + 1);
    assert_eq!(t2.trans[t2.trans.len() - 1], lemma);
    assert_eq!(t2.latchs, t.latchs);
    assert_eq!(t2.init, t.init);
    assert_eq!(t2.bad, t.bad);
    assert_eq!(t2.num_var, t.num_var);
    assert_eq!(t2.lit_next(latch.lit()), t.lit_next(latch.lit()));
}

#[test]
fn load_trans_and_init_replay_clauses() {
    let t = Transys::from_aig(&xor_circuit());
    let mut inst = SatInstance::new();
    t.load_trans(&mut inst);
    assert_eq!(inst.num_var, t.num_var);
    assert_eq!(inst.clauses, t.trans);
    t.load_init(&mut inst);
    assert_eq!(inst.clauses.len(), t.trans.len() + t.init.len());
    assert_eq!(inst.clauses[inst.clauses.len() - 1], vec![t.init[0]]);
}

#[test]
fn latch_groups_keep_tags() {
    let mut c = xor_circuit();
    c.latchs[0].group = Some(9);
    let t = Transys::from_aig(&c);
    assert_eq!(t.latch_group[t.latchs[0].0 as usize], 9);
}

#[test]
fn insert_sorted_keeps_order_and_dedups() {
    let mut v = vec![Var(1), Var(3)];
    transys::insert_sorted(&mut v, Var(2));
    transys::insert_sorted(&mut v, Var(3));
    assert_eq!(v, vec![Var(1), Var(2), Var(3)]);
}

#[test]
fn compress_deps_splices_through_eliminated_vars() {
    let deps = vec![vec![], vec![], vec![Var(0)], vec![Var(2), Var(1)]];
    let domain = vec![true, true, false, true];
    let r = transys::compress_deps(deps, &domain);
    assert_eq!(r, vec![vec![], vec![], vec![], vec![Var(0), Var(1)]]);
}

#[test]
fn mark_closure_is_closed_under_edges() {
    let deps = vec![vec![], vec![Var(0)], vec![Var(1)], vec![]];
    let marked = transys::mark_closure(&deps, &vec![Var(2)]);
    assert_eq!(marked, vec![true, true, true, false]);
}

#[test]
fn constraints_are_frozen_or_asserted() {
    let mut c = xor_circuit();
    // Constrain the input to be true at every step.
    c.constraints = vec![Lit::new(Var(1), true)];
    let t = Transys::from_aig(&c);
    // The constraint enters the clause set as a unit clause.
    assert_eq!(t.trans.len(), 13);
    assert_eq!(t.constraints, vec![Lit::new(Var(1), true)]);
    assert!(t.trans.contains(&vec![Lit::new(Var(1), true)]));
    // Asserting constraints outright appends one unit per constraint.
    let t2 = t.simplify(&[], false, true);
    assert_eq!(t2.trans.len(), t.trans.len() + 1);
    assert_eq!(t2.trans[t2.trans.len() - 1], vec![Lit::new(Var(1), true)]);
    // Keeping them frozen appends nothing.
    let t3 = t.simplify(&[], false, false);
    assert_eq!(t3.trans.len(), t.trans.len());
}
