use vstd::prelude::*;
use crate::types::{Clause, Cnf, Lit, Var, VAR_LIMIT};
use crate::types::lemma_lit_code;

verus! {

/// One latch of a structural circuit: its state-holding variable, the
/// literal of its next-state function, its initial value (`None` when
/// unconstrained), and an optional partition tag.
pub struct CircuitLatch {
    /// The state-holding (current-state) variable.
    pub input: Var,
    /// The literal of the next-state function.
    pub next: Lit,
    /// The initial value, if determined.
    pub init: Option<bool>,
    /// The partition tag assigned by the source construct, if any.
    pub group: Option<u32>,
}

/// A structural and-inverter circuit: a node list where node `0` is the
/// constant-false node, each AND node records its two fan-in literals, and
/// inputs, latches, constraints and output/bad literals name nodes.
pub struct Circuit {
    /// Per node: `Some((fanin0, fanin1))` for an AND gate, `None` otherwise.
    pub nodes: Vec<Option<(Lit, Lit)>>,
    /// Primary input variables.
    pub inputs: Vec<Var>,
    /// The latches.
    pub latchs: Vec<CircuitLatch>,
    /// Invariant constraint literals.
    pub constraints: Vec<Lit>,
    /// Output literals.
    pub outputs: Vec<Lit>,
    /// Bad-state literals.
    pub bads: Vec<Lit>,
}

impl Circuit {
    /// The number of nodes; node identifiers are `0..num_nodes`.
    pub open spec fn num_nodes(self) -> int {
        self.nodes@.len() as int
    }

    /// Structural well-formedness: fan-ins point to strictly smaller node
    /// identifiers, node `0` is the constant node, every named node exists,
    /// latch variables are distinct, and the whole identifier budget
    /// (nodes plus one fresh prime per latch) stays representable.
    pub open spec fn wf(self) -> bool {
        &&& 1 <= self.nodes@.len()
        &&& self.nodes@.len() + self.latchs@.len() <= VAR_LIMIT
        &&& self.nodes@[0] is None
        &&& forall|v: int| 0 <= v < self.nodes@.len() ==> match #[trigger] self.nodes@[v] {
                Some(f) => f.0.var_idx() < v && f.1.var_idx() < v,
                None => true,
            }
        &&& forall|i: int| 0 <= i < self.inputs@.len()
                ==> 1 <= (#[trigger] self.inputs@[i]).0 < self.nodes@.len()
        &&& forall|i: int| 0 <= i < self.latchs@.len() ==> {
                let l = #[trigger] self.latchs@[i];
                &&& 1 <= l.input.0 < self.nodes@.len()
                &&& l.next.var_idx() < self.nodes@.len()
            }
        &&& forall|i: int, j: int| 0 <= i < j < self.latchs@.len()
                ==> self.latchs@[i].input != self.latchs@[j].input
        &&& forall|i: int| 0 <= i < self.constraints@.len()
                ==> (#[trigger] self.constraints@[i]).var_idx() < self.nodes@.len()
        &&& forall|i: int| 0 <= i < self.outputs@.len()
                ==> (#[trigger] self.outputs@[i]).var_idx() < self.nodes@.len()
        &&& forall|i: int| 0 <= i < self.bads@.len()
                ==> (#[trigger] self.bads@[i]).var_idx() < self.nodes@.len()
    }
}

/// The three defining clauses of an AND gate `v <-> f0 /\ f1`.
pub open spec fn and_gate_clauses(v: int, f0: Lit, f1: Lit) -> Seq<Seq<Lit>> {
    seq![
        seq![Lit((2 * v + 1) as u32), f0],
        seq![Lit((2 * v + 1) as u32), f1],
        seq![Lit((2 * v) as u32), f0.negate_spec(), f1.negate_spec()],
    ]
}

/// The CNF translation of the first `n` nodes: the defining clauses of
/// every AND gate among them that the cone marking selects, in node order.
pub open spec fn tseitin_upto(
    nodes: Seq<Option<(Lit, Lit)>>,
    cone: Seq<bool>,
    n: int,
) -> Seq<Seq<Lit>>
    decreases n,
{
    if n <= 0 {
        Seq::empty()
    } else {
        tseitin_upto(nodes, cone, n - 1) + (match nodes[n - 1] {
            Some(f) => if cone[n - 1] {
                and_gate_clauses(n - 1, f.0, f.1)
            } else {
                Seq::empty()
            },
            None => Seq::empty(),
        })
    }
}

/// Translate the marked cone of the circuit into CNF: exactly the three
/// defining clauses of every AND gate whose node the marking selects,
/// in ascending node order.
pub fn tseitin(c: &Circuit, cone: &Vec<bool>) -> (r: Cnf)
    requires
        c.wf(),
        cone@.len() >= c.nodes@.len(),
    ensures
        r@.map_values(|cl: Clause| cl@) == tseitin_upto(c.nodes@, cone@, c.num_nodes()),
{
    let n = c.nodes.len();
    let mut r: Cnf = Vec::new();
    let mut v: usize = 0;
    while v < n
        invariant
            c.wf(),
            cone@.len() >= c.nodes@.len(),
            n == c.nodes@.len(),
            v <= n,
            r@.map_values(|cl: Clause| cl@) == tseitin_upto(c.nodes@, cone@, v as int),
        decreases n - v,
    {
        if let Some(f) = c.nodes[v] {
            if cone[v] {
                proof {
                    lemma_lit_code(f.0);
                    lemma_lit_code(f.1);
                }
                let nv = Var(v as u32);
                let nl = Lit::new(nv, false);
                let pl = Lit::new(nv, true);
                let mut c1: Clause = Vec::new();
                c1.push(nl);
                c1.push(f.0);
                let mut c2: Clause = Vec::new();
                c2.push(nl);
                c2.push(f.1);
                let mut c3: Clause = Vec::new();
                c3.push(pl);
                c3.push(f.0.negate());
                c3.push(f.1.negate());
                let ghost pre = r@;
                r.push(c1);
                r.push(c2);
                r.push(c3);
                proof {
                    let fm = |cl: Clause| cl@;
                    assert(c1@ =~= and_gate_clauses(v as int, f.0, f.1)[0]);
                    assert(c2@ =~= and_gate_clauses(v as int, f.0, f.1)[1]);
                    assert(c3@ =~= and_gate_clauses(v as int, f.0, f.1)[2]);
                    assert(r@.map_values(fm) =~= tseitin_upto(c.nodes@, cone@, v + 1));
                }
            } else {
                proof {
                    assert(r@.map_values(|cl: Clause| cl@)
                        =~= tseitin_upto(c.nodes@, cone@, v + 1));
                }
            }
        } else {
            proof {
                assert(r@.map_values(|cl: Clause| cl@)
                    =~= tseitin_upto(c.nodes@, cone@, v + 1));
            }
        }
        v = v + 1;
    }
    r
}

/// Every clause of the translation stays within the node identifier range.
pub proof fn lemma_tseitin_in_range(
    nodes: Seq<Option<(Lit, Lit)>>,
    cone: Seq<bool>,
    n: int,
    bound: int,
)
    requires
        n <= nodes.len(),
        n <= bound,
        forall|v: int| 0 <= v < nodes.len() ==> match #[trigger] nodes[v] {
            Some(f) => f.0.var_idx() < v && f.1.var_idx() < v,
            None => true,
        },
    ensures
        forall|i: int, k: int|
            0 <= i < tseitin_upto(nodes, cone, n).len()
                && 0 <= k < tseitin_upto(nodes, cone, n)[i].len()
                ==> 0 <= (#[trigger] tseitin_upto(nodes, cone, n)[i][k]).var_idx() < bound,
    decreases n,
{
    if n > 0 {
        lemma_tseitin_in_range(nodes, cone, n - 1, bound);
        let cs = tseitin_upto(nodes, cone, n);
        let prev = tseitin_upto(nodes, cone, n - 1);
        assert forall|i: int, k: int|
            0 <= i < cs.len() && 0 <= k < cs[i].len()
            implies 0 <= (#[trigger] cs[i][k]).var_idx() < bound by {
            if i < prev.len() {
                assert(cs[i] == prev[i]);
            } else {
                if nodes[n - 1] is Some && cone[n - 1] {
                    let f = nodes[n - 1]->Some_0;
                    lemma_lit_code(f.0);
                    lemma_lit_code(f.1);
                    assert(cs[i] == and_gate_clauses(n - 1, f.0, f.1)[i - prev.len()]);
                }
            }
        }
    }
}

} // verus!
