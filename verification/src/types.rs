use vstd::prelude::*;
use vstd::arithmetic::div_mod::lemma_fundamental_div_mod;

verus! {

/// The largest variable index that still leaves every literal code
/// representable in a `u32` and every index convertible to `usize`.
pub const VAR_LIMIT: u32 = 0x4000_0000;

/// A propositional variable: a dense non-negative identifier.
/// Variable `0` is reserved for the constant-false encoding.
#[derive(Clone, Copy, PartialEq, Eq, Structural, Debug)]
pub struct Var(pub u32);

/// A literal: a variable together with a polarity, packed as
/// `2 * var + (0 if positive, 1 if negated)`.
#[derive(Clone, Copy, PartialEq, Eq, Structural, Debug)]
pub struct Lit(pub u32);

impl Var {
    /// The variable's index as a mathematical integer.
    pub open spec fn idx(self) -> int {
        self.0 as int
    }

    /// The positive literal of this variable, at the specification level.
    pub open spec fn pos_lit(self) -> Lit {
        Lit((2 * self.0) as u32)
    }

    /// The negative literal of this variable, at the specification level.
    pub open spec fn neg_lit(self) -> Lit {
        Lit((2 * self.0 + 1) as u32)
    }

    /// The positive literal of this variable.
    pub fn lit(self) -> (r: Lit)
        requires
            self.0 < VAR_LIMIT,
        ensures
            r == self.pos_lit(),
            r.var_idx() == self.idx(),
            r.polarity_spec() == true,
    {
        Lit(self.0 * 2)
    }
}

impl Lit {
    /// The index of the literal's variable.
    pub open spec fn var_idx(self) -> int {
        self.0 as int / 2
    }

    /// The literal's polarity: `true` means the positive phase.
    pub open spec fn polarity_spec(self) -> bool {
        self.0 as int % 2 == 0
    }

    /// The packed code of a variable index and a polarity.
    pub open spec fn code_of(v: int, polarity: bool) -> int {
        2 * v + if polarity { 0int } else { 1int }
    }

    /// Build the literal of `var` with the given polarity.
    pub fn new(var: Var, polarity: bool) -> (r: Lit)
        requires
            var.0 < VAR_LIMIT,
        ensures
            r.var_idx() == var.idx(),
            r.polarity_spec() == polarity,
            r == if polarity { var.pos_lit() } else { var.neg_lit() },
    {
        Lit(var.0 * 2 + if polarity { 0u32 } else { 1u32 })
    }

    /// Strip the polarity.
    pub fn var(self) -> (r: Var)
        ensures
            r.idx() == self.var_idx(),
    {
        Var(self.0 / 2)
    }

    /// Read the polarity.
    pub fn polarity(self) -> (r: bool)
        ensures
            r == self.polarity_spec(),
    {
        self.0 % 2 == 0
    }

    /// The literal of the same variable with the opposite polarity.
    pub fn negate(self) -> (r: Lit)
        requires
            self.0 < 2 * VAR_LIMIT,
        ensures
            r.var_idx() == self.var_idx(),
            r.polarity_spec() == !self.polarity_spec(),
            r.negate_spec() == self,
            r == self.negate_spec(),
    {
        if self.0 % 2 == 0 {
            Lit(self.0 + 1)
        } else {
            Lit(self.0 - 1)
        }
    }

    /// The negation at the specification level.
    pub open spec fn negate_spec(self) -> Lit {
        if self.0 as int % 2 == 0 {
            Lit((self.0 + 1) as u32)
        } else {
            Lit((self.0 - 1) as u32)
        }
    }
}

/// A literal is pinned down by its packed code.
pub proof fn lemma_lit_code(a: Lit)
    ensures
        a.0 as int == Lit::code_of(a.var_idx(), a.polarity_spec()),
{
    lemma_fundamental_div_mod(a.0 as int, 2);
}

/// A disjunction of literals, the solver's native clause form.
pub type Clause = Vec<Lit>;

/// A conjunction of literals, representing a partial assignment.
pub type Cube = Vec<Lit>;

/// A conjunction of clauses.
pub type Cnf = Vec<Clause>;

} // verus!
