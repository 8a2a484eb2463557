//! Boolean evaluation of an expression under a variable assignment.

use vstd::prelude::*;

use crate::expr::{BinaryOpType, Expr};

verus! {

/// The value of variable `c` in an assignment, taking the first pair whose
/// symbol matches.
pub open spec fn spec_lookup(state: Seq<(char, bool)>, c: char) -> bool
    decreases state.len(),
{
    if state.len() == 0 {
        false
    } else if state[0].0 == c {
        state[0].1
    } else {
        spec_lookup(state.drop_first(), c)
    }
}

/// Whether the assignment holds a value for variable `c`.
pub open spec fn spec_has_var(state: Seq<(char, bool)>, c: char) -> bool {
    exists|i: int| 0 <= i < state.len() && state[i].0 == c
}

/// Whether the assignment covers every variable referenced by the expression.
pub open spec fn spec_covers(state: Seq<(char, bool)>, e: Expr) -> bool {
    forall|c: char| e.spec_vars().contains(c) ==> spec_has_var(state, c)
}

/// The truth value of an expression under an assignment: And and Or are
/// conjunction and disjunction, Implies(l, r) is `!l || r`, Equivalent(l, r)
/// is `l == r`, and Not negates its operand.
pub open spec fn spec_evaluate(e: Expr, state: Seq<(char, bool)>) -> bool
    decreases e,
{
    match e {
        Expr::Var(c) => spec_lookup(state, c),
        Expr::Not(inner) => !spec_evaluate(*inner, state),
        Expr::BinaryOp(b) => {
            let l = spec_evaluate(b.l, state);
            let r = spec_evaluate(b.r, state);
            match b.ty {
                BinaryOpType::And => l && r,
                BinaryOpType::Or => l || r,
                BinaryOpType::Implies => !l || r,
                BinaryOpType::Equivalent => l == r,
            }
        },
    }
}

proof fn lemma_lookup_at(s: Seq<(char, bool)>, c: char, i: int)
    requires
        0 <= i < s.len(),
        s[i].0 == c,
        forall|j: int| 0 <= j < i ==> s[j].0 != c,
    ensures
        spec_lookup(s, c) == s[i].1,
    decreases i,
{
    if i > 0 {
        lemma_lookup_at(s.drop_first(), c, i - 1);
    }
}

/// Evaluates an expression under an assignment that covers its variables.
pub fn evaluate(expr: &Expr, state: &[(char, bool)]) -> (res: bool)
    requires
        spec_covers(state@, *expr),
    ensures
        res == spec_evaluate(*expr, state@),
    decreases *expr,
{
    match expr {
        Expr::Var(c) => lookup(state, *c),
        Expr::Not(e) => !evaluate(e, state),
        Expr::BinaryOp(b) => {
            let l = evaluate(&b.l, state);
            let r = evaluate(&b.r, state);
            match b.ty {
                BinaryOpType::And => l && r,
                BinaryOpType::Or => l || r,
                BinaryOpType::Implies => !l || r,
                BinaryOpType::Equivalent => l == r,
            }
        },
    }
}

/// Finds the value of variable `c`, which the assignment must contain.
fn lookup(state: &[(char, bool)], c: char) -> (res: bool)
    requires
        spec_has_var(state@, c),
    ensures
        res == spec_lookup(state@, c),
{
    let mut i: usize = 0;
    loop
        invariant
            spec_has_var(state@, c),
            0 <= i <= state@.len(),
            forall|j: int| 0 <= j < i ==> state@[j].0 != c,
        decreases state@.len() - i,
    {
        proof {
            if i == state@.len() {
                let w = choose|w: int| 0 <= w < state@.len() && state@[w].0 == c;
                assert(state@[w].0 != c);
            }
        }
        let (v, b) = state[i];
        if v == c {
            proof {
                lemma_lookup_at(state@, c, i as int);
            }
            return b;
        }
        i = i + 1;
    }
}

} // verus!
