//! Weighted random synthesis of expressions, bounded by a nesting-height
//! budget and a distinct-variable budget, and random sampling of a boolean
//! assignment covering exactly the variables of an expression.

use vstd::prelude::*;

use crate::eval::spec_has_var;
use crate::expr::{spec_is_letter, BinaryOp, BinaryOpType, Expr};
use crate::rng::{
    choose_char, choose_weighted_production, coin_flip, spec_weight_sum,
};
use rand_xorshift::XorShiftRng;

verus! {

broadcast use vstd::seq_lib::group_seq_properties;

/// One synthesis choice: emit a variable leaf, negate, or combine two
/// subtrees with a binary connective.
#[derive(Debug, Clone, Copy, PartialEq, Eq, Structural)]
pub enum Production {
    Var,
    Not,
    And,
    Or,
    Implies,
    Equivalent,
}

/// Synthesizes random expressions within a height budget and a
/// distinct-variable budget.
pub struct ExprGenerator {
    pub max_depth: usize,
    pub max_vars: usize,
}

/// A usable alphabet: distinct letter symbols, enough of them to fill the
/// variable budget, and a budget of at least one variable.
pub open spec fn spec_alphabet_ok(range: Seq<char>, max_vars: usize) -> bool {
    &&& range.no_duplicates()
    &&& forall|i: int| 0 <= i < range.len() ==> spec_is_letter(range[i])
    &&& range.len() >= max_vars
    &&& max_vars >= 1
}

/// The variables drawn so far: distinct symbols of the alphabet, no more of
/// them than the budget allows.
pub open spec fn spec_vars_ok(vars: Seq<char>, range: Seq<char>, max_vars: usize) -> bool {
    &&& vars.no_duplicates()
    &&& forall|c: char| vars.contains(c) ==> range.contains(c)
    &&& vars.len() <= max_vars
}

impl ExprGenerator {
    /// Builds a generator with the given height and variable budgets.
    pub fn new(max_depth: usize, max_vars: usize) -> (res: Self)
        ensures
            res.max_depth == max_depth,
            res.max_vars == max_vars,
    {
        ExprGenerator { max_depth, max_vars }
    }

    /// Synthesizes one random expression whose height stays within the
    /// height budget, whose distinct variables stay within the variable
    /// budget and are drawn from the alphabet, and whose symbols are
    /// letters, so its printed form parses back.
    pub fn generate(&self, range: &[char], rng: &mut XorShiftRng) -> (res: Expr)
        requires
            spec_alphabet_ok(range@, self.max_vars),
        ensures
            res.spec_height() <= self.max_depth,
            res.spec_valid(),
            res.spec_vars().finite(),
            res.spec_vars().len() <= self.max_vars,
            forall|c: char| res.spec_vars().contains(c) ==> range@.contains(c),
    {
        let mut vars: Vec<char> = Vec::new();
        let res = self.generate_with_depth(0, range, &mut vars, rng);
        proof {
            crate::expr::lemma_vars_finite(res);
            vars@.unique_seq_to_set();
            let vs = vars@.to_set();
            assert(res.spec_vars() <= vs);
            vstd::set_lib::lemma_len_subset(res.spec_vars(), vs);
        }
        res
    }

    /// Synthesizes one subtree at the given nesting depth. Any variables it
    /// draws are appended to `vars`, which never exceeds the variable
    /// budget.
    fn generate_with_depth(
        &self,
        depth: usize,
        range: &[char],
        vars: &mut Vec<char>,
        rng: &mut XorShiftRng,
    ) -> (res: Expr)
        requires
            spec_alphabet_ok(range@, self.max_vars),
            spec_vars_ok(old(vars)@, range@, self.max_vars),
        ensures
            spec_vars_ok(final(vars)@, range@, self.max_vars),
            old(vars)@.is_prefix_of(final(vars)@),
            res.spec_valid(),
            forall|c: char| res.spec_vars().contains(c) ==> final(vars)@.contains(c),
            depth < self.max_depth ==> res.spec_height() + depth <= self.max_depth,
            depth >= self.max_depth ==> res.spec_height() == 0,
        decreases self.max_depth - depth,
    {
        if depth >= self.max_depth {
            let var = self.pick_variable(range, vars, rng);
            proof {
                assert(Expr::Var(var).spec_vars() =~= Set::empty().insert(var));
            }
            return Expr::Var(var);
        }
        let mut choices: Vec<(Production, u32)> = Vec::new();
        choices.push((Production::Var, 5));
        choices.push((Production::Not, 1));
        choices.push((Production::And, 1));
        choices.push((Production::Or, 1));
        choices.push((Production::Implies, 3));
        choices.push((Production::Equivalent, 1));
        let choice = match choose_weighted_production(rng, choices.as_slice()) {
            Some(p) => p,
            None => {
                proof {
                    reveal_with_fuel(spec_weight_sum, 8);
                    assert(spec_weight_sum(choices@) == 12);
                }
                Production::Var
            },
        };
        match choice {
            Production::Var => {
                let var = self.pick_variable(range, vars, rng);
                proof {
                    assert(Expr::Var(var).spec_vars() =~= Set::empty().insert(var));
                }
                Expr::Var(var)
            },
            Production::Not => {
                let inner = self.generate_with_depth(depth + 1, range, vars, rng);
                let res = Expr::Not(Box::new(inner));
                proof {
                    assert(res.spec_height() == 1 + inner.spec_height());
                    assert(res.spec_vars() =~= inner.spec_vars());
                }
                res
            },
            bop => {
                let ty = if bop == Production::And {
                    BinaryOpType::And
                } else if bop == Production::Or {
                    BinaryOpType::Or
                } else if bop == Production::Implies {
                    BinaryOpType::Implies
                } else {
                    BinaryOpType::Equivalent
                };
                let l = self.generate_with_depth(depth + 1, range, vars, rng);
                let r = self.generate_with_depth(depth + 1, range, vars, rng);
                let res = Expr::BinaryOp(Box::new(BinaryOp::new(ty, l, r)));
                proof {
                    assert(res.spec_vars() =~= l.spec_vars().union(r.spec_vars()));
                    assert(res.spec_height() == 1 + if l.spec_height() >= r.spec_height() {
                        l.spec_height()
                    } else {
                        r.spec_height()
                    });
                }
                res
            },
        }
    }

    /// Picks the symbol of one variable leaf: a fresh, previously unused
    /// symbol of the alphabet while the distinct-variable budget allows,
    /// and a uniformly chosen already-used symbol afterwards.
    fn pick_variable(&self, range: &[char], vars: &mut Vec<char>, rng: &mut XorShiftRng) -> (res:
        char)
        requires
            spec_alphabet_ok(range@, self.max_vars),
            spec_vars_ok(old(vars)@, range@, self.max_vars),
        ensures
            spec_vars_ok(final(vars)@, range@, self.max_vars),
            old(vars)@.is_prefix_of(final(vars)@),
            final(vars)@.contains(res),
    {
        if vars.len() < self.max_vars {
            let unused = unused_symbols(range, vars);
            proof {
                range@.unique_seq_to_set();
                vars@.unique_seq_to_set();
                unused@.unique_seq_to_set();
                let a = range@.to_set();
                let b = vars@.to_set();
                assert(a <= a.difference(b).union(b));
                vstd::set_lib::lemma_len_subset(a, a.difference(b).union(b));
                vstd::set_lib::lemma_len_union(a.difference(b), b);
                assert(unused@.to_set() == a.difference(b));
                assert(unused@.len() >= range@.len() - vars@.len());
            }
            match choose_char(rng, unused.as_slice()) {
                Some(c) => {
                    proof {
                        assert(unused@.contains(c));
                        assert(unused@.to_set().contains(c));
                        assert(!vars@.to_set().contains(c));
                        assert(!vars@.contains(c));
                        lemma_push_no_dup(vars@, c);
                    }
                    vars.push(c);
                    proof {
                        assert(old(vars)@.is_prefix_of(vars@)) by {
                            assert(vars@.subrange(0, old(vars)@.len() as int) =~= old(vars)@);
                        }
                    }
                    c
                },
                None => {
                    proof {
                        assert(false);
                    }
                    'a'
                },
            }
        } else {
            match choose_char(rng, vars.as_slice()) {
                Some(c) => c,
                None => {
                    proof {
                        assert(false);
                    }
                    'a'
                },
            }
        }
    }
}

/// The symbols of the alphabet not yet drawn into `vars`.
fn unused_symbols(range: &[char], vars: &Vec<char>) -> (res: Vec<char>)
    requires
        range@.no_duplicates(),
    ensures
        res@.no_duplicates(),
        res@.to_set() == range@.to_set().difference(vars@.to_set()),
        forall|i: int| 0 <= i < res@.len() ==> range@.contains(res@[i]),
{
    let mut res: Vec<char> = Vec::new();
    let mut i: usize = 0;
    while i < range.len()
        invariant
            range@.no_duplicates(),
            i <= range@.len(),
            res@.no_duplicates(),
            forall|c: char| res@.contains(c) ==> range@.take(i as int).contains(c),
            forall|j: int|
                0 <= j < i ==> (res@.contains(range@[j]) <==> !vars@.contains(range@[j])),
        decreases range@.len() - i,
    {
        let c = range[i];
        proof {
            // The symbol at a fresh position of a duplicate-free alphabet
            // has not been collected yet.
            assert(!res@.contains(c)) by {
                if res@.contains(c) {
                    assert(range@.take(i as int).contains(c));
                    let j = choose|j: int| 0 <= j < i && range@.take(i as int)[j] == c;
                    assert(range@[j] == range@[i as int]);
                }
            }
        }
        if !contains_char(vars.as_slice(), c) {
            proof {
                lemma_push_no_dup(res@, c);
            }
            res.push(c);
        }
        i = i + 1;
        proof {
            assert(forall|c2: char|
                res@.contains(c2) ==> #[trigger] range@.take(i as int).contains(c2));
            assert(forall|j: int|
                0 <= j < i ==> (res@.contains(#[trigger] range@[j]) <==> !vars@.contains(
                    range@[j],
                )));
        }
    }
    proof {
        assert(range@.take(range@.len() as int) =~= range@);
        assert forall|c: char| #[trigger] res@.contains(c) implies range@.contains(c) by {
            assert(range@.take(range@.len() as int).contains(c));
        }
        assert forall|c: char| range@.contains(c) implies (res@.contains(c) <==> !vars@.contains(
            c,
        )) by {
            let j = choose|j: int| 0 <= j < range@.len() && range@[j] == c;
            assert(res@.contains(range@[j]) <==> !vars@.contains(range@[j]));
        }
        assert(res@.to_set() =~= range@.to_set().difference(vars@.to_set()));
        assert forall|i: int| 0 <= i < res@.len() implies range@.contains(res@[i]) by {
            assert(res@.contains(res@[i]));
        }
    }
    res
}

/// Whether the slice holds the character.
fn contains_char(items: &[char], c: char) -> (res: bool)
    ensures
        res == items@.contains(c),
{
    let mut i: usize = 0;
    while i < items.len()
        invariant
            i <= items@.len(),
            forall|j: int| 0 <= j < i ==> items@[j] != c,
        decreases items@.len() - i,
    {
        if items[i] == c {
            return true;
        }
        i = i + 1;
    }
    false
}

/// The distinct variable symbols of an expression in order of first
/// occurrence, appended to those already collected: a left-to-right
/// traversal, left operand before right.
pub open spec fn spec_collect_vars(e: Expr, acc: Seq<char>) -> Seq<char>
    decreases e,
{
    match e {
        Expr::Var(c) => if acc.contains(c) {
            acc
        } else {
            acc.push(c)
        },
        Expr::Not(inner) => spec_collect_vars(*inner, acc),
        Expr::BinaryOp(b) => spec_collect_vars(b.r, spec_collect_vars(b.l, acc)),
    }
}

/// Samples a random boolean assignment covering exactly the variables of
/// the expression: every referenced variable gets exactly one value, drawn
/// by a fair coin, and no other variable appears. The variables come in
/// order of first occurrence in the expression, so the assignment text of
/// a sample is determined by the expression and the drawn values.
pub fn generate_state(expr: &Expr, rng: &mut XorShiftRng) -> (res: Vec<(char, bool)>)
    ensures
        spec_state_keys(res@).no_duplicates(),
        spec_state_keys(res@).to_set() == expr.spec_vars(),
        spec_state_keys(res@) == spec_collect_vars(*expr, Seq::empty()),
{
    let mut state: Vec<(char, bool)> = Vec::new();
    generate_state_recurse(expr, &mut state, rng);
    proof {
        assert(spec_state_keys(Seq::<(char, bool)>::empty()) =~= Seq::<char>::empty());
        assert(spec_state_keys(state@).to_set() =~= expr.spec_vars()) by {
            assert(Seq::<char>::empty().to_set() =~= Set::<char>::empty());
        }
    }
    state
}

/// The variable symbols of an assignment, in order.
pub open spec fn spec_state_keys(state: Seq<(char, bool)>) -> Seq<char> {
    state.map_values(|p: (char, bool)| p.0)
}

fn generate_state_recurse(expr: &Expr, state: &mut Vec<(char, bool)>, rng: &mut XorShiftRng)
    requires
        spec_state_keys(old(state)@).no_duplicates(),
    ensures
        spec_state_keys(final(state)@).no_duplicates(),
        old(state)@.is_prefix_of(final(state)@),
        spec_state_keys(final(state)@).to_set() == spec_state_keys(old(state)@).to_set().union(
            expr.spec_vars(),
        ),
        spec_state_keys(final(state)@) == spec_collect_vars(*expr, spec_state_keys(old(state)@)),
    decreases *expr,
{
    match expr {
        Expr::Var(v) => {
            proof {
                assert(expr.spec_vars() =~= Set::empty().insert(*v));
            }
            if !state_has_var(state.as_slice(), *v) {
                let value = coin_flip(rng);
                proof {
                    // The symbol is new, so the key sequence stays
                    // duplicate-free when it is appended.
                    assert(!spec_state_keys(state@).contains(*v)) by {
                        if spec_state_keys(state@).contains(*v) {
                            let w = choose|w: int|
                                0 <= w < spec_state_keys(state@).len() && spec_state_keys(
                                    state@,
                                )[w] == *v;
                            assert(state@[w].0 == *v);
                        }
                    }
                    lemma_push_no_dup(spec_state_keys(state@), *v);
                }
                state.push((*v, value));
                proof {
                    assert(old(state)@.is_prefix_of(state@)) by {
                        assert(state@.subrange(0, old(state)@.len() as int) =~= old(state)@);
                    }
                    assert(spec_state_keys(state@) =~= spec_state_keys(old(state)@).push(*v));
                    assert(spec_state_keys(state@).to_set() =~= spec_state_keys(
                        old(state)@,
                    ).to_set().union(expr.spec_vars()));
                    assert(spec_state_keys(state@) == spec_collect_vars(
                        *expr,
                        spec_state_keys(old(state)@),
                    ));
                }
            } else {
                proof {
                    assert(old(state)@.is_prefix_of(state@)) by {
                        assert(state@.subrange(0, old(state)@.len() as int) =~= old(state)@);
                    }
                    // The symbol is already covered, so the key set is
                    // unchanged.
                    assert(spec_state_keys(state@).contains(*v)) by {
                        let w = choose|w: int| 0 <= w < state@.len() && state@[w].0 == *v;
                        assert(spec_state_keys(state@)[w] == *v);
                    }
                    assert(spec_state_keys(state@).to_set() =~= spec_state_keys(
                        old(state)@,
                    ).to_set().union(expr.spec_vars()));
                }
            }
        },
        Expr::Not(e) => {
            generate_state_recurse(e, state, rng);
            proof {
                assert(expr.spec_vars() =~= e.spec_vars());
                assert(spec_state_keys(state@).to_set() =~= spec_state_keys(
                    old(state)@,
                ).to_set().union(expr.spec_vars()));
            }
        },
        Expr::BinaryOp(b) => {
            generate_state_recurse(&b.l, state, rng);
            generate_state_recurse(&b.r, state, rng);
            proof {
                assert(old(state)@.is_prefix_of(state@));
                assert(expr.spec_vars() =~= b.l.spec_vars().union(b.r.spec_vars()));
                assert(spec_state_keys(state@).to_set() =~= spec_state_keys(
                    old(state)@,
                ).to_set().union(expr.spec_vars()));
            }
        },
    }
}

/// An assignment whose key set is exactly the variable set of an expression
/// covers that expression, as the evaluator requires.
pub proof fn lemma_state_covers(e: Expr, s: Seq<(char, bool)>)
    requires
        spec_state_keys(s).to_set() == e.spec_vars(),
    ensures
        crate::eval::spec_covers(s, e),
{
    assert forall|c: char| e.spec_vars().contains(c) implies spec_has_var(s, c) by {
        assert(spec_state_keys(s).to_set().contains(c));
        assert(spec_state_keys(s).contains(c));
        let w = choose|w: int|
            0 <= w < spec_state_keys(s).len() && spec_state_keys(s)[w] == c;
        assert(s[w].0 == c);
    }
}

/// Appending a fresh symbol keeps a symbol sequence duplicate-free.
proof fn lemma_push_no_dup(s: Seq<char>, c: char)
    requires
        s.no_duplicates(),
        !s.contains(c),
    ensures
        s.push(c).no_duplicates(),
{
    let t = s.push(c);
    assert forall|i: int, j: int|
        0 <= i < t.len() && 0 <= j < t.len() && i != j implies t[i] != t[j] by {
        if i < s.len() && j < s.len() {
        } else if i == s.len() && j < s.len() {
            assert(s.contains(s[j]));
        } else if j == s.len() && i < s.len() {
            assert(s.contains(s[i]));
        }
    }
}

/// Whether the assignment already holds a value for the variable.
fn state_has_var(state: &[(char, bool)], c: char) -> (res: bool)
    ensures
        res == spec_has_var(state@, c),
{
    let mut i: usize = 0;
    while i < state.len()
        invariant
            i <= state@.len(),
            forall|j: int| 0 <= j < i ==> state@[j].0 != c,
        decreases state@.len() - i,
    {
        let (v, _) = state[i];
        if v == c {
            return true;
        }
        i = i + 1;
    }
    proof {
        if spec_has_var(state@, c) {
            let w = choose|w: int| 0 <= w < state@.len() && state@[w].0 == c;
            assert(state@[w].0 != c);
        }
    }
    false
}

} // verus!
