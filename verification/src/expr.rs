//! The propositional-logic expression tree and its structural operations:
//! depth, variable counts, the variable-erased shape, the complexity score,
//! boolean evaluation, and the canonical printer.

use vstd::prelude::*;

verus! {

/// A propositional-logic expression: a variable, a negation, or a binary
/// connective applied to two subexpressions. Pure tree, no sharing.
#[derive(Debug, PartialEq, Eq, Hash)]
pub enum Expr {
    Var(char),
    Not(Box<Expr>),
    BinaryOp(Box<BinaryOp>),
}

/// The four binary connectives of the grammar.
#[derive(Debug, Clone, Copy, PartialEq, Eq, Hash, Structural)]
pub enum BinaryOpType {
    And,
    Or,
    Implies,
    Equivalent,
}

/// A binary node: a connective with its two operands.
#[derive(Debug, PartialEq, Eq, Hash)]
pub struct BinaryOp {
    pub ty: BinaryOpType,
    pub l: Expr,
    pub r: Expr,
}

/// An expression with every variable erased to an anonymous marker; the key
/// of the rarity histogram.
#[derive(Debug, PartialEq, Eq, Hash)]
pub enum ExprStructure {
    Var,
    Not(Box<ExprStructure>),
    BinaryOp(Box<BinaryOpStructure>),
}

/// A binary node of a shape: the connective and the two operand shapes.
#[derive(Debug, PartialEq, Eq, Hash)]
pub struct BinaryOpStructure {
    pub ty: BinaryOpType,
    pub l: ExprStructure,
    pub r: ExprStructure,
}

impl BinaryOp {
    /// Builds a binary node from a connective and two operands.
    pub fn new(ty: BinaryOpType, l: Expr, r: Expr) -> (res: Self)
        ensures
            res == (BinaryOp { ty, l, r }),
    {
        Self { ty, l, r }
    }
}

impl Expr {
    /// Nesting depth: a variable has depth 0, a negation one more than its
    /// operand, and a binary node one more than the depths of both operands
    /// added together.
    pub open spec fn spec_depth(self) -> nat
        decreases self,
    {
        match self {
            Expr::Var(_) => 0,
            Expr::Not(e) => 1 + e.spec_depth(),
            Expr::BinaryOp(b) => 1 + b.l.spec_depth() + b.r.spec_depth(),
        }
    }

    /// Number of variable leaves, counting repeats of the same symbol.
    pub open spec fn spec_var_occurrences(self) -> nat
        decreases self,
    {
        match self {
            Expr::Var(_) => 1,
            Expr::Not(e) => e.spec_var_occurrences(),
            Expr::BinaryOp(b) => b.l.spec_var_occurrences() + b.r.spec_var_occurrences(),
        }
    }

    /// The set of distinct variable symbols referenced by the expression.
    pub open spec fn spec_vars(self) -> Set<char>
        decreases self,
    {
        match self {
            Expr::Var(c) => Set::empty().insert(c),
            Expr::Not(e) => e.spec_vars(),
            Expr::BinaryOp(b) => b.l.spec_vars().union(b.r.spec_vars()),
        }
    }

    /// The complexity score: variable occurrences plus twice the depth.
    pub open spec fn spec_complexity(self) -> nat {
        self.spec_var_occurrences() + 2 * self.spec_depth()
    }

    /// Nesting height: the longest path from the root to a leaf. This is
    /// the measure the generator bounds; `spec_depth` adds the two operand
    /// depths of a binary node instead of taking their maximum.
    pub open spec fn spec_height(self) -> nat
        decreases self,
    {
        match self {
            Expr::Var(_) => 0,
            Expr::Not(e) => 1 + e.spec_height(),
            Expr::BinaryOp(b) => 1 + if b.l.spec_height() >= b.r.spec_height() {
                b.l.spec_height()
            } else {
                b.r.spec_height()
            },
        }
    }

    /// The shape of the expression: operators and topology with variable
    /// identities erased.
    pub open spec fn spec_structure(self) -> ExprStructure
        decreases self,
    {
        match self {
            Expr::Var(_) => ExprStructure::Var,
            Expr::Not(e) => ExprStructure::Not(Box::new(e.spec_structure())),
            Expr::BinaryOp(b) => ExprStructure::BinaryOp(
                Box::new(
                    BinaryOpStructure {
                        ty: b.ty,
                        l: b.l.spec_structure(),
                        r: b.r.spec_structure(),
                    },
                ),
            ),
        }
    }

    pub fn depth(&self) -> (res: usize)
        requires
            self.spec_depth() <= usize::MAX,
        ensures
            res == self.spec_depth(),
        decreases *self,
    {
        match self {
            Expr::Var(_) => 0,
            Expr::Not(e) => 1 + e.depth(),
            Expr::BinaryOp(b) => 1 + b.l.depth() + b.r.depth(),
        }
    }

    pub fn num_variables(&self) -> (res: usize)
        requires
            self.spec_var_occurrences() <= usize::MAX,
        ensures
            res == self.spec_var_occurrences(),
        decreases *self,
    {
        match self {
            Expr::Var(_) => 1,
            Expr::Not(e) => e.num_variables(),
            Expr::BinaryOp(b) => b.l.num_variables() + b.r.num_variables(),
        }
    }

    pub fn complexity(&self) -> (res: usize)
        requires
            self.spec_complexity() <= usize::MAX,
        ensures
            res == self.spec_complexity(),
    {
        self.num_variables() + self.depth() * 2
    }

    pub fn to_structure(&self) -> (res: ExprStructure)
        ensures
            res == self.spec_structure(),
        decreases *self,
    {
        match self {
            Expr::Var(_) => ExprStructure::Var,
            Expr::Not(e) => ExprStructure::Not(Box::new(e.to_structure())),
            Expr::BinaryOp(b) => ExprStructure::BinaryOp(
                Box::new(
                    BinaryOpStructure { ty: b.ty, l: b.l.to_structure(), r: b.r.to_structure() },
                ),
            ),
        }
    }
}

/// The set of variables of an expression is finite.
pub proof fn lemma_vars_finite(e: Expr)
    ensures
        e.spec_vars().finite(),
    decreases e,
{
    match e {
        Expr::Var(_) => {},
        Expr::Not(inner) => {
            lemma_vars_finite(*inner);
        },
        Expr::BinaryOp(b) => {
            lemma_vars_finite(b.l);
            lemma_vars_finite(b.r);
        },
    }
}

/// A tree of height `h` has at most `2^h` variable occurrences and at most
/// `2^h - 1` nodes counted by `spec_depth`, so the complexity score of a
/// height-bounded tree fits in a machine word.
pub proof fn lemma_size_bounds(e: Expr)
    ensures
        e.spec_var_occurrences() <= vstd::arithmetic::power2::pow2(e.spec_height()),
        e.spec_depth() + 1 <= vstd::arithmetic::power2::pow2(e.spec_height()),
    decreases e,
{
    vstd::arithmetic::power2::lemma_pow2_pos(e.spec_height());
    match e {
        Expr::Var(_) => {
            lemma_pow2_zero();
        },
        Expr::Not(inner) => {
            lemma_size_bounds(*inner);
            lemma_pow2_step(inner.spec_height());
        },
        Expr::BinaryOp(b) => {
            lemma_size_bounds(b.l);
            lemma_size_bounds(b.r);
            let hl = b.l.spec_height();
            let hr = b.r.spec_height();
            let h = if hl >= hr {
                hl
            } else {
                hr
            };
            lemma_pow2_le(hl, h);
            lemma_pow2_le(hr, h);
            lemma_pow2_step(h);
        },
    }
}

/// A tree whose height stays within a small budget has a complexity score
/// that fits a machine word on any platform.
pub proof fn lemma_complexity_bounded(e: Expr, h: nat)
    requires
        e.spec_height() <= h,
        h <= 30,
    ensures
        e.spec_complexity() <= usize::MAX,
{
    lemma_size_bounds(e);
    lemma_pow2_le(e.spec_height(), 30);
    vstd::arithmetic::power2::lemma2_to64();
    assert(usize::MAX >= 0xffff_ffff);
}

/// Doubling: `2^(h + 1) == 2 * 2^h`.
proof fn lemma_pow2_step(h: nat)
    ensures
        vstd::arithmetic::power2::pow2(h + 1) == 2 * vstd::arithmetic::power2::pow2(h),
{
    vstd::arithmetic::power2::lemma_pow2_adds(h, 1);
    assert(vstd::arithmetic::power2::pow2(1) == 2) by {
        vstd::arithmetic::power2::lemma2_to64();
    }
}

/// The base case: `2^0 == 1`.
proof fn lemma_pow2_zero()
    ensures
        vstd::arithmetic::power2::pow2(0) == 1,
{
    vstd::arithmetic::power2::lemma2_to64();
}

/// Monotonicity: `h1 <= h2` implies `2^h1 <= 2^h2`.
proof fn lemma_pow2_le(h1: nat, h2: nat)
    requires
        h1 <= h2,
    ensures
        vstd::arithmetic::power2::pow2(h1) <= vstd::arithmetic::power2::pow2(h2),
{
    if h1 < h2 {
        vstd::arithmetic::power2::lemma_pow2_strictly_increases(h1, h2);
    }
}

/// The fixed printed symbol of each binary connective.
pub open spec fn spec_op_char(ty: BinaryOpType) -> char {
    match ty {
        BinaryOpType::And => '∧',
        BinaryOpType::Or => '∨',
        BinaryOpType::Implies => '→',
        BinaryOpType::Equivalent => '↔',
    }
}

/// The characters accepted as variable symbols. The grammar fixes them to
/// the ASCII letters: the configured alphabets are drawn from `a..z`, and a
/// closed class keeps the parser and the round-trip theorem free of any
/// assumption about Unicode letter tables.
pub open spec fn spec_is_letter(c: char) -> bool {
    ('a' as u32 <= c as u32 && c as u32 <= 'z' as u32) || ('A' as u32 <= c as u32 && c as u32
        <= 'Z' as u32)
}

impl Expr {
    /// An expression is printable exactly when every variable symbol is a
    /// letter, so that the parser can recognize it again.
    pub open spec fn spec_valid(self) -> bool
        decreases self,
    {
        match self {
            Expr::Var(c) => spec_is_letter(c),
            Expr::Not(e) => e.spec_valid(),
            Expr::BinaryOp(b) => b.l.spec_valid() && b.r.spec_valid(),
        }
    }

    /// The canonical text of an expression: a variable prints as its symbol,
    /// a negation as the prefix sign before its operand, and every binary
    /// node fully parenthesized with the connective between its operands.
    pub open spec fn spec_print(self) -> Seq<char>
        decreases self,
    {
        match self {
            Expr::Var(c) => seq![c],
            Expr::Not(e) => seq!['¬'] + e.spec_print(),
            Expr::BinaryOp(b) => seq!['('] + b.l.spec_print() + seq![' ', spec_op_char(b.ty), ' ']
                + b.r.spec_print() + seq![')'],
        }
    }

    /// Serializes the expression to its canonical text.
    pub fn to_text(&self) -> (res: String)
        ensures
            res@ == self.spec_print(),
    {
        let mut out: Vec<char> = Vec::new();
        self.push_print(&mut out);
        string_from_chars(&out)
    }

    /// Evaluates the expression under an assignment that covers its
    /// variables.
    pub fn evaluate(&self, state: &[(char, bool)]) -> (res: bool)
        requires
            crate::eval::spec_covers(state@, *self),
        ensures
            res == crate::eval::spec_evaluate(*self, state@),
    {
        crate::eval::evaluate(self, state)
    }

    /// Appends the canonical text of the expression to `out`.
    pub fn push_print(&self, out: &mut Vec<char>)
        ensures
            final(out)@ == old(out)@ + self.spec_print(),
        decreases *self,
    {
        match self {
            Expr::Var(c) => {
                out.push(*c);
            },
            Expr::Not(e) => {
                out.push('¬');
                e.push_print(out);
            },
            Expr::BinaryOp(b) => {
                out.push('(');
                b.l.push_print(out);
                out.push(' ');
                out.push(op_char(b.ty));
                out.push(' ');
                b.r.push_print(out);
                out.push(')');
            },
        }
        proof {
            assert(out@ =~= old(out)@ + self.spec_print());
        }
    }
}

/// The printed symbol of a binary connective.
pub fn op_char(ty: BinaryOpType) -> (res: char)
    ensures
        res == spec_op_char(ty),
{
    match ty {
        BinaryOpType::And => '∧',
        BinaryOpType::Or => '∨',
        BinaryOpType::Implies => '→',
        BinaryOpType::Equivalent => '↔',
    }
}

/// Relies on `String: FromIterator<&char>`: collecting characters yields the
/// string of exactly those characters in order.
#[verifier::external_body]
pub fn string_from_chars(chars: &Vec<char>) -> (res: String)
    ensures
        res@ == chars@,
{
    chars.iter().collect()
}

} // verus!
