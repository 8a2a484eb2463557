//! Recursive-descent parser for the canonical expression text: an expression
//! is a parenthesized binary form `(L <op> R)`, a prefixed negation, or a
//! single-letter variable. Any Unicode whitespace may appear between tokens;
//! variable symbols are ASCII letters, the closed class the grammar draws
//! its alphabets from. The parser is specified against a spec-level mirror,
//! and parsing is proved to invert printing.

use vstd::prelude::*;

use crate::expr::{spec_is_letter, BinaryOp, BinaryOpType, Expr};
use vstd::string::StrSliceExecFns;

verus! {

/// A parse failure, carrying the offending character where there is one.
#[derive(Debug, Clone, Copy, PartialEq, Eq)]
pub enum ParseError {
    /// No expression can start here: the text ended, or the character starts
    /// no production.
    ExpectedExpression { got: Option<char> },
    /// The text ended where a binary operator was expected.
    MissingOperator,
    /// The character read in operator position is not a known connective.
    UnknownOperator { got: char },
    /// A specific character was expected and another was found.
    UnexpectedChar { expected: char, got: char },
    /// A specific character was expected and the text ended.
    UnexpectedEnd { expected: char },
}

/// The characters the parser skips between tokens: the whitespace
/// characters of Unicode (the White_Space property, as the standard
/// library's whitespace test recognizes them), written out.
pub open spec fn spec_is_whitespace(c: char) -> bool {
    ||| c == '\u{0009}'
    ||| c == '\u{000A}'
    ||| c == '\u{000B}'
    ||| c == '\u{000C}'
    ||| c == '\u{000D}'
    ||| c == ' '
    ||| c == '\u{0085}'
    ||| c == '\u{00A0}'
    ||| c == '\u{1680}'
    ||| (0x2000 <= c as u32 && c as u32 <= 0x200A)
    ||| c == '\u{2028}'
    ||| c == '\u{2029}'
    ||| c == '\u{202F}'
    ||| c == '\u{205F}'
    ||| c == '\u{3000}'
}

/// The number of whitespace characters at position `pos`.
pub open spec fn spec_ws_len(s: Seq<char>, pos: nat) -> nat
    decreases s.len() - pos,
{
    if pos < s.len() && spec_is_whitespace(s[pos as int]) {
        1 + spec_ws_len(s, pos + 1)
    } else {
        0
    }
}

/// What parsing one expression at `pos` yields: the outcome together with
/// the number of characters consumed (leading whitespace included, and on
/// an error everything read up to the point where it was reported).
pub open spec fn spec_parse_expr(s: Seq<char>, pos: nat) -> (Result<Expr, ParseError>, nat)
    decreases s.len() - pos, 2int,
{
    let w = spec_ws_len(s, pos);
    let p = pos + w;
    if p >= s.len() {
        (Err(ParseError::ExpectedExpression { got: None }), w)
    } else if s[p as int] == '(' {
        let (r, n) = spec_parse_binary(s, p);
        (r, w + n)
    } else if s[p as int] == '¬' {
        let (r, n) = spec_parse_not(s, p);
        (r, w + n)
    } else if spec_is_letter(s[p as int]) {
        (Ok(Expr::Var(s[p as int])), w + 1)
    } else {
        (Err(ParseError::ExpectedExpression { got: Some(s[p as int]) }), w)
    }
}

/// What parsing a parenthesized binary form at `pos` yields, with the
/// consumed count. The operator character is read after the left operand
/// but only interpreted once the closing parenthesis has been consumed.
pub open spec fn spec_parse_binary(s: Seq<char>, pos: nat) -> (Result<Expr, ParseError>, nat)
    decreases s.len() - pos, 1int,
{
    if pos >= s.len() {
        (Err(ParseError::UnexpectedEnd { expected: '(' }), 0)
    } else if s[pos as int] != '(' {
        (Err(ParseError::UnexpectedChar { expected: '(', got: s[pos as int] }), 1)
    } else {
        let (rl, n1) = spec_parse_expr(s, pos + 1);
        match rl {
            Err(pe) => (Err(pe), 1 + n1),
            Ok(l) => {
                let w2 = spec_ws_len(s, pos + 1 + n1);
                let p2 = pos + 1 + n1 + w2;
                if p2 >= s.len() {
                    (Err(ParseError::MissingOperator), 1 + n1 + w2)
                } else {
                    let opc = s[p2 as int];
                    let (rr, n3) = spec_parse_expr(s, p2 + 1);
                    match rr {
                        Err(pe) => (Err(pe), 1 + n1 + w2 + 1 + n3),
                        Ok(r) => {
                            let w4 = spec_ws_len(s, p2 + 1 + n3);
                            let p4 = p2 + 1 + n3 + w4;
                            if p4 >= s.len() {
                                (
                                    Err(ParseError::UnexpectedEnd { expected: ')' }),
                                    1 + n1 + w2 + 1 + n3 + w4,
                                )
                            } else if s[p4 as int] != ')' {
                                (
                                    Err(
                                        ParseError::UnexpectedChar {
                                            expected: ')',
                                            got: s[p4 as int],
                                        },
                                    ),
                                    1 + n1 + w2 + 1 + n3 + w4 + 1,
                                )
                            } else if opc == '∧' {
                                (
                                    Ok(
                                        Expr::BinaryOp(
                                            Box::new(BinaryOp { ty: BinaryOpType::And, l, r }),
                                        ),
                                    ),
                                    (p4 + 1 - pos) as nat,
                                )
                            } else if opc == '∨' {
                                (
                                    Ok(
                                        Expr::BinaryOp(
                                            Box::new(BinaryOp { ty: BinaryOpType::Or, l, r }),
                                        ),
                                    ),
                                    (p4 + 1 - pos) as nat,
                                )
                            } else if opc == '→' {
                                (
                                    Ok(
                                        Expr::BinaryOp(
                                            Box::new(BinaryOp { ty: BinaryOpType::Implies, l, r }),
                                        ),
                                    ),
                                    (p4 + 1 - pos) as nat,
                                )
                            } else if opc == '↔' {
                                (
                                    Ok(
                                        Expr::BinaryOp(
                                            Box::new(
                                                BinaryOp { ty: BinaryOpType::Equivalent, l, r },
                                            ),
                                        ),
                                    ),
                                    (p4 + 1 - pos) as nat,
                                )
                            } else {
                                (
                                    Err(ParseError::UnknownOperator { got: opc }),
                                    (p4 + 1 - pos) as nat,
                                )
                            }
                        },
                    }
                }
            },
        }
    }
}

/// What parsing a prefixed negation at `pos` yields, with the consumed
/// count.
pub open spec fn spec_parse_not(s: Seq<char>, pos: nat) -> (Result<Expr, ParseError>, nat)
    decreases s.len() - pos, 0int,
{
    if pos >= s.len() {
        (Err(ParseError::UnexpectedEnd { expected: '¬' }), 0)
    } else if s[pos as int] != '¬' {
        (Err(ParseError::UnexpectedChar { expected: '¬', got: s[pos as int] }), 1)
    } else {
        let (r, n) = spec_parse_expr(s, pos + 1);
        match r {
            Ok(e) => (Ok(Expr::Not(Box::new(e))), 1 + n),
            Err(pe) => (Err(pe), 1 + n),
        }
    }
}

/// Relates one exec parsing step to its spec-level outcome `sr`: the same
/// result comes back, and the position advances by exactly the consumed
/// count, on success and on failure alike.
pub open spec fn spec_step(
    pre: Parser,
    post: Parser,
    res: Result<Expr, ParseError>,
    sr: (Result<Expr, ParseError>, nat),
) -> bool {
    res == sr.0 && post.pos == pre.pos + sr.1
}

/// Reads characters of the canonical text and rebuilds the expression.
pub struct Parser {
    pub chars: Vec<char>,
    pub pos: usize,
}

impl Parser {
    /// The position never runs past the end of the text.
    pub open spec fn wf(self) -> bool {
        self.pos <= self.chars@.len()
    }

    /// The whole text being parsed.
    pub open spec fn input(self) -> Seq<char> {
        self.chars@
    }

    /// Builds a parser over the given text, positioned at its start.
    pub fn new(input: &str) -> (res: Parser)
        ensures
            res.wf(),
            res.input() == input@,
            res.pos == 0,
    {
        let n = input.unicode_len();
        let mut chars: Vec<char> = Vec::new();
        let mut i: usize = 0;
        while i < n
            invariant
                n == input@.len(),
                i <= n,
                chars@ == input@.subrange(0, i as int),
            decreases n - i,
        {
            chars.push(input.get_char(i));
            proof {
                assert(chars@ =~= input@.subrange(0, i + 1));
            }
            i = i + 1;
        }
        proof {
            assert(chars@ =~= input@);
        }
        Parser { chars, pos: 0 }
    }

    /// Parses one expression from the current position. The result is
    /// exactly what the spec-level parser yields; in particular, parsing the
    /// canonical text of any printable expression from the start returns
    /// that expression.
    pub fn parse(&mut self) -> (res: Result<Expr, ParseError>)
        requires
            old(self).wf(),
        ensures
            final(self).wf(),
            final(self).input() == old(self).input(),
            spec_step(
                *old(self),
                *final(self),
                res,
                spec_parse_expr(old(self).input(), old(self).pos as nat),
            ),
            forall|e: Expr|
                e.spec_valid() && old(self).pos == 0 && old(self).input() == e.spec_print()
                    ==> res == Ok::<Expr, ParseError>(e),
    {
        let res = self.parse_expr();
        proof {
            assert forall|e: Expr|
                e.spec_valid() && old(self).pos == 0 && old(self).input()
                    == e.spec_print() implies res == Ok::<Expr, ParseError>(e) by {
                lemma_round_trip(e);
            }
        }
        res
    }

    fn parse_expr(&mut self) -> (res: Result<Expr, ParseError>)
        requires
            old(self).wf(),
        ensures
            final(self).wf(),
            final(self).input() == old(self).input(),
            spec_step(
                *old(self),
                *final(self),
                res,
                spec_parse_expr(old(self).input(), old(self).pos as nat),
            ),
        decreases self.chars@.len() - self.pos, 2int,
    {
        self.skip_whitespace();
        match self.peek() {
            Some(c) => {
                if c == '(' {
                    self.parse_binary()
                } else if c == '¬' {
                    self.parse_not()
                } else if is_letter(c) {
                    self.parse_var()
                } else {
                    Err(ParseError::ExpectedExpression { got: Some(c) })
                }
            },
            None => Err(ParseError::ExpectedExpression { got: None }),
        }
    }

    fn parse_binary(&mut self) -> (res: Result<Expr, ParseError>)
        requires
            old(self).wf(),
        ensures
            final(self).wf(),
            final(self).input() == old(self).input(),
            spec_step(
                *old(self),
                *final(self),
                res,
                spec_parse_binary(old(self).input(), old(self).pos as nat),
            ),
        decreases self.chars@.len() - self.pos, 1int,
    {
        match self.expect('(') {
            Err(pe) => {
                return Err(pe);
            },
            Ok(()) => {},
        }
        let left = match self.parse_expr() {
            Ok(e) => e,
            Err(pe) => {
                return Err(pe);
            },
        };
        self.skip_whitespace();
        let op = match self.next_char() {
            Some(c) => c,
            None => {
                return Err(ParseError::MissingOperator);
            },
        };
        let right = match self.parse_expr() {
            Ok(e) => e,
            Err(pe) => {
                return Err(pe);
            },
        };
        self.skip_whitespace();
        match self.expect(')') {
            Err(pe) => {
                return Err(pe);
            },
            Ok(()) => {},
        }
        let ty = if op == '∧' {
            BinaryOpType::And
        } else if op == '∨' {
            BinaryOpType::Or
        } else if op == '→' {
            BinaryOpType::Implies
        } else if op == '↔' {
            BinaryOpType::Equivalent
        } else {
            return Err(ParseError::UnknownOperator { got: op });
        };
        Ok(Expr::BinaryOp(Box::new(BinaryOp::new(ty, left, right))))
    }

    fn parse_not(&mut self) -> (res: Result<Expr, ParseError>)
        requires
            old(self).wf(),
        ensures
            final(self).wf(),
            final(self).input() == old(self).input(),
            spec_step(
                *old(self),
                *final(self),
                res,
                spec_parse_not(old(self).input(), old(self).pos as nat),
            ),
        decreases self.chars@.len() - self.pos, 0int,
    {
        match self.expect('¬') {
            Err(pe) => {
                return Err(pe);
            },
            Ok(()) => {},
        }
        match self.parse_expr() {
            Ok(e) => Ok(Expr::Not(Box::new(e))),
            Err(pe) => Err(pe),
        }
    }

    fn parse_var(&mut self) -> (res: Result<Expr, ParseError>)
        requires
            old(self).wf(),
            old(self).pos < old(self).chars@.len(),
            spec_is_letter(old(self).chars@[old(self).pos as int]),
        ensures
            final(self).wf(),
            final(self).input() == old(self).input(),
            res == Ok::<Expr, ParseError>(Expr::Var(old(self).chars@[old(self).pos as int])),
            final(self).pos == old(self).pos + 1,
    {
        match self.next_char() {
            Some(c) => Ok(Expr::Var(c)),
            None => Err(ParseError::ExpectedExpression { got: None }),
        }
    }

    fn skip_whitespace(&mut self)
        requires
            old(self).wf(),
        ensures
            final(self).wf(),
            final(self).chars == old(self).chars,
            final(self).pos == old(self).pos + spec_ws_len(old(self).chars@, old(self).pos as nat),
    {
        while self.pos < self.chars.len() && is_whitespace_char(self.chars[self.pos])
            invariant
                self.wf(),
                self.chars == old(self).chars,
                old(self).pos <= self.pos,
                spec_ws_len(self.chars@, old(self).pos as nat) == self.pos - old(self).pos
                    + spec_ws_len(self.chars@, self.pos as nat),
            decreases self.chars@.len() - self.pos,
        {
            self.pos = self.pos + 1;
        }
    }

    fn peek(&self) -> (res: Option<char>)
        requires
            self.wf(),
        ensures
            res == (if self.pos < self.chars@.len() {
                Some(self.chars@[self.pos as int])
            } else {
                None::<char>
            }),
    {
        if self.pos < self.chars.len() {
            Some(self.chars[self.pos])
        } else {
            None
        }
    }

    fn next_char(&mut self) -> (res: Option<char>)
        requires
            old(self).wf(),
        ensures
            final(self).wf(),
            final(self).chars == old(self).chars,
            old(self).pos < old(self).chars@.len() ==> res == Some(
                old(self).chars@[old(self).pos as int],
            ) && final(self).pos == old(self).pos + 1,
            old(self).pos >= old(self).chars@.len() ==> res == None::<char> && final(self).pos
                == old(self).pos,
    {
        if self.pos < self.chars.len() {
            let c = self.chars[self.pos];
            self.pos = self.pos + 1;
            Some(c)
        } else {
            None
        }
    }

    fn expect(&mut self, expected: char) -> (res: Result<(), ParseError>)
        requires
            old(self).wf(),
        ensures
            final(self).wf(),
            final(self).chars == old(self).chars,
            old(self).pos < old(self).chars@.len() ==> final(self).pos == old(self).pos + 1 && res
                == (if old(self).chars@[old(self).pos as int] == expected {
                Ok::<(), ParseError>(())
            } else {
                Err::<(), ParseError>(
                    ParseError::UnexpectedChar {
                        expected,
                        got: old(self).chars@[old(self).pos as int],
                    },
                )
            }),
            old(self).pos >= old(self).chars@.len() ==> final(self).pos == old(self).pos && res
                == Err::<(), ParseError>(ParseError::UnexpectedEnd { expected }),
    {
        match self.next_char() {
            Some(c) => {
                if c == expected {
                    Ok(())
                } else {
                    Err(ParseError::UnexpectedChar { expected, got: c })
                }
            },
            None => Err(ParseError::UnexpectedEnd { expected }),
        }
    }
}

/// Whether the character can be a variable symbol.
pub fn is_letter(c: char) -> (res: bool)
    ensures
        res == spec_is_letter(c),
{
    ('a' as u32 <= c as u32 && c as u32 <= 'z' as u32) || ('A' as u32 <= c as u32 && c as u32
        <= 'Z' as u32)
}

/// Whether the parser skips this character between tokens.
pub fn is_whitespace_char(c: char) -> (res: bool)
    ensures
        res == spec_is_whitespace(c),
{
    c == '\u{0009}' || c == '\u{000A}' || c == '\u{000B}' || c == '\u{000C}' || c == '\u{000D}'
        || c == ' ' || c == '\u{0085}' || c == '\u{00A0}' || c == '\u{1680}' || (0x2000 <= c
        as u32 && c as u32 <= 0x200A) || c == '\u{2028}' || c == '\u{2029}' || c == '\u{202F}'
        || c == '\u{205F}' || c == '\u{3000}'
}

/// The canonical text of a printable expression starts with a character that
/// identifies its production and is never whitespace.
proof fn lemma_print_first(e: Expr)
    requires
        e.spec_valid(),
    ensures
        e.spec_print().len() >= 1,
        !spec_is_whitespace(e.spec_print()[0]),
        e matches Expr::Var(c) ==> e.spec_print()[0] == c && spec_is_letter(c),
        e matches Expr::Not(_) ==> e.spec_print()[0] == '¬',
        e matches Expr::BinaryOp(_) ==> e.spec_print()[0] == '(',
{
    match e {
        Expr::Var(c) => {},
        Expr::Not(inner) => {},
        Expr::BinaryOp(b) => {},
    }
}

/// Parsing at `pos` a text whose next token run is the canonical print of a
/// printable expression yields exactly that expression, consuming the
/// leading whitespace and the printed text.
#[verifier::rlimit(100)]
#[verifier::spinoff_prover]
proof fn lemma_parse_print(s: Seq<char>, pos: nat, e: Expr)
    requires
        e.spec_valid(),
        pos + spec_ws_len(s, pos) + e.spec_print().len() <= s.len(),
        s.subrange(
            (pos + spec_ws_len(s, pos)) as int,
            (pos + spec_ws_len(s, pos) + e.spec_print().len()) as int,
        ) == e.spec_print(),
    ensures
        spec_parse_expr(s, pos) == (
            Ok::<Expr, ParseError>(e),
            (spec_ws_len(s, pos) + e.spec_print().len()) as nat,
        ),
    decreases e,
{
    let w = spec_ws_len(s, pos);
    let p = pos + w;
    let pr = e.spec_print();
    lemma_print_first(e);
    assert(s[p as int] == pr[0]);
    match e {
        Expr::Var(c) => {
            assert(!spec_is_whitespace(s[p as int]));
            assert(s[p as int] != '(' && s[p as int] != '¬');
        },
        Expr::Not(inner) => {
            let pi = (*inner).spec_print();
            assert(pr == seq!['¬'] + pi);
            assert(pr.len() == 1 + pi.len());
            assert(s[p as int] == '¬');
            assert(s[p as int + 1] == pr[1]);
            lemma_print_first(*inner);
            assert(pr[1] == pi[0]);
            assert(spec_ws_len(s, p + 1) == 0);
            assert(s.subrange((p + 1) as int, (p + 1 + pi.len()) as int) =~= pi) by {
                assert forall|i: int| 0 <= i < pi.len() implies s[p + 1 + i] == pi[i] by {
                    assert(s[p + 1 + i] == s.subrange(p as int, (p + pr.len()) as int)[1 + i]);
                    assert(pr[1 + i] == pi[i]);
                }
            }
            lemma_parse_print(s, p + 1, *inner);
            assert(spec_parse_not(s, p) == (Ok::<Expr, ParseError>(e), pr.len() as nat));
        },
        Expr::BinaryOp(b) => {
            let pl = b.l.spec_print();
            let prr = b.r.spec_print();
            let opc = crate::expr::spec_op_char(b.ty);
            assert(pr == seq!['('] + pl + seq![' ', opc, ' '] + prr + seq![')']);
            assert(pr.len() == 1 + pl.len() + 3 + prr.len() + 1);
            assert forall|i: int| 0 <= i < pr.len() implies s[p + i] == pr[i] by {
                assert(s[p + i] == s.subrange(p as int, (p + pr.len()) as int)[i]);
            }
            assert(s[p as int] == '(');
            // The left operand starts right after the opening parenthesis.
            lemma_print_first(b.l);
            assert(pr[1] == pl[0]);
            assert(spec_ws_len(s, p + 1) == 0);
            assert(s.subrange((p + 1) as int, (p + 1 + pl.len()) as int) =~= pl) by {
                assert forall|i: int| 0 <= i < pl.len() implies s[p + 1 + i] == pl[i] by {
                    assert(pr[1 + i] == pl[i]);
                }
            }
            lemma_parse_print(s, p + 1, b.l);
            let q = p + 1 + pl.len();
            // One space, then the operator character, then one more space.
            assert(s[q as int] == ' ' && s[q as int + 1] == opc && s[q as int + 2] == ' ' && s[q
                as int + 3] == prr[0]) by {
                assert(pr[1 + pl.len() as int] == ' ');
                assert(pr[2 + pl.len() as int] == opc);
                assert(pr[3 + pl.len() as int] == ' ');
                lemma_print_first(b.r);
                assert(pr[4 + pl.len() as int] == prr[0]);
            }
            assert(!spec_is_whitespace(opc));
            assert(spec_ws_len(s, q + 1) == 0);
            assert(spec_ws_len(s, q) == 1);
            // The right operand starts after the second space.
            lemma_print_first(b.r);
            assert(!spec_is_whitespace(prr[0]));
            assert(spec_ws_len(s, q + 3) == 0);
            assert(spec_ws_len(s, q + 2) == 1);
            assert(s.subrange((q + 3) as int, (q + 3 + prr.len()) as int) =~= prr) by {
                assert forall|i: int| 0 <= i < prr.len() implies s[q + 3 + i] == prr[i] by {
                    assert(pr[4 + pl.len() + i] == prr[i]);
                }
            }
            lemma_parse_print(s, q + 2, b.r);
            let p4 = q + 3 + prr.len();
            assert(s[p4 as int] == ')') by {
                assert(pr[4 + pl.len() as int + prr.len() as int] == ')');
            }
            assert(spec_ws_len(s, p4) == 0);
            assert(spec_parse_binary(s, p) == (Ok::<Expr, ParseError>(e), pr.len() as nat));
        },
    }
}

/// Round trip: parsing the canonical text of any printable expression yields
/// that expression back and consumes the whole text.
pub proof fn lemma_round_trip(e: Expr)
    requires
        e.spec_valid(),
    ensures
        spec_parse_expr(e.spec_print(), 0) == (
            Ok::<Expr, ParseError>(e),
            e.spec_print().len() as nat,
        ),
{
    let s = e.spec_print();
    lemma_print_first(e);
    assert(spec_ws_len(s, 0) == 0);
    assert(s.subrange(0, s.len() as int) =~= s);
    lemma_parse_print(s, 0, e);
}

} // verus!
