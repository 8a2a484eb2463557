//! Tokenization of the canonical row text for a downstream consumer: a
//! fixed vocabulary of structural markers, punctuation, truth values,
//! operators, and per-run variable slots. Variables are numbered in order
//! of first appearance, so two rows with the same shape share a token
//! sequence.

use vstd::prelude::*;

use crate::expr::{spec_is_letter, string_from_chars};
use crate::parser::{is_letter, is_whitespace_char, spec_is_whitespace};
use vstd::string::{StrSliceExecFns, StringExecFns};

verus! {

/// The decimal digit character of a value below ten.
pub open spec fn spec_digit_char(d: nat) -> char {
    if d == 0 {
        '0'
    } else if d == 1 {
        '1'
    } else if d == 2 {
        '2'
    } else if d == 3 {
        '3'
    } else if d == 4 {
        '4'
    } else if d == 5 {
        '5'
    } else if d == 6 {
        '6'
    } else if d == 7 {
        '7'
    } else if d == 8 {
        '8'
    } else {
        '9'
    }
}

/// The decimal digits of a number, most significant first.
pub open spec fn spec_dec_digits(n: nat) -> Seq<char>
    decreases n,
{
    if n < 10 {
        seq![spec_digit_char(n)]
    } else {
        spec_dec_digits(n / 10) + seq![spec_digit_char(n % 10)]
    }
}

/// The token text of variable slot `n`.
pub open spec fn spec_var_token(n: nat) -> Seq<char> {
    seq!['<', 'v', 'a', 'r'] + spec_dec_digits(n) + seq!['>']
}

/// The eighteen fixed tokens, in vocabulary order: structural markers,
/// punctuation, truth values, and the operators.
pub open spec fn spec_fixed_tokens() -> Seq<Seq<char>> {
    seq![
        "<pad>"@,
        "<assign>"@,
        "</assign>"@,
        "<operator_prefix>"@,
        "<value_prefix>"@,
        "["@,
        "]"@,
        ":"@,
        ","@,
        "("@,
        ")"@,
        "true"@,
        "false"@,
        "∧"@,
        "∨"@,
        "¬"@,
        "→"@,
        "↔"@,
    ]
}

/// The whole vocabulary: the fixed tokens followed by one variable slot
/// per allowed variable.
pub open spec fn spec_vocab(max_vars: nat) -> Seq<Seq<char>> {
    spec_fixed_tokens() + Seq::new(max_vars, |n: int| spec_var_token(n as nat))
}

/// Whether the character is an operator token.
pub open spec fn spec_is_op_char(c: char) -> bool {
    c == '∧' || c == '∨' || c == '¬' || c == '→' || c == '↔'
}

/// The vocabulary id of an operator character.
pub open spec fn spec_op_id(c: char) -> usize {
    if c == '∧' {
        13usize
    } else if c == '∨' {
        14usize
    } else if c == '¬' {
        15usize
    } else if c == '→' {
        16usize
    } else {
        17usize
    }
}

/// The position of the first occurrence of `c`.
pub open spec fn spec_first_index(s: Seq<char>, c: char) -> nat
    decreases s.len(),
{
    if s.len() == 0 {
        0
    } else if s[0] == c {
        0
    } else {
        1 + spec_first_index(s.drop_first(), c)
    }
}

/// The tokens emitted from position `i` to the end of the text, given the
/// variables numbered so far and the three scanner flags, with the closing
/// parenthesis appended once the text ends inside an expression; `None`
/// when the text holds an unknown character or needs more variable slots
/// than the vocabulary has.
pub open spec fn spec_encode_from(
    chars: Seq<char>,
    max_vars: nat,
    i: nat,
    vars: Seq<char>,
    in_state: bool,
    in_expr: bool,
    in_assign: bool,
) -> Option<Seq<usize>>
    decreases chars.len() - i,
{
    if i >= chars.len() {
        Some(
            if in_expr {
                seq![10usize]
            } else {
                Seq::<usize>::empty()
            },
        )
    } else if i + 4 <= chars.len() && chars[i as int] == 't' && chars[i as int + 1] == 'r' && chars[
        i as int + 2
    ] == 'u' && chars[i as int + 3] == 'e' {
        let emitted = seq![4usize, 11usize] + if in_assign {
            seq![2usize]
        } else {
            Seq::<usize>::empty()
        };
        match spec_encode_from(chars, max_vars, i + 4, vars, in_state, in_expr, false) {
            Some(rest) => Some(emitted + rest),
            None => None,
        }
    } else if i + 5 <= chars.len() && chars[i as int] == 'f' && chars[i as int + 1] == 'a' && chars[
        i as int + 2
    ] == 'l' && chars[i as int + 3] == 's' && chars[i as int + 4] == 'e' {
        let emitted = seq![4usize, 12usize] + if in_assign {
            seq![2usize]
        } else {
            Seq::<usize>::empty()
        };
        match spec_encode_from(chars, max_vars, i + 5, vars, in_state, in_expr, false) {
            Some(rest) => Some(emitted + rest),
            None => None,
        }
    } else if spec_is_op_char(chars[i as int]) {
        match spec_encode_from(chars, max_vars, i + 1, vars, in_state, in_expr, in_assign) {
            Some(rest) => Some(seq![3usize, spec_op_id(chars[i as int])] + rest),
            None => None,
        }
    } else if spec_is_whitespace(chars[i as int]) || chars[i as int] == ';' {
        spec_encode_from(chars, max_vars, i + 1, vars, in_state, in_expr, in_assign)
    } else if chars[i as int] == '[' {
        match spec_encode_from(chars, max_vars, i + 1, vars, true, in_expr, in_assign) {
            Some(rest) => Some(seq![5usize] + rest),
            None => None,
        }
    } else if chars[i as int] == ']' {
        match spec_encode_from(chars, max_vars, i + 1, vars, false, true, in_assign) {
            Some(rest) => Some(seq![6usize, 9usize] + rest),
            None => None,
        }
    } else if spec_is_letter(chars[i as int]) {
        let pre = if in_state && !in_assign {
            seq![1usize]
        } else {
            Seq::<usize>::empty()
        };
        let known = vars.contains(chars[i as int]);
        let idx = if known {
            spec_first_index(vars, chars[i as int])
        } else {
            vars.len()
        };
        let vars2 = if known {
            vars
        } else {
            vars.push(chars[i as int])
        };
        if idx >= max_vars {
            None
        } else {
            match spec_encode_from(
                chars,
                max_vars,
                i + 1,
                vars2,
                in_state,
                in_expr,
                in_state || in_assign,
            ) {
                Some(rest) => Some(pre + seq![(18 + idx) as usize] + rest),
                None => None,
            }
        }
    } else if chars[i as int] == ':' {
        match spec_encode_from(chars, max_vars, i + 1, vars, in_state, in_expr, in_assign) {
            Some(rest) => Some(seq![7usize] + rest),
            None => None,
        }
    } else if chars[i as int] == ',' {
        match spec_encode_from(chars, max_vars, i + 1, vars, in_state, in_expr, in_assign) {
            Some(rest) => Some(seq![8usize] + rest),
            None => None,
        }
    } else if chars[i as int] == '(' {
        match spec_encode_from(chars, max_vars, i + 1, vars, in_state, in_expr, in_assign) {
            Some(rest) => Some(seq![9usize] + rest),
            None => None,
        }
    } else if chars[i as int] == ')' {
        match spec_encode_from(chars, max_vars, i + 1, vars, in_state, in_expr, in_assign) {
            Some(rest) => Some(seq![10usize] + rest),
            None => None,
        }
    } else {
        None
    }
}

/// The token ids of a whole text, padded with the pad token to the fixed
/// sequence length; `None` when the text cannot be tokenized or its tokens
/// do not fit.
pub open spec fn spec_encode(chars: Seq<char>, max_vars: nat, max_seq: nat) -> Option<Seq<usize>> {
    match spec_encode_from(chars, max_vars, 0, Seq::empty(), false, false, false) {
        None => None,
        Some(core) => if core.len() <= max_seq {
            Some(core + Seq::new((max_seq - core.len()) as nat, |j: int| 0usize))
        } else {
            None
        },
    }
}

/// The texts of the tokens, joined by single spaces.
pub open spec fn spec_join_space(vocab: Seq<Seq<char>>, toks: Seq<usize>) -> Seq<char>
    decreases toks.len(),
{
    if toks.len() == 0 {
        Seq::empty()
    } else if toks.len() == 1 {
        vocab[toks[0] as int]
    } else {
        vocab[toks[0] as int] + seq![' '] + spec_join_space(vocab, toks.drop_first())
    }
}

/// The common interface of tokenizers, each with its own accepted inputs
/// and token mapping.
pub trait Tokenizer: Send + Sync {
    /// Which texts the tokenizer can encode.
    spec fn spec_accepts(&self, input: Seq<char>) -> bool;

    /// The token ids of an accepted text.
    spec fn spec_tokens(&self, input: Seq<char>) -> Seq<usize>;

    /// The text a token sequence decodes to.
    spec fn spec_text(&self, toks: Seq<usize>) -> Seq<char>;

    /// The number of tokens in the vocabulary.
    spec fn spec_vocab_size(&self) -> nat;

    /// The id of the padding token.
    spec fn spec_pad_token(&self) -> usize;

    /// The tokenizer's own well-formedness.
    spec fn spec_wf(&self) -> bool;

    /// Converts a text string into a sequence of tokens.
    fn encode(&self, value: &str) -> (res: Vec<usize>)
        requires
            self.spec_accepts(value@),
        ensures
            res@ == self.spec_tokens(value@),
    ;

    /// Converts a sequence of tokens back into a text string.
    fn decode(&self, tokens: &[usize]) -> (res: String)
        requires
            forall|k: int| 0 <= k < tokens@.len() ==> tokens@[k] < self.spec_vocab_size(),
        ensures
            res@ == self.spec_text(tokens@),
    ;

    /// Gets the size of the tokenizer's vocabulary.
    fn vocab_size(&self) -> (res: usize)
        ensures
            res == self.spec_vocab_size(),
    ;

    /// Gets the token used for padding sequences to a consistent length.
    fn pad_token(&self) -> (res: usize)
        ensures
            res == self.spec_pad_token(),
    ;

    /// Gets the string representation of the padding token.
    fn pad_token_value(&self) -> (res: String)
        requires
            self.spec_wf(),
        ensures
            res@ == self.spec_text(seq![self.spec_pad_token()]),
    ;
}

/// The tokenizer of the canonical row text.
#[derive(Debug)]
pub struct MlmlTokenizer {
    pub vocab: Vec<String>,
    pub max_seq_length: usize,
    pub max_vars: usize,
}

impl MlmlTokenizer {
    /// The vocabulary is exactly the fixed tokens plus one slot per
    /// allowed variable.
    pub open spec fn wf(self) -> bool {
        &&& self.max_vars <= usize::MAX - 18
        &&& self.vocab@.len() == 18 + self.max_vars
        &&& self.vocab@.map_values(|t: String| t@) == spec_vocab(self.max_vars as nat)
    }

    /// Builds the tokenizer for the given sequence length and variable
    /// budget.
    pub fn new(max_seq_length: usize, max_vars: usize) -> (res: MlmlTokenizer)
        requires
            max_vars <= usize::MAX - 18,
        ensures
            res.wf(),
            res.max_seq_length == max_seq_length,
            res.max_vars == max_vars,
    {
        let mut vocab: Vec<String> = Vec::new();
        vocab.push(String::from_str("<pad>"));
        vocab.push(String::from_str("<assign>"));
        vocab.push(String::from_str("</assign>"));
        vocab.push(String::from_str("<operator_prefix>"));
        vocab.push(String::from_str("<value_prefix>"));
        vocab.push(String::from_str("["));
        vocab.push(String::from_str("]"));
        vocab.push(String::from_str(":"));
        vocab.push(String::from_str(","));
        vocab.push(String::from_str("("));
        vocab.push(String::from_str(")"));
        vocab.push(String::from_str("true"));
        vocab.push(String::from_str("false"));
        vocab.push(String::from_str("∧"));
        vocab.push(String::from_str("∨"));
        vocab.push(String::from_str("¬"));
        vocab.push(String::from_str("→"));
        vocab.push(String::from_str("↔"));
        proof {
            assert(forall|j: int|
                0 <= j < 18 ==> (#[trigger] vocab@[j])@ == spec_vocab(max_vars as nat)[j]);
        }
        let mut n: usize = 0;
        while n < max_vars
            invariant
                n <= max_vars,
                max_vars <= usize::MAX - 18,
                vocab@.len() == 18 + n,
                forall|j: int|
                    0 <= j < vocab@.len() ==> (#[trigger] vocab@[j])@ == spec_vocab(
                        max_vars as nat,
                    )[j],
            decreases max_vars - n,
        {
            let mut tok: Vec<char> = Vec::new();
            tok.push('<');
            tok.push('v');
            tok.push('a');
            tok.push('r');
            push_digits(&mut tok, n);
            tok.push('>');
            proof {
                assert(tok@ =~= spec_var_token(n as nat));
            }
            vocab.push(string_from_chars(&tok));
            n = n + 1;
        }
        let res = MlmlTokenizer { vocab, max_seq_length, max_vars };
        proof {
            assert(res.vocab@.map_values(|t: String| t@) =~= spec_vocab(max_vars as nat));
        }
        res
    }
}

impl Tokenizer for MlmlTokenizer {
    /// A text is accepted when the vocabulary is well formed and the
    /// tokenization both succeeds and fits the sequence length.
    open spec fn spec_accepts(&self, input: Seq<char>) -> bool {
        self.wf() && spec_encode(input, self.max_vars as nat, self.max_seq_length as nat) is Some
    }

    open spec fn spec_tokens(&self, input: Seq<char>) -> Seq<usize> {
        spec_encode(input, self.max_vars as nat, self.max_seq_length as nat)->Some_0
    }

    open spec fn spec_text(&self, toks: Seq<usize>) -> Seq<char> {
        spec_join_space(self.vocab@.map_values(|t: String| t@), toks)
    }

    open spec fn spec_vocab_size(&self) -> nat {
        self.vocab@.len()
    }

    open spec fn spec_pad_token(&self) -> usize {
        0usize
    }

    open spec fn spec_wf(&self) -> bool {
        self.wf()
    }

    fn encode(&self, value: &str) -> (res: Vec<usize>) {
        let chars = str_chars(value);
        let ghost mv = self.max_vars as nat;
        let ghost core = spec_encode_from(chars@, mv, 0, Seq::empty(), false, false, false)->Some_0;
        let mut tokens: Vec<usize> = Vec::new();
        let mut vars: Vec<char> = Vec::new();
        let mut in_state = false;
        let mut in_expr = false;
        let mut in_assign = false;
        let mut i: usize = 0;
        while i < chars.len()
            invariant
                self.wf(),
                mv == self.max_vars as nat,
                chars@ == value@,
                i <= chars@.len(),
                spec_encode_from(chars@, mv, 0, Seq::empty(), false, false, false) is Some,
                core == spec_encode_from(chars@, mv, 0, Seq::empty(), false, false, false)->Some_0,
                spec_encode_from(chars@, mv, i as nat, vars@, in_state, in_expr, in_assign)
                    is Some,
                core == tokens@ + spec_encode_from(
                    chars@,
                    mv,
                    i as nat,
                    vars@,
                    in_state,
                    in_expr,
                    in_assign,
                )->Some_0,
            decreases chars@.len() - i,
        {
            let ghost old_tokens = tokens@;
            let ghost old_tail = spec_encode_from(
                chars@,
                mv,
                i as nat,
                vars@,
                in_state,
                in_expr,
                in_assign,
            )->Some_0;
            proof {
                assert(self.wf());
                assert(i < chars@.len());
                assert(spec_encode_from(
                    chars@,
                    self.max_vars as nat,
                    i as nat,
                    vars@,
                    in_state,
                    in_expr,
                    in_assign,
                ) is Some);
            }
            let (i2, st2, ex2, asn2) = self.scan_step(
                &chars,
                i,
                &mut tokens,
                &mut vars,
                in_state,
                in_expr,
                in_assign,
            );
            proof {
                let new_tail = spec_encode_from(chars@, mv, i2 as nat, vars@, st2, ex2, asn2);
                assert(tokens@ =~= old_tokens + tokens@.skip(old_tokens.len() as int));
                assert(tokens@ + new_tail->Some_0 =~= old_tokens + old_tail);
                assert(core =~= tokens@ + new_tail->Some_0);
            }
            i = i2;
            in_state = st2;
            in_expr = ex2;
            in_assign = asn2;
        }
        if in_expr {
            tokens.push(10);
        }
        proof {
            assert(tokens@ =~= core);
        }
        while tokens.len() < self.max_seq_length
            invariant
                self.wf(),
                core.len() <= self.max_seq_length,
                core.len() <= tokens@.len() <= self.max_seq_length,
                tokens@.take(core.len() as int) == core,
                forall|j: int| core.len() <= j < tokens@.len() ==> tokens@[j] == 0usize,
            decreases self.max_seq_length - tokens@.len(),
        {
            proof {
                assert(tokens@.push(0usize).take(core.len() as int) =~= core);
            }
            tokens.push(0);
        }
        proof {
            assert(tokens@ =~= core + Seq::new(
                (self.max_seq_length - core.len()) as nat,
                |j: int| 0usize,
            ));
        }
        tokens
    }

    fn decode(&self, tokens: &[usize]) -> (res: String) {
        let mut out = String::new();
        self.append_tokens(&mut out, tokens, 0);
        proof {
            assert(tokens@.skip(0) =~= tokens@);
        }
        out
    }

    fn vocab_size(&self) -> (res: usize) {
        self.vocab.len()
    }

    fn pad_token(&self) -> (res: usize) {
        0
    }

    fn pad_token_value(&self) -> (res: String) {
        let ids: [usize; 1] = [0];
        let out = self.decode(ids.as_slice());
        proof {
            assert(ids@ =~= seq![0usize]);
        }
        out
    }
}

impl MlmlTokenizer {
    /// One scanner step: consumes a keyword, an operator, a bracket, a
    /// punctuation character, a whitespace run of one, or a variable at
    /// position `i`, appends the tokens it emits, and returns the next
    /// position and flags.
    #[verifier::rlimit(100)]
    #[verifier::spinoff_prover]
    fn scan_step(
        &self,
        chars: &Vec<char>,
        i: usize,
        tokens: &mut Vec<usize>,
        vars: &mut Vec<char>,
        in_state: bool,
        in_expr: bool,
        in_assign: bool,
    ) -> (res: (usize, bool, bool, bool))
        requires
            self.wf(),
            i < chars@.len(),
            spec_encode_from(
                chars@,
                self.max_vars as nat,
                i as nat,
                old(vars)@,
                in_state,
                in_expr,
                in_assign,
            ) is Some,
        ensures
            ({
                let (i2, st2, ex2, asn2) = res;
                let old_tail = spec_encode_from(
                    chars@,
                    self.max_vars as nat,
                    i as nat,
                    old(vars)@,
                    in_state,
                    in_expr,
                    in_assign,
                );
                let new_tail = spec_encode_from(
                    chars@,
                    self.max_vars as nat,
                    i2 as nat,
                    final(vars)@,
                    st2,
                    ex2,
                    asn2,
                );
                &&& i < i2 <= chars@.len()
                &&& new_tail is Some
                &&& old(tokens)@.is_prefix_of(final(tokens)@)
                &&& final(tokens)@.skip(old(tokens)@.len() as int) + new_tail->Some_0
                    == old_tail->Some_0
            }),
    {
        let ghost mv = self.max_vars as nat;
        let ghost prev = tokens@;
        let c = chars[i];
        if chars.len() >= 4 && i <= chars.len() - 4 && c == 't' && chars[i + 1] == 'r' && chars[i
            + 2] == 'u' && chars[i + 3] == 'e' {
            tokens.push(4);
            tokens.push(11);
            if in_assign {
                tokens.push(2);
            }
            let res = (i + 4, in_state, in_expr, false);
            proof {
                let old_tail = spec_encode_from(
                    chars@,
                    mv,
                    i as nat,
                    old(vars)@,
                    in_state,
                    in_expr,
                    in_assign,
                );
                let new_tail = spec_encode_from(
                    chars@,
                    mv,
                    res.0 as nat,
                    vars@,
                    res.1,
                    res.2,
                    res.3,
                );
                assert(prev.is_prefix_of(tokens@)) by {
                    assert(tokens@.subrange(0, prev.len() as int) =~= prev);
                }
                assert(new_tail is Some);
                assert(tokens@.skip(prev.len() as int) + new_tail->Some_0 =~= old_tail->Some_0);
            }
            res
        } else if chars.len() >= 5 && i <= chars.len() - 5 && c == 'f' && chars[i + 1] == 'a'
            && chars[i + 2] == 'l' && chars[i + 3] == 's' && chars[i + 4] == 'e' {
            tokens.push(4);
            tokens.push(12);
            if in_assign {
                tokens.push(2);
            }
            let res = (i + 5, in_state, in_expr, false);
            proof {
                let old_tail = spec_encode_from(
                    chars@,
                    mv,
                    i as nat,
                    old(vars)@,
                    in_state,
                    in_expr,
                    in_assign,
                );
                let new_tail = spec_encode_from(
                    chars@,
                    mv,
                    res.0 as nat,
                    vars@,
                    res.1,
                    res.2,
                    res.3,
                );
                assert(prev.is_prefix_of(tokens@)) by {
                    assert(tokens@.subrange(0, prev.len() as int) =~= prev);
                }
                assert(new_tail is Some);
                assert(tokens@.skip(prev.len() as int) + new_tail->Some_0 =~= old_tail->Some_0);
            }
            res
        } else if is_op_char(c) {
            tokens.push(3);
            tokens.push(op_id(c));
            let res = (i + 1, in_state, in_expr, in_assign);
            proof {
                let old_tail = spec_encode_from(
                    chars@,
                    mv,
                    i as nat,
                    old(vars)@,
                    in_state,
                    in_expr,
                    in_assign,
                );
                let new_tail = spec_encode_from(
                    chars@,
                    mv,
                    res.0 as nat,
                    vars@,
                    res.1,
                    res.2,
                    res.3,
                );
                assert(prev.is_prefix_of(tokens@)) by {
                    assert(tokens@.subrange(0, prev.len() as int) =~= prev);
                }
                assert(new_tail is Some);
                assert(tokens@.skip(prev.len() as int) + new_tail->Some_0 =~= old_tail->Some_0);
            }
            res
        } else if is_whitespace_char(c) || c == ';' {
            let res = (i + 1, in_state, in_expr, in_assign);
            proof {
                let old_tail = spec_encode_from(
                    chars@,
                    mv,
                    i as nat,
                    old(vars)@,
                    in_state,
                    in_expr,
                    in_assign,
                );
                let new_tail = spec_encode_from(
                    chars@,
                    mv,
                    res.0 as nat,
                    vars@,
                    res.1,
                    res.2,
                    res.3,
                );
                assert(prev.is_prefix_of(tokens@)) by {
                    assert(tokens@.subrange(0, prev.len() as int) =~= prev);
                }
                assert(new_tail is Some);
                assert(tokens@.skip(prev.len() as int) + new_tail->Some_0 =~= old_tail->Some_0);
            }
            res
        } else if c == '[' {
            tokens.push(5);
            let res = (i + 1, true, in_expr, in_assign);
            proof {
                let old_tail = spec_encode_from(
                    chars@,
                    mv,
                    i as nat,
                    old(vars)@,
                    in_state,
                    in_expr,
                    in_assign,
                );
                let new_tail = spec_encode_from(
                    chars@,
                    mv,
                    res.0 as nat,
                    vars@,
                    res.1,
                    res.2,
                    res.3,
                );
                assert(prev.is_prefix_of(tokens@)) by {
                    assert(tokens@.subrange(0, prev.len() as int) =~= prev);
                }
                assert(new_tail is Some);
                assert(tokens@.skip(prev.len() as int) + new_tail->Some_0 =~= old_tail->Some_0);
            }
            res
        } else if c == ']' {
            tokens.push(6);
            tokens.push(9);
            let res = (i + 1, false, true, in_assign);
            proof {
                let old_tail = spec_encode_from(
                    chars@,
                    mv,
                    i as nat,
                    old(vars)@,
                    in_state,
                    in_expr,
                    in_assign,
                );
                let new_tail = spec_encode_from(
                    chars@,
                    mv,
                    res.0 as nat,
                    vars@,
                    res.1,
                    res.2,
                    res.3,
                );
                assert(prev.is_prefix_of(tokens@)) by {
                    assert(tokens@.subrange(0, prev.len() as int) =~= prev);
                }
                assert(new_tail is Some);
                assert(tokens@.skip(prev.len() as int) + new_tail->Some_0 =~= old_tail->Some_0);
            }
            res
        } else if is_letter(c) {
            let (idx, known) = match first_index(vars, c) {
                Some(k) => (k, true),
                None => (vars.len(), false),
            };
            proof {
                if idx >= self.max_vars {
                    assert(false);
                }
            }
            if !known {
                vars.push(c);
            }
            if in_state && !in_assign {
                tokens.push(1);
            }
            tokens.push(18 + idx);
            let res = (i + 1, in_state, in_expr, in_state || in_assign);
            proof {
                let old_tail = spec_encode_from(
                    chars@,
                    mv,
                    i as nat,
                    old(vars)@,
                    in_state,
                    in_expr,
                    in_assign,
                );
                let new_tail = spec_encode_from(
                    chars@,
                    mv,
                    res.0 as nat,
                    vars@,
                    res.1,
                    res.2,
                    res.3,
                );
                assert(prev.is_prefix_of(tokens@)) by {
                    assert(tokens@.subrange(0, prev.len() as int) =~= prev);
                }
                assert(new_tail is Some);
                assert(tokens@.skip(prev.len() as int) + new_tail->Some_0 =~= old_tail->Some_0);
            }
            res
        } else if c == ':' {
            tokens.push(7);
            let res = (i + 1, in_state, in_expr, in_assign);
            proof {
                let old_tail = spec_encode_from(
                    chars@,
                    mv,
                    i as nat,
                    old(vars)@,
                    in_state,
                    in_expr,
                    in_assign,
                );
                let new_tail = spec_encode_from(
                    chars@,
                    mv,
                    res.0 as nat,
                    vars@,
                    res.1,
                    res.2,
                    res.3,
                );
                assert(prev.is_prefix_of(tokens@)) by {
                    assert(tokens@.subrange(0, prev.len() as int) =~= prev);
                }
                assert(new_tail is Some);
                assert(tokens@.skip(prev.len() as int) + new_tail->Some_0 =~= old_tail->Some_0);
            }
            res
        } else if c == ',' {
            tokens.push(8);
            let res = (i + 1, in_state, in_expr, in_assign);
            proof {
                let old_tail = spec_encode_from(
                    chars@,
                    mv,
                    i as nat,
                    old(vars)@,
                    in_state,
                    in_expr,
                    in_assign,
                );
                let new_tail = spec_encode_from(
                    chars@,
                    mv,
                    res.0 as nat,
                    vars@,
                    res.1,
                    res.2,
                    res.3,
                );
                assert(prev.is_prefix_of(tokens@)) by {
                    assert(tokens@.subrange(0, prev.len() as int) =~= prev);
                }
                assert(new_tail is Some);
                assert(tokens@.skip(prev.len() as int) + new_tail->Some_0 =~= old_tail->Some_0);
            }
            res
        } else if c == '(' {
            tokens.push(9);
            let res = (i + 1, in_state, in_expr, in_assign);
            proof {
                let old_tail = spec_encode_from(
                    chars@,
                    mv,
                    i as nat,
                    old(vars)@,
                    in_state,
                    in_expr,
                    in_assign,
                );
                let new_tail = spec_encode_from(
                    chars@,
                    mv,
                    res.0 as nat,
                    vars@,
                    res.1,
                    res.2,
                    res.3,
                );
                assert(prev.is_prefix_of(tokens@)) by {
                    assert(tokens@.subrange(0, prev.len() as int) =~= prev);
                }
                assert(new_tail is Some);
                assert(tokens@.skip(prev.len() as int) + new_tail->Some_0 =~= old_tail->Some_0);
            }
            res
        } else if c == ')' {
            tokens.push(10);
            let res = (i + 1, in_state, in_expr, in_assign);
            proof {
                let old_tail = spec_encode_from(
                    chars@,
                    mv,
                    i as nat,
                    old(vars)@,
                    in_state,
                    in_expr,
                    in_assign,
                );
                let new_tail = spec_encode_from(
                    chars@,
                    mv,
                    res.0 as nat,
                    vars@,
                    res.1,
                    res.2,
                    res.3,
                );
                assert(prev.is_prefix_of(tokens@)) by {
                    assert(tokens@.subrange(0, prev.len() as int) =~= prev);
                }
                assert(new_tail is Some);
                assert(tokens@.skip(prev.len() as int) + new_tail->Some_0 =~= old_tail->Some_0);
            }
            res
        } else {
            proof {
                assert(false);
            }
            (i + 1, in_state, in_expr, in_assign)
        }
    }

    /// Appends the texts of the tokens from position `i` on, separated by
    /// single spaces.
    fn append_tokens(&self, out: &mut String, tokens: &[usize], i: usize)
        requires
            i <= tokens@.len(),
            forall|k: int| 0 <= k < tokens@.len() ==> tokens@[k] < self.vocab@.len(),
        ensures
            final(out)@ == old(out)@ + spec_join_space(
                self.vocab@.map_values(|t: String| t@),
                tokens@.skip(i as int),
            ),
        decreases tokens@.len() - i,
    {
        let ghost voc = self.vocab@.map_values(|t: String| t@);
        if i >= tokens.len() {
            proof {
                assert(out@ =~= old(out)@ + spec_join_space(voc, tokens@.skip(i as int)));
            }
            return ;
        }
        let id = tokens[i];
        out.append(self.vocab[id].as_str());
        if i + 1 < tokens.len() {
            out.append(" ");
            proof {
                reveal_strlit(" ");
                assert(" "@ =~= seq![' ']);
            }
        }
        self.append_tokens(out, tokens, i + 1);
        proof {
            let rest = tokens@.skip(i as int);
            assert(rest[0] == tokens@[i as int]);
            assert(rest.drop_first() =~= tokens@.skip(i as int + 1));
            assert(out@ =~= old(out)@ + spec_join_space(voc, tokens@.skip(i as int)));
        }
    }
}

/// The characters of a text, in order.
fn str_chars(input: &str) -> (res: Vec<char>)
    ensures
        res@ == input@,
{
    let n = input.unicode_len();
    let mut chars: Vec<char> = Vec::new();
    let mut i: usize = 0;
    while i < n
        invariant
            n == input@.len(),
            i <= n,
            chars@ == input@.subrange(0, i as int),
        decreases n - i,
    {
        chars.push(input.get_char(i));
        proof {
            assert(chars@ =~= input@.subrange(0, i + 1));
        }
        i = i + 1;
    }
    proof {
        assert(chars@ =~= input@);
    }
    chars
}

/// Whether the character is an operator token.
fn is_op_char(c: char) -> (res: bool)
    ensures
        res == spec_is_op_char(c),
{
    c == '∧' || c == '∨' || c == '¬' || c == '→' || c == '↔'
}

/// The vocabulary id of an operator character.
fn op_id(c: char) -> (res: usize)
    requires
        spec_is_op_char(c),
    ensures
        res == spec_op_id(c),
{
    if c == '∧' {
        13
    } else if c == '∨' {
        14
    } else if c == '¬' {
        15
    } else if c == '→' {
        16
    } else {
        17
    }
}

/// The position of the first occurrence of `c`, if it occurs.
fn first_index(vars: &Vec<char>, c: char) -> (res: Option<usize>)
    ensures
        match res {
            Some(k) => vars@.contains(c) && k == spec_first_index(vars@, c) && k < vars@.len(),
            None => !vars@.contains(c),
        },
{
    let mut k: usize = 0;
    proof {
        assert(vars@.skip(0) =~= vars@);
    }
    while k < vars.len()
        invariant
            k <= vars@.len(),
            forall|j: int| 0 <= j < k ==> vars@[j] != c,
            spec_first_index(vars@, c) >= k || !vars@.contains(c),
            spec_first_index(vars@, c) == k + spec_first_index(vars@.skip(k as int), c),
        decreases vars@.len() - k,
    {
        if vars[k] == c {
            proof {
                assert(vars@.skip(k as int)[0] == c);
                assert(vars@[k as int] == c);
            }
            return Some(k);
        }
        k = k + 1;
        proof {
            assert(vars@.skip(k as int - 1).drop_first() =~= vars@.skip(k as int));
            assert(vars@.skip(k as int - 1)[0] == vars@[k as int - 1]);
        }
    }
    proof {
        if vars@.contains(c) {
            let j = choose|j: int| 0 <= j < vars@.len() && vars@[j] == c;
            assert(vars@[j] != c);
        }
    }
    None
}

/// Appends the decimal digits of `n`, most significant first.
fn push_digits(out: &mut Vec<char>, n: usize)
    ensures
        final(out)@ == old(out)@ + spec_dec_digits(n as nat),
    decreases n,
{
    if n < 10 {
        out.push(digit_char(n));
        proof {
            assert(out@ =~= old(out)@ + spec_dec_digits(n as nat));
        }
    } else {
        push_digits(out, n / 10);
        out.push(digit_char(n % 10));
        proof {
            assert(out@ =~= old(out)@ + spec_dec_digits(n as nat));
        }
    }
}

/// The character of one decimal digit.
fn digit_char(d: usize) -> (res: char)
    requires
        d < 10,
    ensures
        res == spec_digit_char(d as nat),
{
    if d == 0 {
        '0'
    } else if d == 1 {
        '1'
    } else if d == 2 {
        '2'
    } else if d == 3 {
        '3'
    } else if d == 4 {
        '4'
    } else if d == 5 {
        '5'
    } else if d == 6 {
        '6'
    } else if d == 7 {
        '7'
    } else if d == 8 {
        '8'
    } else {
        '9'
    }
}

} // verus!
