//! The canonical text encoding of a sample: `"[" assignment "] " expression`,
//! where the assignment groups variables by truth value, the `true` group
//! first, as in `[a, c: true; b: false] (a ∧ b)`.

use vstd::prelude::*;

use crate::expr::{string_from_chars, Expr};

verus! {

/// The symbols assigned `true`, in assignment order.
pub open spec fn spec_true_keys(s: Seq<(char, bool)>) -> Seq<char>
    decreases s.len(),
{
    if s.len() == 0 {
        Seq::empty()
    } else {
        spec_true_keys(s.drop_last()) + if s.last().1 {
            seq![s.last().0]
        } else {
            Seq::empty()
        }
    }
}

/// The symbols assigned `false`, in assignment order.
pub open spec fn spec_false_keys(s: Seq<(char, bool)>) -> Seq<char>
    decreases s.len(),
{
    if s.len() == 0 {
        Seq::empty()
    } else {
        spec_false_keys(s.drop_last()) + if !s.last().1 {
            seq![s.last().0]
        } else {
            Seq::empty()
        }
    }
}

/// Symbols joined by a comma and a space.
pub open spec fn spec_join_commas(cs: Seq<char>) -> Seq<char>
    decreases cs.len(),
{
    if cs.len() == 0 {
        Seq::empty()
    } else if cs.len() == 1 {
        seq![cs[0]]
    } else {
        seq![cs[0], ',', ' '] + spec_join_commas(cs.drop_first())
    }
}

/// One truth group: the joined symbols, a colon, and the value's name;
/// empty when no symbol has that value.
pub open spec fn spec_group(cs: Seq<char>, label: Seq<char>) -> Seq<char> {
    if cs.len() == 0 {
        Seq::empty()
    } else {
        spec_join_commas(cs) + seq![':', ' '] + label
    }
}

/// The assignment text: both groups in brackets, separated by a semicolon
/// when both are present.
pub open spec fn spec_state_text(s: Seq<(char, bool)>) -> Seq<char> {
    let ts = spec_true_keys(s);
    let fs = spec_false_keys(s);
    seq!['['] + spec_group(ts, seq!['t', 'r', 'u', 'e']) + (
    if ts.len() > 0 && fs.len() > 0 {
        seq![';', ' ']
    } else {
        Seq::empty()
    }) + spec_group(fs, seq!['f', 'a', 'l', 's', 'e']) + seq![']']
}

/// The full row text handed to the sink: the assignment, a space, and the
/// printed expression.
pub open spec fn spec_row_text(e: Expr, s: Seq<(char, bool)>) -> Seq<char> {
    spec_state_text(s) + seq![' '] + e.spec_print()
}

/// Serializes an assignment to its text.
pub fn stringify_state(state: &[(char, bool)]) -> (res: String)
    ensures
        res@ == spec_state_text(state@),
{
    let mut out: Vec<char> = Vec::new();
    push_state_text(&mut out, state);
    string_from_chars(&out)
}

/// Serializes a whole sample to its row text.
pub fn row_text(e: &Expr, state: &[(char, bool)]) -> (res: String)
    ensures
        res@ == spec_row_text(*e, state@),
{
    let mut out: Vec<char> = Vec::new();
    push_state_text(&mut out, state);
    out.push(' ');
    e.push_print(&mut out);
    proof {
        assert(out@ =~= spec_row_text(*e, state@));
    }
    string_from_chars(&out)
}

/// Appends the assignment text to `out`.
fn push_state_text(out: &mut Vec<char>, state: &[(char, bool)])
    ensures
        final(out)@ == old(out)@ + spec_state_text(state@),
{
    let ts = collect_keys(state, true);
    let fs = collect_keys(state, false);
    out.push('[');
    push_group(out, &ts, true);
    if ts.len() > 0 && fs.len() > 0 {
        out.push(';');
        out.push(' ');
    }
    push_group(out, &fs, false);
    out.push(']');
    proof {
        assert(out@ =~= old(out)@ + spec_state_text(state@));
    }
}

/// Collects the symbols with the given truth value, in order.
fn collect_keys(state: &[(char, bool)], value: bool) -> (res: Vec<char>)
    ensures
        value ==> res@ == spec_true_keys(state@),
        !value ==> res@ == spec_false_keys(state@),
{
    let mut res: Vec<char> = Vec::new();
    let mut i: usize = 0;
    while i < state.len()
        invariant
            i <= state@.len(),
            value ==> res@ == spec_true_keys(state@.take(i as int)),
            !value ==> res@ == spec_false_keys(state@.take(i as int)),
        decreases state@.len() - i,
    {
        let (c, v) = state[i];
        if v == value {
            res.push(c);
        }
        i = i + 1;
        proof {
            assert(state@.take(i as int).drop_last() =~= state@.take(i as int - 1));
            assert(state@.take(i as int).last() == state@[i as int - 1]);
        }
    }
    proof {
        assert(state@.take(state@.len() as int) =~= state@);
    }
    res
}

/// Appends one truth group to `out`.
fn push_group(out: &mut Vec<char>, cs: &Vec<char>, value: bool)
    ensures
        value ==> final(out)@ == old(out)@ + spec_group(cs@, seq!['t', 'r', 'u', 'e']),
        !value ==> final(out)@ == old(out)@ + spec_group(cs@, seq!['f', 'a', 'l', 's', 'e']),
{
    if cs.len() == 0 {
        proof {
            assert(out@ =~= old(out)@ + Seq::<char>::empty());
        }
        return ;
    }
    push_join(out, cs, 0);
    proof {
        assert(cs@.skip(0) =~= cs@);
    }
    out.push(':');
    out.push(' ');
    if value {
        out.push('t');
        out.push('r');
        out.push('u');
        out.push('e');
        proof {
            assert(out@ =~= old(out)@ + spec_group(cs@, seq!['t', 'r', 'u', 'e']));
        }
    } else {
        out.push('f');
        out.push('a');
        out.push('l');
        out.push('s');
        out.push('e');
        proof {
            assert(out@ =~= old(out)@ + spec_group(cs@, seq!['f', 'a', 'l', 's', 'e']));
        }
    }
}

/// Appends the symbols from position `i` on, joined by a comma and a space.
fn push_join(out: &mut Vec<char>, cs: &Vec<char>, i: usize)
    requires
        i <= cs@.len(),
    ensures
        final(out)@ == old(out)@ + spec_join_commas(cs@.skip(i as int)),
    decreases cs@.len() - i,
{
    if i >= cs.len() {
        proof {
            assert(out@ =~= old(out)@ + spec_join_commas(cs@.skip(i as int)));
        }
        return ;
    }
    out.push(cs[i]);
    if i + 1 < cs.len() {
        out.push(',');
        out.push(' ');
    }
    push_join(out, cs, i + 1);
    proof {
        let rest = cs@.skip(i as int);
        assert(rest[0] == cs@[i as int]);
        assert(rest.drop_first() =~= cs@.skip(i as int + 1));
        assert(out@ =~= old(out)@ + spec_join_commas(cs@.skip(i as int)));
    }
}

} // verus!
