//! The tokenizer: vocabulary layout, exact token ids, decoding, and the
//! full row-text example.

use mlml::tokenizer::{MlmlTokenizer, Tokenizer};

#[test]
fn tokenizer() {
    let expr_with_state_str = "[i, f: true; g, j: false] ((g ∧ (¬j → i)) ∧ (f ∨ j))";
    let tokenizer = MlmlTokenizer::new(64, 26);
    let tokens = tokenizer.encode(expr_with_state_str);
    let decoded = tokenizer.decode(&tokens);
    println!("{decoded}");
}

#[test]
fn vocabulary_layout() {
    let t = MlmlTokenizer::new(8, 3);
    assert_eq!(t.vocab_size(), 18 + 3);
    assert_eq!(t.pad_token(), 0);
    assert_eq!(t.pad_token_value(), "<pad>");
}

#[test]
fn encode_small_row_exactly() {
    let t = MlmlTokenizer::new(16, 1);
    let tokens = t.encode("[a: true] a");
    // '[', <assign>, <var0>, ':', <value_prefix>, true, </assign>, ']',
    // '(', <var0>, ')' and padding.
    assert_eq!(
        tokens,
        vec![5, 1, 18, 7, 4, 11, 2, 6, 9, 18, 10, 0, 0, 0, 0, 0]
    );
}

#[test]
fn encode_numbers_variables_by_first_appearance() {
    let t = MlmlTokenizer::new(32, 4);
    let tokens = t.encode("[q, p: true] (q ∧ p)");
    // q is seen first, so it takes slot 0 and p slot 1.
    let q = 18;
    let p = 19;
    assert_eq!(
        &tokens[..13],
        &[5, 1, q, 8, p, 7, 4, 11, 2, 6, 9, 9, q]
    );
}

#[test]
fn encode_operators_with_prefix() {
    let t = MlmlTokenizer::new(32, 2);
    let tokens = t.encode("(a → ¬b)");
    // No assignment part: the text never enters an expression section, so
    // no closing parenthesis is appended.
    assert_eq!(&tokens[..8], &[9, 18, 3, 16, 3, 15, 19, 10]);
}

#[test]
fn decode_joins_token_texts() {
    let t = MlmlTokenizer::new(8, 2);
    let text = t.decode(&[5, 1, 18, 7, 4, 11, 2, 6]);
    assert_eq!(text, "[ <assign> <var0> : <value_prefix> true </assign> ]");
    assert_eq!(t.decode(&[19]), "<var1>");
    assert_eq!(t.decode(&[13, 14, 15, 16, 17]), "∧ ∨ ¬ → ↔");
}

#[test]
fn decode_var_slots_above_nine() {
    let t = MlmlTokenizer::new(8, 12);
    assert_eq!(t.decode(&[18 + 11]), "<var11>");
}

#[test]
fn encode_pads_to_sequence_length() {
    let t = MlmlTokenizer::new(10, 1);
    let tokens = t.encode("a");
    assert_eq!(tokens.len(), 10);
    assert_eq!(tokens, vec![18, 0, 0, 0, 0, 0, 0, 0, 0, 0]);
}
