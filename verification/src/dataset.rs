//! The item types a downstream classification consumer reads: a plain text
//! with a class label, and the raw row of the deductive-reasoning dataset.

use vstd::prelude::*;

verus! {

/// One text classification item: the text and its class label.
#[derive(Debug, Clone)]
pub struct TextClassificationItem {
    pub text: String,
    pub label: usize,
}

impl TextClassificationItem {
    /// Pairs a text with its label.
    pub fn new(text: String, label: usize) -> (res: TextClassificationItem)
        ensures
            res.text == text,
            res.label == label,
    {
        TextClassificationItem { text, label }
    }
}

/// One raw row of the deductive-reasoning dataset: the encoded sample text
/// and the evaluation result as text.
#[derive(Debug, Clone)]
pub struct DeductiveReasoningItem {
    pub expression: String,
    pub result: String,
}

impl DeductiveReasoningItem {
    /// Pairs a sample text with its result text.
    pub fn new(expression: String, result: String) -> (res: DeductiveReasoningItem)
        ensures
            res.expression == expression,
            res.result == result,
    {
        DeductiveReasoningItem { expression, result }
    }
}

} // verus!
