//! The failure conditions a phase of the pipeline can report.

use vstd::prelude::*;

use crate::symbols::Symbol;
use crate::symbols::SymbolView;

verus! {

/// Mathematical model of an [`ExprError`].
pub enum ErrorView {
    /// The expression's parentheses do not balance.
    UnbalancedParentheses,
    /// The expression holds no node at all.
    EmptyExpression,
    /// No differentiation rule is defined for the symbol.
    NoRule(SymbolView),
    /// A differentiation rule exists mathematically but is not provided.
    UnimplementedRule(SymbolView),
    /// A node carries a different number of children than its symbol expects.
    ArityMismatch { expected: int, found: int },
}

/// A reportable failure: a malformed expression, an empty expression, or a
/// node the derivative engine cannot rewrite. A failure in one phase aborts
/// the whole pipeline and is surfaced to the caller.
#[derive(Debug, PartialEq, Eq, Clone)]
pub enum ExprError {
    UnbalancedParentheses,
    EmptyExpression,
    NoRule(Symbol),
    UnimplementedRule(Symbol),
    ArityMismatch { expected: usize, found: usize },
}

impl View for ExprError {
    type V = ErrorView;

    open spec fn view(&self) -> ErrorView {
        match self {
            ExprError::UnbalancedParentheses => ErrorView::UnbalancedParentheses,
            ExprError::EmptyExpression => ErrorView::EmptyExpression,
            ExprError::NoRule(s) => ErrorView::NoRule(s@),
            ExprError::UnimplementedRule(s) => ErrorView::UnimplementedRule(s@),
            ExprError::ArityMismatch { expected, found } => ErrorView::ArityMismatch {
                expected: *expected as int,
                found: *found as int,
            },
        }
    }
}

} // verus!
