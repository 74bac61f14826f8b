//! Symbolic differentiation of function-call-style expressions.
//!
//! An expression such as `sin(add(z,3))` is tokenized, classified into
//! symbols, built into a flat index-addressed arena, materialized into an
//! immutable shared-ownership tree, differentiated by structural rewriting,
//! and rendered back to text.

pub mod arena;
pub mod engine;
pub mod errors;
pub mod laws;
pub mod printer;
pub mod symbols;
pub mod text;
pub mod tokenizer;
pub mod tree;

pub use symbols::Symbol;
pub use symbols::SymbolView;
pub use tree::SyntaxNode;
pub use tree::TreeView;

use std::rc::Rc;
use vstd::prelude::*;

use crate::arena::hierarchize;
use crate::arena::hierarchize_spec;
use crate::arena::SyntaxTreeView;
use crate::engine::deriv;
use crate::engine::derivative;
use crate::errors::ErrorView;
use crate::errors::ExprError;
use crate::printer::print_tree;
use crate::printer::render;
use crate::tokenizer::break_into_symbols;
use crate::tokenizer::tokenize_spec;
use crate::tree::mat;
use crate::tree::structure_tree;

verus! {

/// What differentiating an expression string yields: the rendered
/// derivative of the tree the string describes, or the first failure of
/// tokenizing, building, materializing or differentiating it.
pub open spec fn differentiate_spec(s: Seq<char>) -> Result<Seq<char>, ErrorView> {
    match hierarchize_spec(tokenize_spec(s)) {
        Err(e) => Err(e),
        Ok(tv) => if tv.arena.len() == 0 {
            Err(ErrorView::EmptyExpression)
        } else {
            match deriv(mat(tv.arena, tv.head)) {
                Err(e) => Err(e),
                Ok(d) => Ok(render(d)),
            }
        },
    }
}

/// Differentiate a textual expression and render the result: tokenizer,
/// arena tree builder, tree materializer, derivative engine and printer,
/// composed. The sole operation the library exposes to a driver.
pub fn differentiate(expression: &String) -> (r: Result<String, ExprError>)
    ensures
        match r {
            Ok(s) => differentiate_spec(expression@) == Ok::<Seq<char>, ErrorView>(s@),
            Err(e) => differentiate_spec(expression@) == Err::<Seq<char>, ErrorView>(e@),
        },
{
    let symbols = break_into_symbols(expression);
    let tree = match hierarchize(&symbols) {
        Ok(t) => t,
        Err(e) => {
            return Err(e);
        },
    };
    let head = match structure_tree(&tree) {
        Ok(h) => h,
        Err(e) => {
            return Err(e);
        },
    };
    let new_head = match derivative(&Rc::new(head)) {
        Ok(d) => d,
        Err(e) => {
            return Err(e);
        },
    };
    Ok(print_tree(&new_head))
}

} // verus!
