//! The derivative engine: recursive structural rewriting of a shared tree
//! into its symbolic derivative with respect to the implicit single
//! differentiation variable.

use std::rc::Rc;
use vstd::prelude::*;

use crate::errors::ErrorView;
use crate::errors::ExprError;
use crate::symbols::clone_symbol;
use crate::symbols::Symbol;
use crate::symbols::SymbolView;
use crate::tree::node_view;
use crate::tree::SyntaxNode;
use crate::tree::TreeView;

verus! {

/// A constant leaf carrying the given text.
pub open spec fn const_leaf(text: Seq<char>) -> TreeView {
    TreeView { sym: SymbolView::Constant(text), children: Seq::empty() }
}

/// A variable leaf carrying the given name.
pub open spec fn var_leaf(text: Seq<char>) -> TreeView {
    TreeView { sym: SymbolView::Variable(text), children: Seq::empty() }
}

/// An interior node with the given symbol and two children.
pub open spec fn binary(sym: SymbolView, a: TreeView, b: TreeView) -> TreeView {
    TreeView { sym, children: seq![a, b] }
}

/// An interior node with the given symbol and one child.
pub open spec fn unary(sym: SymbolView, a: TreeView) -> TreeView {
    TreeView { sym, children: seq![a] }
}

/// The symbolic derivative of a tree, or the failure it must surface.
///
/// Addition and subtraction differentiate each operand (linearity);
/// multiplication applies the product rule; division the quotient rule;
/// sine the chain rule. A constant differentiates to the constant `0` and
/// a variable to the constant `1`, whatever their text. The cosine rule is
/// deliberately not provided and is reported as unimplemented rather than
/// producing a degenerate node; every other symbol has no differentiation
/// rule at all. Operands are validated against the arity their operator
/// expects before they are touched, and the leftmost failing operand's
/// failure is the one reported.
pub open spec fn deriv(t: TreeView) -> Result<TreeView, ErrorView>
    decreases t,
{
    match t.sym {
        SymbolView::Add | SymbolView::Subtract => if t.children.len() != 2 {
            Err(ErrorView::ArityMismatch { expected: 2, found: t.children.len() as int })
        } else {
            match (deriv(t.children[0]), deriv(t.children[1])) {
                (Ok(a), Ok(b)) => Ok(TreeView { sym: t.sym, children: seq![a, b] }),
                (Err(e), _) => Err(e),
                (Ok(_), Err(e)) => Err(e),
            }
        },
        SymbolView::Multiply => if t.children.len() != 2 {
            Err(ErrorView::ArityMismatch { expected: 2, found: t.children.len() as int })
        } else {
            let u = t.children[0];
            let v = t.children[1];
            match (deriv(u), deriv(v)) {
                (Ok(du), Ok(dv)) => Ok(
                    binary(
                        SymbolView::Add,
                        binary(SymbolView::Multiply, du, v),
                        binary(SymbolView::Multiply, u, dv),
                    ),
                ),
                (Err(e), _) => Err(e),
                (Ok(_), Err(e)) => Err(e),
            }
        },
        SymbolView::Divide => if t.children.len() != 2 {
            Err(ErrorView::ArityMismatch { expected: 2, found: t.children.len() as int })
        } else {
            let u = t.children[0];
            let v = t.children[1];
            match (deriv(u), deriv(v)) {
                (Ok(du), Ok(dv)) => Ok(
                    binary(
                        SymbolView::Divide,
                        binary(
                            SymbolView::Subtract,
                            binary(SymbolView::Multiply, du, v),
                            binary(SymbolView::Multiply, u, dv),
                        ),
                        binary(SymbolView::Multiply, v, v),
                    ),
                ),
                (Err(e), _) => Err(e),
                (Ok(_), Err(e)) => Err(e),
            }
        },
        SymbolView::Sin => if t.children.len() != 1 {
            Err(ErrorView::ArityMismatch { expected: 1, found: t.children.len() as int })
        } else {
            let u = t.children[0];
            match deriv(u) {
                Ok(du) => Ok(
                    binary(SymbolView::Multiply, unary(SymbolView::Cos, u), du),
                ),
                Err(e) => Err(e),
            }
        },
        SymbolView::Cos => Err(ErrorView::UnimplementedRule(SymbolView::Cos)),
        SymbolView::Constant(_) => Ok(const_leaf(seq!['0'])),
        SymbolView::Variable(_) => Ok(const_leaf(seq!['1'])),
        _ => Err(ErrorView::NoRule(t.sym)),
    }
}

/// Differentiating a constant leaf always yields the zero constant and a
/// variable leaf always the one constant, whatever text they carry; and
/// since the results are constant leaves themselves, repeated
/// differentiation of a leaf settles at the zero constant.
pub proof fn lemma_leaf_derivatives(text: Seq<char>)
    ensures
        deriv(const_leaf(text)) == Ok::<TreeView, ErrorView>(const_leaf(seq!['0'])),
        deriv(var_leaf(text)) == Ok::<TreeView, ErrorView>(const_leaf(seq!['1'])),
        deriv(const_leaf(seq!['0'])) == Ok::<TreeView, ErrorView>(const_leaf(seq!['0'])),
        deriv(const_leaf(seq!['1'])) == Ok::<TreeView, ErrorView>(const_leaf(seq!['0'])),
{
}

/// Relies on std's `Rc::clone`: the returned shared pointer refers to the
/// same tree node, without copying it.
#[verifier::external_body]
fn share(n: &Rc<SyntaxNode>) -> (r: Rc<SyntaxNode>)
    ensures
        r == *n,
{
    Rc::clone(n)
}

/// A vector of exactly two shared children.
fn two_children(a: Rc<SyntaxNode>, b: Rc<SyntaxNode>) -> (v: Vec<Rc<SyntaxNode>>)
    ensures
        v@ == seq![a, b],
{
    let mut v: Vec<Rc<SyntaxNode>> = Vec::new();
    v.push(a);
    v.push(b);
    proof {
        assert(v@ =~= seq![a, b]);
    }
    v
}

/// A freshly allocated interior node with two shared children.
fn binary_node(sym: Symbol, a: Rc<SyntaxNode>, b: Rc<SyntaxNode>) -> (r: Rc<SyntaxNode>)
    ensures
        node_view(*r) == binary(sym@, a@, b@),
{
    let ghost gsym = sym@;
    let ghost ga = a@;
    let ghost gb = b@;
    let n = SyntaxNode { symbol: sym, children: two_children(a, b) };
    proof {
        assert(node_view(n).children.len() == 2);
        assert(node_view(n).children[0] == ga);
        assert(node_view(n).children[1] == gb);
        assert(node_view(n).children =~= binary(gsym, ga, gb).children);
        assert(node_view(n) =~~= binary(gsym, ga, gb));
    }
    Rc::new(n)
}

/// A freshly allocated constant leaf with the given text.
fn constant_node(text: String) -> (r: Rc<SyntaxNode>)
    ensures
        node_view(*r) == const_leaf(text@),
{
    let ghost gt = text@;
    let n = SyntaxNode { symbol: Symbol::CONSTANT(text), children: Vec::new() };
    proof {
        assert(n.children@.len() == 0);
        assert(node_view(n).sym == const_leaf(gt).sym);
        assert(node_view(n).children =~= const_leaf(gt).children);
        assert(node_view(n) =~~= const_leaf(gt));
    }
    Rc::new(n)
}

/// Rewrite a shared tree into its symbolic derivative, or surface the
/// failure the tree forces. The input tree is never mutated; unmodified
/// operands are shared into the output rather than copied.
pub fn derivative(node: &Rc<SyntaxNode>) -> (r: Result<Rc<SyntaxNode>, ExprError>)
    ensures
        match r {
            Ok(d) => deriv(node@) == Ok::<TreeView, ErrorView>(d@),
            Err(e) => deriv(node@) == Err::<TreeView, ErrorView>(e@),
        },
    decreases node@,
{
    match &node.symbol {
        Symbol::ADD | Symbol::SUBTRACT => {
            if node.children.len() != 2 {
                return Err(
                    ExprError::ArityMismatch { expected: 2, found: node.children.len() },
                );
            }
            let d0 = match derivative(&node.children[0]) {
                Ok(d) => d,
                Err(e) => {
                    return Err(e);
                },
            };
            let d1 = match derivative(&node.children[1]) {
                Ok(d) => d,
                Err(e) => {
                    return Err(e);
                },
            };
            let out = binary_node(clone_symbol(&node.symbol), d0, d1);
            proof {
                assert(Ok::<TreeView, ErrorView>(out@) == deriv(node@));
            }
            Ok(out)
        },
        Symbol::MULTIPLY => {
            if node.children.len() != 2 {
                return Err(
                    ExprError::ArityMismatch { expected: 2, found: node.children.len() },
                );
            }
            let u = share(&node.children[0]);
            let v = share(&node.children[1]);
            let du = match derivative(&u) {
                Ok(d) => d,
                Err(e) => {
                    return Err(e);
                },
            };
            let dv = match derivative(&v) {
                Ok(d) => d,
                Err(e) => {
                    return Err(e);
                },
            };
            let l = binary_node(Symbol::MULTIPLY, du, share(&v));
            let r = binary_node(Symbol::MULTIPLY, u, dv);
            Ok(binary_node(Symbol::ADD, l, r))
        },
        Symbol::DIVIDE => {
            if node.children.len() != 2 {
                return Err(
                    ExprError::ArityMismatch { expected: 2, found: node.children.len() },
                );
            }
            let u = share(&node.children[0]);
            let v = share(&node.children[1]);
            let du = match derivative(&u) {
                Ok(d) => d,
                Err(e) => {
                    return Err(e);
                },
            };
            let dv = match derivative(&v) {
                Ok(d) => d,
                Err(e) => {
                    return Err(e);
                },
            };
            let l = binary_node(Symbol::MULTIPLY, du, share(&v));
            let r = binary_node(Symbol::MULTIPLY, u, dv);
            let numerator = binary_node(Symbol::SUBTRACT, l, r);
            let denominator = binary_node(Symbol::MULTIPLY, share(&v), v);
            Ok(binary_node(Symbol::DIVIDE, numerator, denominator))
        },
        Symbol::SIN => {
            if node.children.len() != 1 {
                return Err(
                    ExprError::ArityMismatch { expected: 1, found: node.children.len() },
                );
            }
            let inner = share(&node.children[0]);
            let du = match derivative(&inner) {
                Ok(d) => d,
                Err(e) => {
                    return Err(e);
                },
            };
            let ghost ginner = inner@;
            let l = {
                let n = SyntaxNode {
                    symbol: Symbol::COS,
                    children: {
                        let mut v: Vec<Rc<SyntaxNode>> = Vec::new();
                        v.push(inner);
                        v
                    },
                };
                proof {
                    assert(node_view(n).children.len() == 1);
                    assert(node_view(n).children[0] == ginner);
                    assert(node_view(n).children =~= unary(SymbolView::Cos, ginner).children);
                    assert(node_view(n) =~~= unary(SymbolView::Cos, ginner));
                }
                Rc::new(n)
            };
            Ok(binary_node(Symbol::MULTIPLY, l, du))
        },
        Symbol::COS => Err(ExprError::UnimplementedRule(Symbol::COS)),
        Symbol::CONSTANT(_) => {
            let text = String::from_str("0");
            proof {
                reveal_strlit("0");
                assert(text@ =~= seq!['0']);
            }
            Ok(constant_node(text))
        },
        Symbol::VARIABLE(_) => {
            let text = String::from_str("1");
            proof {
                reveal_strlit("1");
                assert(text@ =~= seq!['1']);
            }
            Ok(constant_node(text))
        },
        _ => Err(ExprError::NoRule(clone_symbol(&node.symbol))),
    }
}

} // verus!
