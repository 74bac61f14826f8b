//! The immutable, shared-ownership tree and its materialization from the
//! flat arena representation.

use std::rc::Rc;
use vstd::prelude::*;

use crate::arena::arena_wf;
use crate::arena::tree_wf;
use crate::arena::FlatNodeView;
use crate::arena::IndexNode;
use crate::arena::SyntaxTree;
use crate::errors::ErrorView;
use crate::errors::ExprError;
use crate::symbols::clone_symbol;
use crate::symbols::Symbol;
use crate::symbols::SymbolView;

verus! {

/// Mathematical model of an expression tree: a symbol together with the
/// models of its children, in order.
#[verifier::ext_equal]
pub struct TreeView {
    pub sym: SymbolView,
    pub children: Seq<TreeView>,
}

/// A node of the shared tree: its symbol and shared, immutable references
/// to its children. Built once by materialization, then only read.
#[derive(Debug)]
pub struct SyntaxNode {
    pub symbol: Symbol,
    pub children: Vec<Rc<SyntaxNode>>,
}

/// The model of a shared tree node: its symbol's model together with the
/// models of its children, in order.
pub open spec fn node_view(n: SyntaxNode) -> TreeView
    decreases n,
{
    TreeView {
        sym: n.symbol@,
        children: Seq::new(
            n.children@.len(),
            |k: int|
                if 0 <= k < n.children@.len() {
                    node_view(*n.children@[k])
                } else {
                    TreeView { sym: SymbolView::Null, children: Seq::empty() }
                },
        ),
    }
}

impl View for SyntaxNode {
    type V = TreeView;

    open spec fn view(&self) -> TreeView {
        node_view(*self)
    }
}

/// The tree rooted at arena index `i`: the node's symbol with the
/// materialization of each of its children, in order. Well-formed arenas
/// only point forward, which bounds the recursion; anything else collapses
/// to a bare null node.
pub open spec fn mat(arena: Seq<FlatNodeView>, i: int) -> TreeView
    decreases arena.len() - i,
{
    if 0 <= i < arena.len() && (forall|k: int|
        0 <= k < arena[i].children.len() ==> i < #[trigger] arena[i].children[k] < arena.len()) {
        TreeView {
            sym: arena[i].sym,
            children: Seq::new(
                arena[i].children.len(),
                |k: int|
                    if 0 <= k < arena[i].children.len() {
                        mat(arena, arena[i].children[k])
                    } else {
                        TreeView { sym: SymbolView::Null, children: Seq::empty() }
                    },
            ),
        }
    } else {
        TreeView { sym: SymbolView::Null, children: Seq::empty() }
    }
}

/// Materialize the tree rooted at arena index `node_index`.
fn build_node(node_index: usize, arena: &Vec<IndexNode>) -> (r: SyntaxNode)
    requires
        arena_wf(arena@.map_values(|n: IndexNode| n@)),
        node_index < arena@.len(),
    ensures
        r@ == mat(arena@.map_values(|n: IndexNode| n@), node_index as int),
    decreases arena@.len() - node_index,
{
    let ghost a = arena@.map_values(|n: IndexNode| n@);
    let arena_node = &arena[node_index];
    let num = arena_node.children.len();
    let mut children: Vec<Rc<SyntaxNode>> = Vec::new();
    let mut k: usize = 0;
    while k < num
        invariant
            arena_wf(a),
            a == arena@.map_values(|n: IndexNode| n@),
            node_index < arena@.len(),
            num == arena_node.children@.len(),
            arena_node == &arena[node_index as int],
            k <= num,
            children@.len() == k,
            forall|j: int|
                0 <= j < k ==> node_view(*#[trigger] children@[j]) == mat(
                    a,
                    a[node_index as int].children[j],
                ),
        decreases num - k,
    {
        let child_index = arena_node.children[k];
        proof {
            assert(a[node_index as int].children[k as int] == child_index as int);
        }
        let child = build_node(child_index, arena);
        children.push(Rc::new(child));
        k = k + 1;
    }
    let r = SyntaxNode { symbol: clone_symbol(&arena_node.symbol), children };
    proof {
        let m = mat(a, node_index as int);
        assert(r@.children.len() == m.children.len());
        assert forall|j: int| 0 <= j < m.children.len() implies r@.children[j] == m.children[j] by {
            assert(r@.children[j] == node_view(*children@[j]));
            assert(m.children[j] == mat(a, a[node_index as int].children[j]));
        }
        assert(r@.children =~= m.children);
        assert(r@ =~~= m);
    }
    r
}

/// Materialize the flat arena tree into the shared, immutable tree rooted
/// at its head; an empty arena has no root and is reported as an empty
/// expression.
pub fn structure_tree(tree: &SyntaxTree) -> (r: Result<SyntaxNode, ExprError>)
    requires
        tree_wf(tree@),
    ensures
        match r {
            Ok(node) => tree@.arena.len() > 0 && node@ == mat(tree@.arena, tree@.head),
            Err(e) => tree@.arena.len() == 0 && e@ == ErrorView::EmptyExpression,
        },
{
    if tree.arena.len() == 0 {
        return Err(ExprError::EmptyExpression);
    }
    Ok(build_node(tree.head, &tree.arena))
}

} // verus!
