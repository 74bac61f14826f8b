//! The flat, index-addressed arena tree and its single-pass construction
//! from the token sequence.

use vstd::prelude::*;

use crate::errors::ErrorView;
use crate::errors::ExprError;
use crate::symbols::classify;
use crate::symbols::is_value;
use crate::symbols::is_value_spec;
use crate::symbols::parse_symbol;
use crate::symbols::Symbol;
use crate::symbols::SymbolView;

verus! {

/// Mathematical model of an [`IndexNode`]: its symbol and the arena
/// indices of its children, in order.
#[verifier::ext_equal]
pub struct FlatNodeView {
    pub sym: SymbolView,
    pub children: Seq<int>,
}

/// A node of the flat arena tree: its symbol and the indices of its
/// children within the arena.
#[derive(Debug, Clone)]
pub struct IndexNode {
    pub children: Vec<usize>,
    pub symbol: Symbol,
}

impl View for IndexNode {
    type V = FlatNodeView;

    open spec fn view(&self) -> FlatNodeView {
        FlatNodeView {
            sym: self.symbol@,
            children: self.children@.map_values(|c: usize| c as int),
        }
    }
}

impl IndexNode {
    /// Append one child index to the node.
    pub fn add_child(&mut self, child: usize)
        ensures
            final(self)@.sym == old(self)@.sym,
            final(self)@.children == old(self)@.children.push(child as int),
    {
        self.children.push(child);
        proof {
            assert(final(self)@.children =~= old(self)@.children.push(child as int));
        }
    }
}

/// Mathematical model of a [`SyntaxTree`].
#[verifier::ext_equal]
pub struct SyntaxTreeView {
    pub head: int,
    pub arena: Seq<FlatNodeView>,
}

/// The flat arena tree: a list of nodes addressed by index, and the index
/// of the root node. Created by [`hierarchize`] and consumed once by
/// materialization.
#[derive(Debug)]
pub struct SyntaxTree {
    pub head: usize,
    pub arena: Vec<IndexNode>,
}

impl View for SyntaxTree {
    type V = SyntaxTreeView;

    open spec fn view(&self) -> SyntaxTreeView {
        SyntaxTreeView {
            head: self.head as int,
            arena: self.arena@.map_values(|n: IndexNode| n@),
        }
    }
}

/// Every child index points forward: strictly past its parent and within
/// the arena. This is what makes materialization terminate.
pub open spec fn arena_wf(arena: Seq<FlatNodeView>) -> bool {
    forall|i: int, k: int|
        0 <= i < arena.len() && 0 <= k < arena[i].children.len() ==> i < #[trigger] arena[i].children[k]
            < arena.len()
}

/// Well-formedness of the arena tree: children point forward and the head
/// lies within the arena whenever the arena is non-empty.
pub open spec fn tree_wf(t: SyntaxTreeView) -> bool {
    &&& arena_wf(t.arena)
    &&& t.arena.len() > 0 ==> 0 <= t.head < t.arena.len()
}

/// The state the builder carries across tokens: the arena grown so far, the
/// stack of currently open parent nodes, and the tentative root index.
#[verifier::ext_equal]
pub struct BuildState {
    pub arena: Seq<FlatNodeView>,
    pub stack: Seq<int>,
    pub head: int,
}

/// The builder's starting state.
pub open spec fn init_state() -> BuildState {
    BuildState { arena: Seq::empty(), stack: Seq::empty(), head: 0 }
}

/// One token's effect on the builder state. `(` is a pure marker; `)`
/// closes the innermost open parent and fails on a stack underflow; any
/// other token is classified and appended as a new node, attached to the
/// innermost open parent (or made the tentative root), and itself opened
/// as a parent unless it is a leaf value.
pub open spec fn build_step(st: BuildState, tok: Seq<char>) -> Option<BuildState> {
    if tok == "("@ {
        Some(st)
    } else if tok == ")"@ {
        if st.stack.len() == 0 {
            None
        } else {
            Some(BuildState { arena: st.arena, stack: st.stack.drop_last(), head: st.head })
        }
    } else {
        let sym = classify(tok);
        let idx = st.arena.len() as int;
        let with_node = st.arena.push(FlatNodeView { sym, children: Seq::empty() });
        let opened = if is_value_spec(sym) {
            st.stack
        } else {
            st.stack.push(idx)
        };
        if st.stack.len() > 0 {
            let p = st.stack.last();
            let parent = with_node[p];
            let arena2 = with_node.update(
                p,
                FlatNodeView { sym: parent.sym, children: parent.children.push(idx) },
            );
            Some(BuildState { arena: arena2, stack: opened, head: st.head })
        } else {
            Some(BuildState { arena: with_node, stack: opened, head: idx })
        }
    }
}

/// The builder state after processing all of `toks` from `st`, or `None`
/// on a stack underflow.
pub open spec fn build_from(st: BuildState, toks: Seq<Seq<char>>) -> Option<BuildState>
    decreases toks.len(),
{
    if toks.len() == 0 {
        Some(st)
    } else {
        match build_step(st, toks[0]) {
            None => None,
            Some(st2) => build_from(st2, toks.drop_first()),
        }
    }
}

/// The arena tree a token sequence builds: an underflow or a stack left
/// non-empty at the end of the input is an unbalanced-parentheses failure.
pub open spec fn hierarchize_spec(toks: Seq<Seq<char>>) -> Result<SyntaxTreeView, ErrorView> {
    match build_from(init_state(), toks) {
        None => Err(ErrorView::UnbalancedParentheses),
        Some(st) => if st.stack.len() > 0 {
            Err(ErrorView::UnbalancedParentheses)
        } else {
            Ok(SyntaxTreeView { head: st.head, arena: st.arena })
        },
    }
}

/// The builder state invariant: stack entries and the head are indices of
/// arena nodes, and children point forward.
pub open spec fn state_wf(st: BuildState) -> bool {
    &&& arena_wf(st.arena)
    &&& forall|j: int| 0 <= j < st.stack.len() ==> 0 <= #[trigger] st.stack[j] < st.arena.len()
    &&& st.arena.len() > 0 ==> 0 <= st.head < st.arena.len()
}

/// Build the flat arena tree from the token sequence in one left-to-right
/// pass, reporting unbalanced parentheses.
pub fn hierarchize(symbols: &Vec<String>) -> (r: Result<SyntaxTree, ExprError>)
    ensures
        match r {
            Ok(t) => hierarchize_spec(symbols.deep_view()) == Ok::<SyntaxTreeView, ErrorView>(t@)
                && tree_wf(t@),
            Err(e) => hierarchize_spec(symbols.deep_view()) == Err::<SyntaxTreeView, ErrorView>(
                e@,
            ),
        },
{
    let ghost toks = symbols.deep_view();
    let mut arena: Vec<IndexNode> = Vec::new();
    let mut stack: Vec<usize> = Vec::new();
    let mut head_index: usize = 0;
    let lparen = String::from_str("(");
    let rparen = String::from_str(")");
    let n = symbols.len();
    let mut i: usize = 0;
    proof {
        assert(toks.skip(0) =~= toks);
        assert(cur_state(&arena, &stack, head_index) =~~= init_state());
    }
    while i < n
        invariant
            n == symbols@.len(),
            toks == symbols.deep_view(),
            i <= n,
            lparen@ == "("@,
            rparen@ == ")"@,
            state_wf(cur_state(&arena, &stack, head_index)),
            build_from(init_state(), toks) == build_from(
                cur_state(&arena, &stack, head_index),
                toks.skip(i as int),
            ),
        decreases n - i,
    {
        let ghost st = cur_state(&arena, &stack, head_index);
        let ghost rest = toks.skip(i as int);
        proof {
            assert(rest[0] == toks[i as int]);
            assert(rest.drop_first() =~= toks.skip(i + 1));
            assert(symbols@[i as int]@ == toks[i as int]);
        }
        let token = &symbols[i];
        if *token == lparen {
            // a pure marker: the matching function node is already open
        } else if *token == rparen {
            if stack.pop().is_none() {
                proof {
                    assert(build_step(st, rest[0]) is None);
                }
                return Err(ExprError::UnbalancedParentheses);
            }
            proof {
                assert(cur_state(&arena, &stack, head_index).stack =~= st.stack.drop_last());
                assert(cur_state(&arena, &stack, head_index) =~~= build_step(
                    st,
                    rest[0],
                ).unwrap());
            }
        } else {
            let function = parse_symbol(token);
            let leaf = is_value(&function);
            let current_node = IndexNode { symbol: function, children: Vec::new() };
            arena.push(current_node);
            let current_index = arena.len() - 1;
            proof {
                assert(arena@.map_values(|nd: IndexNode| nd@) =~~= st.arena.push(
                    FlatNodeView { sym: classify(rest[0]), children: Seq::empty() },
                ));
            }
            if stack.len() > 0 {
                let parent_index = stack[stack.len() - 1];
                arena[parent_index].add_child(current_index);
                if !leaf {
                    stack.push(current_index);
                }
                proof {
                    assert(cur_state(&arena, &stack, head_index).arena =~~= build_step(
                        st,
                        rest[0],
                    ).unwrap().arena);
                    assert(cur_state(&arena, &stack, head_index) =~~= build_step(
                        st,
                        rest[0],
                    ).unwrap());
                }
            } else {
                head_index = current_index;
                if !leaf {
                    stack.push(current_index);
                }
                proof {
                    assert(cur_state(&arena, &stack, head_index) =~~= build_step(
                        st,
                        rest[0],
                    ).unwrap());
                }
            }
        }
        i = i + 1;
    }
    proof {
        assert(toks.skip(n as int).len() == 0);
    }
    if stack.len() > 0 {
        return Err(ExprError::UnbalancedParentheses);
    }
    let tree = SyntaxTree { head: head_index, arena };
    proof {
        assert(tree@ =~~= SyntaxTreeView {
            head: cur_state(&tree.arena, &stack, head_index).head,
            arena: cur_state(&tree.arena, &stack, head_index).arena,
        });
    }
    Ok(tree)
}

/// The builder state the executable loop's locals stand for.
pub open spec fn cur_state(arena: &Vec<IndexNode>, stack: &Vec<usize>, head: usize) -> BuildState {
    BuildState {
        arena: arena@.map_values(|n: IndexNode| n@),
        stack: stack@.map_values(|x: usize| x as int),
        head: head as int,
    }
}

} // verus!
