//! Laws of the pipeline, stated and proved over the spec-level models:
//! counting lemmas for the builder and the node-count law for
//! materialization of well-formed expressions.

use vstd::prelude::*;

use crate::arena::arena_wf;
use crate::arena::build_from;
use crate::arena::build_step;
use crate::arena::hierarchize_spec;
use crate::arena::init_state;
use crate::arena::state_wf;
use crate::arena::BuildState;
use crate::arena::FlatNodeView;
use crate::symbols::classify;
use crate::symbols::is_value_spec;
use crate::tokenizer::tokenize_spec;
use crate::tree::mat;
use crate::tree::TreeView;

verus! {

/// The number of non-parenthesis tokens: exactly the tokens the builder
/// turns into arena nodes.
pub open spec fn count_nodes(toks: Seq<Seq<char>>) -> int
    decreases toks.len(),
{
    if toks.len() == 0 {
        0
    } else {
        (if toks[0] == "("@ || toks[0] == ")"@ {
            0int
        } else {
            1int
        }) + count_nodes(toks.drop_first())
    }
}

/// Counting nodes distributes over concatenation.
pub proof fn lemma_count_concat(a: Seq<Seq<char>>, b: Seq<Seq<char>>)
    ensures
        count_nodes(a + b) == count_nodes(a) + count_nodes(b),
    decreases a.len(),
{
    if a.len() == 0 {
        assert(a + b =~= b);
    } else {
        lemma_count_concat(a.drop_first(), b);
        assert((a + b).drop_first() =~= a.drop_first() + b);
        assert((a + b)[0] == a[0]);
    }
}

/// Building over a concatenation is building over the parts in turn.
pub proof fn lemma_build_concat(st: BuildState, a: Seq<Seq<char>>, b: Seq<Seq<char>>)
    ensures
        build_from(st, a + b) == match build_from(st, a) {
            None => None::<BuildState>,
            Some(m) => build_from(m, b),
        },
    decreases a.len(),
{
    if a.len() == 0 {
        assert(a + b =~= b);
    } else {
        assert((a + b)[0] == a[0]);
        assert((a + b).drop_first() =~= a.drop_first() + b);
        match build_step(st, a[0]) {
            None => {},
            Some(m) => {
                lemma_build_concat(m, a.drop_first(), b);
            },
        }
    }
}

/// No token sequence counts a negative number of nodes.
pub proof fn lemma_count_nonneg(toks: Seq<Seq<char>>)
    ensures
        count_nodes(toks) >= 0,
    decreases toks.len(),
{
    if toks.len() > 0 {
        lemma_count_nonneg(toks.drop_first());
    }
}

/// One build step keeps the state well-formed, and appends exactly one
/// arena node when the token is not a parenthesis (and none otherwise).
pub proof fn lemma_step_wf(st: BuildState, tok: Seq<char>)
    requires
        state_wf(st),
        build_step(st, tok) is Some,
    ensures
        state_wf(build_step(st, tok).unwrap()),
        build_step(st, tok).unwrap().arena.len() == st.arena.len() + (if tok == "("@ || tok
            == ")"@ {
            0int
        } else {
            1int
        }),
        tok != "("@ && tok != ")"@ ==> {
            let m = build_step(st, tok).unwrap();
            let idx = st.arena.len() as int;
            &&& m.arena[idx] == (FlatNodeView { sym: classify(tok), children: Seq::empty() })
            &&& (forall|j: int|
                0 <= j < idx && !(st.stack.len() > 0 && j == st.stack.last())
                    ==> m.arena[j] == st.arena[j])
            &&& (st.stack.len() > 0 ==> m.arena[st.stack.last()] == (FlatNodeView {
                sym: st.arena[st.stack.last()].sym,
                children: st.arena[st.stack.last()].children.push(idx),
            }))
            &&& m.stack == (if is_value_spec(classify(tok)) {
                st.stack
            } else {
                st.stack.push(idx)
            })
            &&& m.head == (if st.stack.len() == 0 {
                idx
            } else {
                st.head
            })
        },
{
    let m = build_step(st, tok).unwrap();
    if tok == "("@ || tok == ")"@ {
        assert(forall|j: int|
            0 <= j < m.stack.len() ==> 0 <= #[trigger] m.stack[j] < m.arena.len());
    } else {
        let sym = classify(tok);
        let idx = st.arena.len() as int;
        let w = st.arena.push(FlatNodeView { sym, children: Seq::empty() });
        assert(w.len() == idx + 1);
        assert(forall|j: int| 0 <= j < idx ==> w[j] == st.arena[j]);
        assert(w[idx].children.len() == 0);
        if st.stack.len() > 0 {
            let p = st.stack.last();
            let parent = w[p];
            let a2 = w.update(
                p,
                FlatNodeView { sym: parent.sym, children: parent.children.push(idx) },
            );
            assert(m.arena == a2);
            assert(a2.len() == w.len());
            assert(forall|j: int| 0 <= j < a2.len() && j != p ==> a2[j] == w[j]);
            assert(a2[p].children =~= st.arena[p].children.push(idx));
            assert(a2[p] =~~= FlatNodeView {
                sym: st.arena[p].sym,
                children: st.arena[p].children.push(idx),
            });
            assert(arena_wf(a2)) by {
                assert forall|i2: int, k: int|
                    0 <= i2 < a2.len() && 0 <= k < a2[i2].children.len() implies i2
                    < #[trigger] a2[i2].children[k] < a2.len() by {
                    if i2 == p {
                        if k < st.arena[p].children.len() {
                            assert(a2[p].children[k] == st.arena[p].children[k]);
                        } else {
                            assert(a2[p].children[k] == idx);
                        }
                    } else if i2 < idx {
                        assert(a2[i2] == st.arena[i2]);
                    }
                }
            }
        } else {
            assert(m.arena == w);
            assert(arena_wf(w)) by {
                assert forall|i2: int, k: int|
                    0 <= i2 < w.len() && 0 <= k < w[i2].children.len() implies i2
                    < #[trigger] w[i2].children[k] < w.len() by {
                    if i2 < idx {
                        assert(w[i2] == st.arena[i2]);
                    }
                }
            }
        }
        assert(forall|j: int|
            0 <= j < m.stack.len() ==> 0 <= #[trigger] m.stack[j] < m.arena.len());
    }
}

/// A successful build appends exactly one arena node per non-parenthesis
/// token.
pub proof fn lemma_build_count(st: BuildState, toks: Seq<Seq<char>>)
    requires
        state_wf(st),
        build_from(st, toks) is Some,
    ensures
        build_from(st, toks).unwrap().arena.len() == st.arena.len() + count_nodes(toks),
    decreases toks.len(),
{
    if toks.len() > 0 {
        let m = build_step(st, toks[0]).unwrap();
        lemma_step_wf(st, toks[0]);
        lemma_build_count(m, toks.drop_first());
    }
}

/// The number of nodes of a tree.
pub open spec fn tree_size(t: TreeView) -> int
    decreases t, 1int,
{
    1 + size_list(t.children)
}

/// The total number of nodes of a list of trees.
pub open spec fn size_list(ts: Seq<TreeView>) -> int
    decreases ts, 0int,
{
    if ts.len() == 0 {
        0
    } else {
        tree_size(ts[0]) + size_list(ts.drop_first())
    }
}

/// The materializations of the trees rooted at the given arena indices.
pub open spec fn mat_children(arena: Seq<FlatNodeView>, cs: Seq<int>) -> Seq<TreeView> {
    Seq::new(cs.len(), |k: int| mat(arena, cs[k]))
}

/// Materialization unfolded: the node's symbol with the materializations
/// of its children.
pub proof fn lemma_mat_unfold(arena: Seq<FlatNodeView>, i: int)
    requires
        0 <= i < arena.len(),
        forall|k: int|
            0 <= k < arena[i].children.len() ==> i < #[trigger] arena[i].children[k] < arena.len(),
    ensures
        mat(arena, i) == (TreeView {
            sym: arena[i].sym,
            children: mat_children(arena, arena[i].children),
        }),
{
    assert(mat(arena, i).children =~= mat_children(arena, arena[i].children));
    assert(mat(arena, i) =~~= TreeView {
        sym: arena[i].sym,
        children: mat_children(arena, arena[i].children),
    });
}

/// A leaf token: not a parenthesis, and classified as a leaf value.
pub open spec fn is_leaf_tok(t: Seq<char>) -> bool {
    t != "("@ && t != ")"@ && is_value_spec(classify(t))
}

/// An operator token: not a parenthesis, and classified as anything but a
/// leaf value.
pub open spec fn is_op_tok(t: Seq<char>) -> bool {
    t != "("@ && t != ")"@ && !is_value_spec(classify(t))
}

/// The token length of the single well-formed expression starting at `i`:
/// a leaf token alone, or an operator token followed by a parenthesized
/// argument list; `-1` where no well-formed expression starts at `i`.
pub open spec fn expr_len(toks: Seq<Seq<char>>, i: int) -> int
    decreases toks.len() - i, 0int,
{
    if i < 0 || i >= toks.len() {
        -1
    } else if is_leaf_tok(toks[i]) {
        1
    } else if is_op_tok(toks[i]) && i + 1 < toks.len() && toks[i + 1] == "("@ {
        let e = args_end(toks, i + 2);
        if e >= 0 {
            e + 1 - i
        } else {
            -1
        }
    } else {
        -1
    }
}

/// The index of the `)` that closes the sequence of well-formed argument
/// expressions starting at `i`, or `-1` where there is none.
pub open spec fn args_end(toks: Seq<Seq<char>>, i: int) -> int
    decreases toks.len() - i, 1int,
{
    if i < 0 || i >= toks.len() {
        -1
    } else if toks[i] == ")"@ {
        i
    } else {
        let l = expr_len(toks, i);
        if l < 1 || i + l > toks.len() {
            -1
        } else {
            args_end(toks, i + l)
        }
    }
}

/// A well-formed expression starting at `i` stays within the tokens.
pub proof fn lemma_expr_len_bounds(toks: Seq<Seq<char>>, i: int)
    requires
        expr_len(toks, i) >= 1,
    ensures
        0 <= i < toks.len(),
        i + expr_len(toks, i) <= toks.len(),
    decreases toks.len() - i, 0int,
{
    if !is_leaf_tok(toks[i]) {
        lemma_args_end_bounds(toks, i + 2);
    }
}

/// A closed argument list ends at a `)` within the tokens.
pub proof fn lemma_args_end_bounds(toks: Seq<Seq<char>>, i: int)
    requires
        args_end(toks, i) >= 0,
    ensures
        0 <= i <= args_end(toks, i) < toks.len(),
        toks[args_end(toks, i)] == ")"@,
    decreases toks.len() - i, 1int,
{
    if i < toks.len() && toks[i] != ")"@ {
        lemma_expr_len_bounds(toks, i);
        lemma_args_end_bounds(toks, i + expr_len(toks, i));
    }
}

/// Every child pointer of a node in `[lo, hi)` stays past its parent and
/// below `hi`.
pub open spec fn closed_range(a: Seq<FlatNodeView>, lo: int, hi: int) -> bool {
    forall|j: int, k: int|
        lo <= j < hi && 0 <= k < a[j].children.len() ==> j < #[trigger] a[j].children[k] < hi
}

/// Materialization only reads the entries a closed range holds: two arenas
/// that agree on it materialize its trees identically.
pub proof fn lemma_mat_frame(a1: Seq<FlatNodeView>, a2: Seq<FlatNodeView>, i: int, hi: int)
    requires
        0 <= i < hi,
        hi <= a1.len(),
        hi <= a2.len(),
        forall|j: int| i <= j < hi ==> a1[j] == a2[j],
        closed_range(a1, i, hi),
    ensures
        mat(a2, i) == mat(a1, i),
    decreases hi - i,
{
    assert(a2[i] == a1[i]);
    assert forall|k: int| 0 <= k < a1[i].children.len() implies i < #[trigger] a1[i].children[k]
        < hi by {}
    assert forall|k: int| 0 <= k < a1[i].children.len() implies mat(
        a1,
        a1[i].children[k],
    ) == mat(a2, a2[i].children[k]) by {
        let c = a1[i].children[k];
        lemma_mat_frame(a1, a2, c, hi);
    }
    assert(mat(a1, i).children =~= mat(a2, i).children);
    assert(mat(a1, i) =~~= mat(a2, i));
}

/// One more tree at the front of a list adds its size.
pub proof fn lemma_size_list_cons(x: TreeView, s: Seq<TreeView>)
    ensures
        size_list(seq![x] + s) == tree_size(x) + size_list(s),
{
    assert((seq![x] + s)[0] == x);
    assert((seq![x] + s).drop_first() =~= s);
}

/// Processing one well-formed expression from any well-formed builder state
/// appends exactly one arena node per non-parenthesis token of the
/// expression, roots them at the next free index, attaches that root to the
/// innermost open parent (or makes it the head), leaves the stack as it
/// was, and materializes at the root to a tree of exactly that many nodes.
pub proof fn lemma_expr_builds(toks: Seq<Seq<char>>, i: int, st: BuildState) -> (m: BuildState)
    requires
        state_wf(st),
        expr_len(toks, i) >= 1,
    ensures
        build_from(st, toks.subrange(i, i + expr_len(toks, i))) == Some(m),
        state_wf(m),
        m.stack == st.stack,
        m.head == (if st.stack.len() == 0 {
            st.arena.len() as int
        } else {
            st.head
        }),
        m.arena.len() == st.arena.len() + count_nodes(toks.subrange(i, i + expr_len(toks, i))),
        m.arena.len() > st.arena.len(),
        forall|j: int|
            0 <= j < st.arena.len() && !(st.stack.len() > 0 && j == st.stack.last())
                ==> m.arena[j] == st.arena[j],
        st.stack.len() > 0 ==> m.arena[st.stack.last()] == (FlatNodeView {
            sym: st.arena[st.stack.last()].sym,
            children: st.arena[st.stack.last()].children.push(st.arena.len() as int),
        }),
        tree_size(mat(m.arena, st.arena.len() as int)) == count_nodes(
            toks.subrange(i, i + expr_len(toks, i)),
        ),
    decreases toks.len() - i, 0int,
{
    lemma_expr_len_bounds(toks, i);
    let l = expr_len(toks, i);
    let r = st.arena.len() as int;
    let sub = toks.subrange(i, i + l);
    if is_leaf_tok(toks[i]) {
        assert(sub =~= seq![toks[i]]);
        assert(build_step(st, toks[i]) is Some);
        let m = build_step(st, toks[i]).unwrap();
        lemma_step_wf(st, toks[i]);
        assert(sub.drop_first() =~= Seq::<Seq<char>>::empty());
        assert(build_from(m, Seq::<Seq<char>>::empty()) == Some(m));
        assert(sub[0] == toks[i]);
        assert(build_from(st, sub) == Some(m));
        assert(count_nodes(Seq::<Seq<char>>::empty()) == 0);
        assert(count_nodes(sub) == 1);
        assert(m.arena[r].children =~= Seq::<int>::empty());
        lemma_mat_unfold(m.arena, r);
        assert(mat_children(m.arena, m.arena[r].children) =~= Seq::<TreeView>::empty());
        assert(tree_size(mat(m.arena, r)) == 1);
        m
    } else {
        let e = args_end(toks, i + 2);
        lemma_args_end_bounds(toks, i + 2);
        reveal_strlit("(");
        reveal_strlit(")");
        assert("("@ != ")"@);
        let tok_op = toks[i];
        let m1 = build_step(st, tok_op).unwrap();
        lemma_step_wf(st, tok_op);
        assert(m1.stack == st.stack.push(r));
        assert(m1.stack.last() == r);
        assert(m1.arena[r].children =~= Seq::<int>::empty());
        assert(m1.arena[r].sym == classify(tok_op));
        let m2 = build_step(m1, toks[i + 1]).unwrap();
        assert(m2 == m1);
        let res = lemma_args_builds(toks, i + 2, m1);
        let m3 = res.0;
        let roots = res.1;
        assert(m3.stack == st.stack.push(r));
        assert(m3.arena[r].children =~= roots);
        assert(build_step(m3, toks[e]) is Some);
        let m4 = build_step(m3, toks[e]).unwrap();
        assert(m4.arena == m3.arena);
        assert(m4.stack == m3.stack.drop_last());
        assert(st.stack.push(r).drop_last() =~= st.stack);
        assert(m4.stack =~= st.stack);
        assert(m4.head == m3.head);
        // assemble build_from over the decomposition of the expression
        let pa = toks.subrange(i, i + 1);
        let pb = toks.subrange(i + 1, i + 2);
        let pc = toks.subrange(i + 2, e);
        let pd = toks.subrange(e, e + 1);
        assert(pa =~= seq![toks[i]]);
        assert(pb =~= seq![toks[i + 1]]);
        assert(pd =~= seq![toks[e]]);
        assert(pa.drop_first() =~= Seq::<Seq<char>>::empty());
        assert(pb.drop_first() =~= Seq::<Seq<char>>::empty());
        assert(pd.drop_first() =~= Seq::<Seq<char>>::empty());
        assert(build_from(m1, Seq::<Seq<char>>::empty()) == Some(m1));
        assert(build_from(m4, Seq::<Seq<char>>::empty()) == Some(m4));
        assert(pa[0] == toks[i] && pb[0] == toks[i + 1] && pd[0] == toks[e]);
        assert(build_from(st, pa) == Some(m1));
        assert(build_from(m1, pb) == Some(m1));
        assert(build_from(m3, pd) == Some(m4));
        lemma_build_concat(m1, pc, pd);
        assert(pc + pd =~= toks.subrange(i + 2, e + 1));
        lemma_build_concat(m1, pb, toks.subrange(i + 2, e + 1));
        assert(pb + toks.subrange(i + 2, e + 1) =~= toks.subrange(i + 1, e + 1));
        lemma_build_concat(st, pa, toks.subrange(i + 1, e + 1));
        assert(pa + toks.subrange(i + 1, e + 1) =~= sub);
        assert(build_from(st, sub) == Some(m4));
        // one node per non-parenthesis token
        lemma_count_concat(pc, pd);
        lemma_count_concat(pb, toks.subrange(i + 2, e + 1));
        lemma_count_concat(pa, toks.subrange(i + 1, e + 1));
        assert(count_nodes(Seq::<Seq<char>>::empty()) == 0);
        assert(count_nodes(pa) == 1);
        assert(count_nodes(pb) == 0);
        assert(count_nodes(pd) == 0);
        assert(count_nodes(sub) == 1 + count_nodes(pc));
        // the materialized subtree at the new root
        lemma_mat_unfold(m4.arena, r);
        assert(mat_children(m4.arena, m4.arena[r].children) =~= mat_children(m3.arena, roots));
        assert(tree_size(mat(m4.arena, r)) == 1 + size_list(mat_children(m3.arena, roots)));
        m4
    }
}

/// Processing the well-formed argument expressions up to their closing `)`
/// appends their subtrees to the arena, attaches their roots, in order, to
/// the innermost open parent and to nothing else, and the materialized
/// subtrees at those roots together hold one node per non-parenthesis
/// token of the argument range.
pub proof fn lemma_args_builds(toks: Seq<Seq<char>>, i: int, st: BuildState) -> (res: (
    BuildState,
    Seq<int>,
))
    requires
        state_wf(st),
        args_end(toks, i) >= 0,
        st.stack.len() > 0,
    ensures
        build_from(st, toks.subrange(i, args_end(toks, i))) == Some(res.0),
        state_wf(res.0),
        res.0.stack == st.stack,
        res.0.head == st.head,
        res.0.arena.len() == st.arena.len() + count_nodes(toks.subrange(i, args_end(toks, i))),
        forall|j: int|
            0 <= j < st.arena.len() && j != st.stack.last() ==> res.0.arena[j] == st.arena[j],
        res.0.arena[st.stack.last()].sym == st.arena[st.stack.last()].sym,
        res.0.arena[st.stack.last()].children == st.arena[st.stack.last()].children + res.1,
        size_list(mat_children(res.0.arena, res.1)) == count_nodes(
            toks.subrange(i, args_end(toks, i)),
        ),
    decreases toks.len() - i, 1int,
{
    let e = args_end(toks, i);
    lemma_args_end_bounds(toks, i);
    let p = st.stack.last();
    if toks[i] == ")"@ {
        let roots = Seq::<int>::empty();
        assert(toks.subrange(i, i) =~= Seq::<Seq<char>>::empty());
        assert(st.arena[p].children =~= st.arena[p].children + roots);
        assert(mat_children(st.arena, roots) =~= Seq::<TreeView>::empty());
        (st, roots)
    } else {
        let l = expr_len(toks, i);
        lemma_expr_len_bounds(toks, i);
        lemma_args_end_bounds(toks, i + l);
        let r1 = st.arena.len() as int;
        let m1 = lemma_expr_builds(toks, i, st);
        let res2 = lemma_args_builds(toks, i + l, m1);
        lemma_count_nonneg(toks.subrange(i + l, e));
        assert(0 <= st.stack.last() < st.arena.len());
        let m2 = res2.0;
        let rest = res2.1;
        let roots = seq![r1] + rest;
        lemma_build_concat(st, toks.subrange(i, i + l), toks.subrange(i + l, e));
        assert(toks.subrange(i, i + l) + toks.subrange(i + l, e) =~= toks.subrange(i, e));
        lemma_count_concat(toks.subrange(i, i + l), toks.subrange(i + l, e));
        // the parent's children: the first root, then the rest
        assert(m1.arena[p].children == st.arena[p].children.push(r1));
        assert(m2.arena[p].children =~= st.arena[p].children + roots);
        // the first root's subtree is not touched by the later arguments
        assert(forall|j: int| r1 <= j < m1.arena.len() ==> m2.arena[j] == m1.arena[j]);
        lemma_mat_frame(m1.arena, m2.arena, r1, m1.arena.len() as int);
        // total size: the first subtree plus the rest
        assert(mat_children(m2.arena, roots) =~= seq![mat(m2.arena, r1)] + mat_children(
            m2.arena,
            rest,
        ));
        lemma_size_list_cons(mat(m2.arena, r1), mat_children(m2.arena, rest));
        (m2, roots)
    }
}

/// For every well-formed expression token sequence, building succeeds and
/// the tree materialized at the head holds exactly one node per
/// non-parenthesis token.
pub proof fn lemma_node_count(toks: Seq<Seq<char>>)
    requires
        toks.len() > 0,
        expr_len(toks, 0) == toks.len(),
    ensures
        hierarchize_spec(toks) is Ok,
        tree_size(
            mat(
                (hierarchize_spec(toks)->Ok_0).arena,
                (hierarchize_spec(toks)->Ok_0).head,
            ),
        ) == count_nodes(toks),
{
    let st = init_state();
    assert(state_wf(st));
    let m = lemma_expr_builds(toks, 0, st);
    assert(toks.subrange(0, toks.len() as int) =~= toks);
    assert(build_from(st, toks) == Some(m));
    assert(m.stack.len() == 0);
    assert(m.head == 0);
}

/// For every expression string whose tokens form one well-formed
/// expression, materializing the built arena of its tokens yields a tree
/// whose node count equals the number of its non-parenthesis tokens.
pub proof fn lemma_pipeline_node_count(s: Seq<char>)
    requires
        tokenize_spec(s).len() > 0,
        expr_len(tokenize_spec(s), 0) == tokenize_spec(s).len(),
    ensures
        hierarchize_spec(tokenize_spec(s)) is Ok,
        tree_size(
            mat(
                (hierarchize_spec(tokenize_spec(s))->Ok_0).arena,
                (hierarchize_spec(tokenize_spec(s))->Ok_0).head,
            ),
        ) == count_nodes(tokenize_spec(s)),
{
    lemma_node_count(tokenize_spec(s));
}

} // verus!

