//! Rendering a tree back to parenthesized text: a leaf as its literal
//! payload, any other node as its symbol's name followed by its rendered
//! children, comma-space separated, in parentheses.

use vstd::prelude::*;
use vstd::string::StringExecFns;

use crate::symbols::is_value;
use crate::symbols::is_value_spec;
use crate::symbols::Symbol;
use crate::symbols::SymbolView;
use crate::tree::node_view;
use crate::tree::SyntaxNode;
use crate::tree::TreeView;

verus! {

/// The printed name of a symbol; for a leaf value, its literal text.
pub open spec fn symbol_name(s: SymbolView) -> Seq<char> {
    match s {
        SymbolView::Null => "NULLSYMBOL"@,
        SymbolView::Add => "ADD"@,
        SymbolView::Subtract => "SUBTRACT"@,
        SymbolView::Negate => "NEGATE"@,
        SymbolView::Multiply => "MULTIPLY"@,
        SymbolView::Divide => "DIVIDE"@,
        SymbolView::Sin => "SIN"@,
        SymbolView::Cos => "COS"@,
        SymbolView::Constant(t) => t,
        SymbolView::Variable(t) => t,
        SymbolView::Derivative => "DERIVATIVE"@,
        SymbolView::NumericalDerivative => "NUMERICAL_DERIVATIVE"@,
        SymbolView::Unknown => "UNKNOWN"@,
    }
}

/// The given pieces of text joined with a comma and a space.
pub open spec fn joined(parts: Seq<Seq<char>>) -> Seq<char>
    decreases parts.len(),
{
    if parts.len() == 0 {
        Seq::<char>::empty()
    } else if parts.len() == 1 {
        parts[0]
    } else {
        parts[0] + ", "@ + joined(parts.drop_first())
    }
}

/// Joining one more piece appends a separator (unless it is the first)
/// and the piece.
pub proof fn lemma_joined_snoc(parts: Seq<Seq<char>>)
    requires
        parts.len() > 0,
    ensures
        parts.len() == 1 ==> joined(parts) == parts.last(),
        parts.len() > 1 ==> joined(parts) == joined(parts.drop_last()) + ", "@ + parts.last(),
    decreases parts.len(),
{
    if parts.len() > 1 {
        lemma_joined_snoc(parts.drop_first());
        assert(parts.drop_first().drop_last() =~= parts.drop_last().drop_first());
        assert(parts.drop_first().last() == parts.last());
        if parts.len() == 2 {
            assert(parts.drop_last().len() == 1);
            assert(parts.drop_last()[0] == parts[0]);
        } else {
            assert(parts.drop_last()[0] == parts[0]);
        }
    }
}

/// The rendered text of a tree: a leaf is its literal payload text, any
/// other node is its symbol's name with its rendered children, comma-space
/// separated, in parentheses.
pub open spec fn render(t: TreeView) -> Seq<char>
    decreases t, 1int,
{
    if is_value_spec(t.sym) {
        symbol_name(t.sym)
    } else {
        symbol_name(t.sym) + "("@ + joined(rendered_children(t)) + ")"@
    }
}

/// The rendered texts of a tree's children, in order.
pub open spec fn rendered_children(t: TreeView) -> Seq<Seq<char>>
    decreases t, 0int,
{
    Seq::new(
        t.children.len(),
        |k: int|
            if 0 <= k < t.children.len() {
                render(t.children[k])
            } else {
                Seq::<char>::empty()
            },
    )
}

/// The printed name of a symbol, executably.
fn symbol_name_exec(s: &Symbol) -> (r: String)
    ensures
        r@ == symbol_name(s@),
{
    match s {
        Symbol::NULLSYMBOL => String::from_str("NULLSYMBOL"),
        Symbol::ADD => String::from_str("ADD"),
        Symbol::SUBTRACT => String::from_str("SUBTRACT"),
        Symbol::NEGATE => String::from_str("NEGATE"),
        Symbol::MULTIPLY => String::from_str("MULTIPLY"),
        Symbol::DIVIDE => String::from_str("DIVIDE"),
        Symbol::SIN => String::from_str("SIN"),
        Symbol::COS => String::from_str("COS"),
        Symbol::CONSTANT(t) => t.clone(),
        Symbol::VARIABLE(t) => t.clone(),
        Symbol::DERIVATIVE => String::from_str("DERIVATIVE"),
        Symbol::NUMERICAL_DERIVATIVE => String::from_str("NUMERICAL_DERIVATIVE"),
        Symbol::UNKNOWN => String::from_str("UNKNOWN"),
    }
}

/// Render a tree node to text.
pub fn print_tree(node: &SyntaxNode) -> (s: String)
    ensures
        s@ == render(node@),
    decreases node@,
{
    let ghost t = node@;
    let ghost parts = rendered_children(t);
    if is_value(&node.symbol) {
        let r = symbol_name_exec(&node.symbol);
        return r;
    }
    let mut s = symbol_name_exec(&node.symbol);
    s.append("(");
    let num = node.children.len();
    let mut k: usize = 0;
    proof {
        assert(parts.take(0) =~= Seq::<Seq<char>>::empty());
        assert(s@ =~= symbol_name(t.sym) + "("@ + joined(parts.take(0)));
    }
    while k < num
        invariant
            t == node@,
            parts == rendered_children(t),
            num == node.children@.len(),
            num == t.children.len(),
            k <= num,
            s@ == symbol_name(t.sym) + "("@ + joined(parts.take(k as int)),
        decreases num - k,
    {
        if k > 0 {
            s.append(", ");
        }
        proof {
            assert(node.children@[k as int]@ == t.children[k as int]);
            assert(decreases_to!(t => t.children));
            assert(decreases_to!(t.children => t.children[k as int]));
        }
        let rendered = print_tree(&node.children[k]);
        s.append(rendered.as_str());
        k = k + 1;
        proof {
            lemma_joined_snoc(parts.take(k as int));
            assert(parts.take(k as int).drop_last() =~= parts.take(k - 1));
            assert(parts.take(k as int).last() == render(t.children[k - 1]));
            assert(s@ =~= symbol_name(t.sym) + "("@ + joined(parts.take(k as int)));
        }
    }
    s.append(")");
    proof {
        assert(!is_value_spec(t.sym));
        assert(parts.take(num as int) =~= parts);
        assert(joined(parts.take(num as int)) == joined(parts));
        assert(s@ =~= symbol_name(t.sym) + "("@ + joined(parts) + ")"@);
        assert(s@ =~= render(t));
    }
    s
}

} // verus!
