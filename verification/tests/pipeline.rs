use std::rc::Rc;

use symdiff::arena::hierarchize;
use symdiff::differentiate;
use symdiff::engine::derivative;
use symdiff::errors::ExprError;
use symdiff::printer::print_tree;
use symdiff::tokenizer::break_into_symbols;
use symdiff::tree::structure_tree;
use symdiff::Symbol;
use symdiff::SyntaxNode;

fn node_count(n: &SyntaxNode) -> usize {
    let mut total = 1;
    for child in n.children.iter() {
        total += node_count(child);
    }
    total
}

#[test]
fn product_rule() {
    assert_eq!(
        differentiate(&"multiply(x,x)".to_string()).unwrap(),
        "ADD(MULTIPLY(1, x), MULTIPLY(x, 1))"
    );
}

#[test]
fn chain_rule_on_sine() {
    assert_eq!(differentiate(&"sin(x)".to_string()).unwrap(), "MULTIPLY(COS(x), 1)");
}

#[test]
fn quotient_rule() {
    assert_eq!(
        differentiate(&"divide(x,2)".to_string()).unwrap(),
        "DIVIDE(SUBTRACT(MULTIPLY(1, 2), MULTIPLY(x, 0)), MULTIPLY(2, 2))"
    );
}

#[test]
fn linearity_of_addition() {
    assert_eq!(
        differentiate(&"add(x,subtract(x,2))".to_string()).unwrap(),
        "ADD(1, SUBTRACT(1, 0))"
    );
}

#[test]
fn nested_chain_rule() {
    assert_eq!(
        differentiate(&"sin(add(sin(z),2))".to_string()).unwrap(),
        "MULTIPLY(COS(ADD(SIN(z), 2)), ADD(MULTIPLY(COS(z), 1), 0))"
    );
}

#[test]
fn missing_close_paren_is_unbalanced() {
    assert_eq!(
        differentiate(&"add(x,2".to_string()),
        Err(ExprError::UnbalancedParentheses)
    );
}

#[test]
fn extra_close_paren_is_unbalanced() {
    assert_eq!(
        differentiate(&"add(x,2))".to_string()),
        Err(ExprError::UnbalancedParentheses)
    );
}

#[test]
fn empty_expression_is_reported() {
    assert_eq!(differentiate(&"".to_string()), Err(ExprError::EmptyExpression));
    assert_eq!(differentiate(&" ; ".to_string()), Err(ExprError::EmptyExpression));
}

#[test]
fn unknown_symbol_has_no_rule() {
    assert_eq!(
        differentiate(&"foo(x)".to_string()),
        Err(ExprError::NoRule(Symbol::UNKNOWN))
    );
}

#[test]
fn unknown_node_fed_to_the_engine_is_reported() {
    let node = SyntaxNode { symbol: Symbol::UNKNOWN, children: vec![] };
    let result = derivative(&Rc::new(node));
    assert!(matches!(result, Err(ExprError::NoRule(Symbol::UNKNOWN))));
}

#[test]
fn arity_is_validated_before_rewriting() {
    assert_eq!(
        differentiate(&"multiply(x)".to_string()),
        Err(ExprError::ArityMismatch { expected: 2, found: 1 })
    );
    assert_eq!(
        differentiate(&"sin(x,x)".to_string()),
        Err(ExprError::ArityMismatch { expected: 1, found: 2 })
    );
}

#[test]
fn negation_has_no_rule() {
    assert_eq!(
        differentiate(&"negate(x)".to_string()),
        Err(ExprError::NoRule(Symbol::NEGATE))
    );
}

#[test]
fn cosine_rule_is_reported_unimplemented() {
    assert_eq!(
        differentiate(&"cos(x)".to_string()),
        Err(ExprError::UnimplementedRule(Symbol::COS))
    );
}

#[test]
fn constant_and_variable_derivatives() {
    let c = SyntaxNode { symbol: Symbol::CONSTANT("17.5".to_string()), children: vec![] };
    let dc = derivative(&Rc::new(c)).unwrap();
    assert_eq!(dc.symbol, Symbol::CONSTANT("0".to_string()));
    assert!(dc.children.is_empty());

    let v = SyntaxNode { symbol: Symbol::VARIABLE("anything".to_string()), children: vec![] };
    let dv = derivative(&Rc::new(v)).unwrap();
    assert_eq!(dv.symbol, Symbol::CONSTANT("1".to_string()));

    // repeated differentiation settles at the zero constant
    let ddv = derivative(&dv).unwrap();
    assert_eq!(ddv.symbol, Symbol::CONSTANT("0".to_string()));
    let dddv = derivative(&ddv).unwrap();
    assert_eq!(dddv.symbol, Symbol::CONSTANT("0".to_string()));
}

#[test]
fn materialized_node_count_matches_non_paren_tokens() {
    for expr in ["add(x,3)", "sin(add(sin(z),2))", "divide(multiply(x,y),subtract(x,2))", "x"] {
        let toks = break_into_symbols(&expr.to_string());
        let non_paren = toks.iter().filter(|t| *t != "(" && *t != ")").count();
        let tree = hierarchize(&toks).unwrap();
        assert_eq!(tree.arena.len(), non_paren);
        let head = structure_tree(&tree).unwrap();
        assert_eq!(node_count(&head), non_paren);
    }
}

#[test]
fn printer_renders_leaves_and_calls() {
    let toks = break_into_symbols(&"sin(add(sin(z),2))".to_string());
    let tree = hierarchize(&toks).unwrap();
    let head = structure_tree(&tree).unwrap();
    assert_eq!(print_tree(&head), "SIN(ADD(SIN(z), 2))");

    let leaf = SyntaxNode { symbol: Symbol::VARIABLE("z".to_string()), children: vec![] };
    assert_eq!(print_tree(&leaf), "z");
}

#[test]
fn arena_mirrors_the_nesting() {
    let toks = break_into_symbols(&"add(x,sin(y))".to_string());
    let tree = hierarchize(&toks).unwrap();
    // nodes in appearance order: add, x, sin, y
    assert_eq!(tree.head, 0);
    assert_eq!(tree.arena[0].symbol, Symbol::ADD);
    assert_eq!(tree.arena[0].children, vec![1, 2]);
    assert_eq!(tree.arena[1].symbol, Symbol::VARIABLE("x".to_string()));
    assert!(tree.arena[1].children.is_empty());
    assert_eq!(tree.arena[2].symbol, Symbol::SIN);
    assert_eq!(tree.arena[2].children, vec![3]);
    assert_eq!(tree.arena[3].symbol, Symbol::VARIABLE("y".to_string()));
}

#[test]
fn derivative_leaves_its_input_unchanged() {
    let toks = break_into_symbols(&"multiply(x,y)".to_string());
    let tree = hierarchize(&toks).unwrap();
    let head = Rc::new(structure_tree(&tree).unwrap());
    let before = print_tree(&head);
    let _ = derivative(&head).unwrap();
    assert_eq!(print_tree(&head), before);
}
