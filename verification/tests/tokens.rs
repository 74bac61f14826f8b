use symdiff::symbols::build_value;
use symdiff::symbols::get_symbol_mapper;
use symdiff::symbols::is_value;
use symdiff::symbols::parse_symbol;
use symdiff::tokenizer::break_into_symbols;
use symdiff::Symbol;

#[test]
fn tokenize_call_expression() {
    let toks = break_into_symbols(&"add(x,3)".to_string());
    assert_eq!(
        toks,
        vec![
            "add".to_string(),
            "(".to_string(),
            "x".to_string(),
            "3".to_string(),
            ")".to_string()
        ]
    );
}

#[test]
fn tokenize_trims_whitespace_and_drops_empty_spans() {
    let toks = break_into_symbols(&"  add ( x ,  3 ) ".to_string());
    assert_eq!(
        toks,
        vec![
            "add".to_string(),
            "(".to_string(),
            "x".to_string(),
            "3".to_string(),
            ")".to_string()
        ]
    );
}

#[test]
fn tokenize_consumes_semicolons() {
    let toks = break_into_symbols(&"x;y,z".to_string());
    assert_eq!(toks, vec!["x".to_string(), "y".to_string(), "z".to_string()]);
}

#[test]
fn tokenize_empty_and_whitespace_only() {
    assert_eq!(break_into_symbols(&"".to_string()), Vec::<String>::new());
    assert_eq!(break_into_symbols(&"   ".to_string()), Vec::<String>::new());
}

#[test]
fn tokenize_unbalanced_just_yields_fewer_paren_tokens() {
    let toks = break_into_symbols(&"add(x,2".to_string());
    assert_eq!(
        toks,
        vec!["add".to_string(), "(".to_string(), "x".to_string(), "2".to_string()]
    );
}

#[test]
fn classify_tokens() {
    assert_eq!(
        parse_symbol(&"3.5".to_string()),
        Symbol::CONSTANT("3.5".to_string())
    );
    assert_eq!(parse_symbol(&"e".to_string()), Symbol::CONSTANT("e".to_string()));
    assert_eq!(parse_symbol(&"x".to_string()), Symbol::VARIABLE("x".to_string()));
    assert_eq!(parse_symbol(&"sin".to_string()), Symbol::SIN);
    assert_eq!(parse_symbol(&"foo".to_string()), Symbol::UNKNOWN);
}

#[test]
fn classify_numeric_forms() {
    for ok in ["1", "007", "3.", ".5", "1e5", "-3.25", "+2E-4", "inf", "-Infinity", "NaN", "pi"] {
        assert!(
            matches!(parse_symbol(&ok.to_string()), Symbol::CONSTANT(_)),
            "expected constant: {}",
            ok
        );
    }
    for bad in ["", ".", "1.2.3", "e5", "1e", "--3", "2f", "x2"] {
        assert!(
            !matches!(parse_symbol(&bad.to_string()), Symbol::CONSTANT(_)),
            "expected no constant: {}",
            bad
        );
    }
}

#[test]
fn classify_variables_and_operators() {
    assert_eq!(parse_symbol(&"y".to_string()), Symbol::VARIABLE("y".to_string()));
    assert_eq!(parse_symbol(&"z".to_string()), Symbol::VARIABLE("z".to_string()));
    assert_eq!(get_symbol_mapper(&"add".to_string()), Symbol::ADD);
    assert_eq!(get_symbol_mapper(&"subtract".to_string()), Symbol::SUBTRACT);
    assert_eq!(get_symbol_mapper(&"negate".to_string()), Symbol::NEGATE);
    assert_eq!(get_symbol_mapper(&"multiply".to_string()), Symbol::MULTIPLY);
    assert_eq!(get_symbol_mapper(&"divide".to_string()), Symbol::DIVIDE);
    assert_eq!(get_symbol_mapper(&"cos".to_string()), Symbol::COS);
    assert_eq!(get_symbol_mapper(&"3.5".to_string()), Symbol::UNKNOWN);
}

#[test]
fn numeric_check_precedes_the_function_table() {
    assert_eq!(build_value(&"sin".to_string()), Symbol::UNKNOWN);
    assert_eq!(
        build_value(&"inf".to_string()),
        Symbol::CONSTANT("inf".to_string())
    );
}

#[test]
fn value_symbols_are_leaves() {
    assert!(is_value(&Symbol::CONSTANT("2".to_string())));
    assert!(is_value(&Symbol::VARIABLE("x".to_string())));
    assert!(!is_value(&Symbol::ADD));
    assert!(!is_value(&Symbol::UNKNOWN));
    assert!(!is_value(&Symbol::NULLSYMBOL));
}
