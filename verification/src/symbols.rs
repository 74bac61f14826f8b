//! The `Symbol` vocabulary and the classification of a token into a symbol.

use vstd::prelude::*;

use crate::text::all_digits;
use crate::text::find_first;
use crate::text::is_digit_char;
use crate::text::lemma_find_first_at;

verus! {

/// Whether the character is an explicit numeric sign.
pub open spec fn is_sign_char(c: char) -> bool {
    c == '+' || c == '-'
}

/// Whether the character introduces an exponent part.
pub open spec fn is_exp_char(c: char) -> bool {
    c == 'e' || c == 'E'
}

/// The sequence with one leading sign character removed, if present.
pub open spec fn strip_sign(s: Seq<char>) -> Seq<char> {
    if s.len() > 0 && is_sign_char(s[0]) {
        s.drop_first()
    } else {
        s
    }
}

/// An ASCII upper-case letter mapped to lower case; anything else unchanged.
pub open spec fn lower_char(c: char) -> char {
    if 'A' <= c && c <= 'Z' {
        ((c as u8) + 32) as char
    } else {
        c
    }
}

/// The sequence with every ASCII upper-case letter mapped to lower case.
pub open spec fn lowered(s: Seq<char>) -> Seq<char> {
    s.map_values(|c: char| lower_char(c))
}

/// The special floating-point words accepted besides ordinary numerals,
/// compared without regard to ASCII case.
pub open spec fn is_special_float_word(s: Seq<char>) -> bool {
    lowered(s) == seq!['i', 'n', 'f'] || lowered(s) == seq!['i', 'n', 'f', 'i', 'n', 'i', 't', 'y']
        || lowered(s) == seq!['n', 'a', 'n']
}

/// A mantissa: digits with at most one decimal point, and at least one
/// digit somewhere.
pub open spec fn is_mantissa(m: Seq<char>) -> bool {
    let d = find_first(m, |c: char| c == '.');
    if d == m.len() {
        m.len() > 0 && all_digits(m)
    } else {
        all_digits(m.subrange(0, d)) && all_digits(m.subrange(d + 1, m.len() as int)) && m.len()
            > 1
    }
}

/// An exponent part: an optional sign followed by at least one digit.
pub open spec fn is_exponent(e: Seq<char>) -> bool {
    let d = strip_sign(e);
    d.len() > 0 && all_digits(d)
}

/// A numeric body: a mantissa, optionally followed by an exponent marker
/// and an exponent part.
pub open spec fn is_number_body(b: Seq<char>) -> bool {
    let x = find_first(b, |c: char| is_exp_char(c));
    if x == b.len() {
        is_mantissa(b)
    } else {
        is_mantissa(b.subrange(0, x)) && is_exponent(b.subrange(x + 1, b.len() as int))
    }
}

/// A floating-point numeral: an optional sign, then either one of the
/// special words (`inf`, `infinity`, `nan`, in any ASCII case) or a
/// numeric body.
pub open spec fn is_float_literal(s: Seq<char>) -> bool {
    let b = strip_sign(s);
    is_special_float_word(b) || is_number_body(b)
}

/// Mathematical model of a [`Symbol`]: the payload of a constant or a
/// variable is modelled as the sequence of its characters.
pub enum SymbolView {
    Null,
    Add,
    Subtract,
    Negate,
    Multiply,
    Divide,
    Sin,
    Cos,
    Constant(Seq<char>),
    Variable(Seq<char>),
    Derivative,
    NumericalDerivative,
    Unknown,
}

/// The tagged classification of a single expression token or tree node:
/// an operator or function, a constant or variable carrying its literal
/// text, or one of the structural markers.
#[allow(non_camel_case_types)]
#[derive(PartialEq, Eq, Clone, Debug)]
pub enum Symbol {
    NULLSYMBOL,
    ADD,
    SUBTRACT,
    NEGATE,
    MULTIPLY,
    DIVIDE,
    SIN,
    COS,
    CONSTANT(String),
    VARIABLE(String),
    DERIVATIVE,
    NUMERICAL_DERIVATIVE,
    UNKNOWN,
}

impl View for Symbol {
    type V = SymbolView;

    open spec fn view(&self) -> SymbolView {
        match self {
            Symbol::NULLSYMBOL => SymbolView::Null,
            Symbol::ADD => SymbolView::Add,
            Symbol::SUBTRACT => SymbolView::Subtract,
            Symbol::NEGATE => SymbolView::Negate,
            Symbol::MULTIPLY => SymbolView::Multiply,
            Symbol::DIVIDE => SymbolView::Divide,
            Symbol::SIN => SymbolView::Sin,
            Symbol::COS => SymbolView::Cos,
            Symbol::CONSTANT(s) => SymbolView::Constant(s@),
            Symbol::VARIABLE(s) => SymbolView::Variable(s@),
            Symbol::DERIVATIVE => SymbolView::Derivative,
            Symbol::NUMERICAL_DERIVATIVE => SymbolView::NumericalDerivative,
            Symbol::UNKNOWN => SymbolView::Unknown,
        }
    }
}

/// A symbol is a leaf value exactly when it is a constant or a variable.
pub open spec fn is_value_spec(s: SymbolView) -> bool {
    s is Constant || s is Variable
}

/// Whether the symbol is a leaf value (a constant or a variable).
pub fn is_value(symbol: &Symbol) -> (r: bool)
    ensures
        r == is_value_spec(symbol@),
{
    matches!(symbol, Symbol::CONSTANT(_)) || matches!(symbol, Symbol::VARIABLE(_))
}

/// An exact copy of a symbol, payload included.
pub fn clone_symbol(symbol: &Symbol) -> (r: Symbol)
    ensures
        r@ == symbol@,
{
    match symbol {
        Symbol::NULLSYMBOL => Symbol::NULLSYMBOL,
        Symbol::ADD => Symbol::ADD,
        Symbol::SUBTRACT => Symbol::SUBTRACT,
        Symbol::NEGATE => Symbol::NEGATE,
        Symbol::MULTIPLY => Symbol::MULTIPLY,
        Symbol::DIVIDE => Symbol::DIVIDE,
        Symbol::SIN => Symbol::SIN,
        Symbol::COS => Symbol::COS,
        Symbol::CONSTANT(s) => Symbol::CONSTANT(s.clone()),
        Symbol::VARIABLE(s) => Symbol::VARIABLE(s.clone()),
        Symbol::DERIVATIVE => Symbol::DERIVATIVE,
        Symbol::NUMERICAL_DERIVATIVE => Symbol::NUMERICAL_DERIVATIVE,
        Symbol::UNKNOWN => Symbol::UNKNOWN,
    }
}

/// An ASCII upper-case letter mapped to lower case, executably.
fn lower_exec(c: char) -> (r: char)
    ensures
        r == lower_char(c),
{
    if 'A' <= c && c <= 'Z' {
        ((c as u8) + 32) as char
    } else {
        c
    }
}

/// Whether every character of `v` in `[from, to)` is a decimal digit.
fn all_digits_range(v: &Vec<char>, from: usize, to: usize) -> (r: bool)
    requires
        from <= to <= v@.len(),
    ensures
        r == all_digits(v@.subrange(from as int, to as int)),
{
    let ghost sub = v@.subrange(from as int, to as int);
    let mut j = from;
    while j < to
        invariant
            from <= j <= to <= v@.len(),
            sub == v@.subrange(from as int, to as int),
            forall|k: int| from <= k < j ==> is_digit_char(v@[k]),
        decreases to - j,
    {
        let c = v[j];
        if !('0' <= c && c <= '9') {
            proof {
                assert(sub[j - from] == v@[j as int]);
                assert(!all_digits(sub));
            }
            return false;
        }
        j = j + 1;
    }
    proof {
        assert(forall|k: int| 0 <= k < sub.len() ==> sub[k] == v@[from + k]);
    }
    true
}

/// Whether the characters of `v` from `from` on, lowered, are exactly
/// `inf`, `infinity` or `nan`.
fn special_word_range(v: &Vec<char>, from: usize) -> (r: bool)
    requires
        from <= v@.len(),
    ensures
        r == is_special_float_word(v@.subrange(from as int, v@.len() as int)),
{
    let ghost b = v@.subrange(from as int, v@.len() as int);
    let ghost lb = lowered(b);
    proof {
        assert(lb.len() == b.len());
        assert(forall|k: int| 0 <= k < b.len() ==> lb[k] == lower_char(b[k]));
        assert(forall|k: int| 0 <= k < b.len() ==> b[k] == v@[from + k]);
    }
    let n = v.len();
    if n - from == 3 {
        let c0 = lower_exec(v[from]);
        let c1 = lower_exec(v[from + 1]);
        let c2 = lower_exec(v[from + 2]);
        let r = (c0 == 'i' && c1 == 'n' && c2 == 'f') || (c0 == 'n' && c1 == 'a' && c2 == 'n');
        proof {
            assert(lb[0] == c0 && lb[1] == c1 && lb[2] == c2);
            if r {
                if c0 == 'i' {
                    assert(lb =~= seq!['i', 'n', 'f']);
                } else {
                    assert(lb =~= seq!['n', 'a', 'n']);
                }
            } else {
                assert(lb != seq!['i', 'n', 'f'] && lb != seq!['n', 'a', 'n']) by {
                    assert(seq!['i', 'n', 'f'][0] == 'i');
                    assert(seq!['i', 'n', 'f'][1] == 'n');
                    assert(seq!['i', 'n', 'f'][2] == 'f');
                    assert(seq!['n', 'a', 'n'][0] == 'n');
                    assert(seq!['n', 'a', 'n'][1] == 'a');
                    assert(seq!['n', 'a', 'n'][2] == 'n');
                }
                assert(lb.len() != 8);
            }
        }
        r
    } else if n - from == 8 {
        let r = lower_exec(v[from]) == 'i' && lower_exec(v[from + 1]) == 'n' && lower_exec(
            v[from + 2],
        ) == 'f' && lower_exec(v[from + 3]) == 'i' && lower_exec(v[from + 4]) == 'n' && lower_exec(
            v[from + 5],
        ) == 'i' && lower_exec(v[from + 6]) == 't' && lower_exec(v[from + 7]) == 'y';
        proof {
            let w = seq!['i', 'n', 'f', 'i', 'n', 'i', 't', 'y'];
            assert(w[0] == 'i' && w[1] == 'n' && w[2] == 'f' && w[3] == 'i' && w[4] == 'n' && w[5]
                == 'i' && w[6] == 't' && w[7] == 'y');
            if r {
                assert(lb =~= w);
            } else {
                assert(lb != w);
            }
            assert(lb.len() != 3);
        }
        r
    } else {
        proof {
            assert(lb.len() != 3 && lb.len() != 8);
        }
        false
    }
}

/// Whether the characters of `v` in `[from, to)` form a mantissa.
fn mantissa_range(v: &Vec<char>, from: usize, to: usize) -> (r: bool)
    requires
        from <= to <= v@.len(),
    ensures
        r == is_mantissa(v@.subrange(from as int, to as int)),
{
    let ghost m = v@.subrange(from as int, to as int);
    let mut di = from;
    while di < to && v[di] != '.'
        invariant
            from <= di <= to <= v@.len(),
            forall|k: int| from <= k < di ==> v@[k] != '.',
        decreases to - di,
    {
        di = di + 1;
    }
    proof {
        assert(forall|k: int| 0 <= k < m.len() ==> m[k] == v@[from + k]);
        lemma_find_first_at(m, |c: char| c == '.', di - from);
    }
    if di == to {
        let r = to > from && all_digits_range(v, from, to);
        proof {
            assert(v@.subrange(from as int, to as int) == m);
        }
        r
    } else {
        let r1 = all_digits_range(v, from, di);
        let r2 = all_digits_range(v, di + 1, to);
        proof {
            assert(v@.subrange(from as int, di as int) =~= m.subrange(0, di - from));
            assert(v@.subrange(di + 1, to as int) =~= m.subrange(di - from + 1, m.len() as int));
        }
        r1 && r2 && to - from > 1
    }
}

/// Whether the characters of `v` in `[from, to)` form an exponent part.
fn exponent_range(v: &Vec<char>, from: usize, to: usize) -> (r: bool)
    requires
        from <= to <= v@.len(),
    ensures
        r == is_exponent(v@.subrange(from as int, to as int)),
{
    let ghost e = v@.subrange(from as int, to as int);
    let mut j = from;
    if from < to && (v[from] == '+' || v[from] == '-') {
        j = from + 1;
    }
    proof {
        assert(forall|k: int| 0 <= k < e.len() ==> e[k] == v@[from + k]);
        assert(v@.subrange(j as int, to as int) =~= strip_sign(e));
    }
    to > j && all_digits_range(v, j, to)
}

/// Whether the characters form a floating-point numeral.
pub fn is_numeric_chars(v: &Vec<char>) -> (r: bool)
    ensures
        r == is_float_literal(v@),
{
    let n = v.len();
    let mut i: usize = 0;
    if n > 0 && (v[0] == '+' || v[0] == '-') {
        i = 1;
    }
    let ghost b = strip_sign(v@);
    proof {
        assert(v@.subrange(i as int, n as int) =~= b);
    }
    if special_word_range(v, i) {
        return true;
    }
    let mut xi = i;
    while xi < n && !(v[xi] == 'e' || v[xi] == 'E')
        invariant
            i <= xi <= n == v@.len(),
            forall|k: int| i <= k < xi ==> !is_exp_char(v@[k]),
        decreases n - xi,
    {
        xi = xi + 1;
    }
    proof {
        assert(forall|k: int| 0 <= k < b.len() ==> b[k] == v@[i + k]);
        lemma_find_first_at(b, |c: char| is_exp_char(c), xi - i);
    }
    if xi == n {
        let r = mantissa_range(v, i, n);
        proof {
            assert(v@.subrange(i as int, n as int) == b);
        }
        r
    } else {
        let r1 = mantissa_range(v, i, xi);
        let r2 = exponent_range(v, xi + 1, n);
        proof {
            assert(v@.subrange(i as int, xi as int) =~= b.subrange(0, xi - i));
            assert(v@.subrange(xi + 1, n as int) =~= b.subrange(xi - i + 1, b.len() as int));
        }
        r1 && r2
    }
}

/// Classification of a token as a leaf value: a floating-point numeral or
/// one of the built-in constant names gives a constant, one of the built-in
/// variable names gives a variable, anything else is unknown.
pub open spec fn build_value_spec(t: Seq<char>) -> SymbolView {
    if is_float_literal(t) || t == "e"@ || t == "pi"@ {
        SymbolView::Constant(t)
    } else if t == "x"@ || t == "y"@ || t == "z"@ {
        SymbolView::Variable(t)
    } else {
        SymbolView::Unknown
    }
}

/// The fixed function and operator name table.
pub open spec fn mapper_lookup_spec(t: Seq<char>) -> SymbolView {
    if t == "add"@ {
        SymbolView::Add
    } else if t == "subtract"@ {
        SymbolView::Subtract
    } else if t == "negate"@ {
        SymbolView::Negate
    } else if t == "multiply"@ {
        SymbolView::Multiply
    } else if t == "divide"@ {
        SymbolView::Divide
    } else if t == "sin"@ {
        SymbolView::Sin
    } else if t == "cos"@ {
        SymbolView::Cos
    } else {
        SymbolView::Unknown
    }
}

/// Classification of one token: the leaf-value checks come first, then the
/// function and operator name table; an unrecognized token is unknown.
pub open spec fn classify(t: Seq<char>) -> SymbolView {
    if build_value_spec(t) != SymbolView::Unknown {
        build_value_spec(t)
    } else {
        mapper_lookup_spec(t)
    }
}

/// Classify a token as a leaf value (constant or variable), or unknown.
pub fn build_value(symbol: &String) -> (r: Symbol)
    ensures
        r@ == build_value_spec(symbol@),
{
    let chars = crate::text::chars_of(symbol.as_str());
    if is_numeric_chars(&chars) || *symbol == String::from_str("e") || *symbol == String::from_str(
        "pi",
    ) {
        return Symbol::CONSTANT(symbol.clone());
    }
    if *symbol == String::from_str("x") || *symbol == String::from_str("y") || *symbol
        == String::from_str("z") {
        return Symbol::VARIABLE(symbol.clone());
    }
    Symbol::UNKNOWN
}

/// Look a token up in the fixed function and operator name table; a token
/// not in the table maps to the unknown symbol.
pub fn get_symbol_mapper(token: &String) -> (r: Symbol)
    ensures
        r@ == mapper_lookup_spec(token@),
{
    if *token == String::from_str("add") {
        Symbol::ADD
    } else if *token == String::from_str("subtract") {
        Symbol::SUBTRACT
    } else if *token == String::from_str("negate") {
        Symbol::NEGATE
    } else if *token == String::from_str("multiply") {
        Symbol::MULTIPLY
    } else if *token == String::from_str("divide") {
        Symbol::DIVIDE
    } else if *token == String::from_str("sin") {
        Symbol::SIN
    } else if *token == String::from_str("cos") {
        Symbol::COS
    } else {
        Symbol::UNKNOWN
    }
}

/// Map one token to exactly one symbol, leaf-value checks first.
pub fn parse_symbol(symbol: &String) -> (r: Symbol)
    ensures
        r@ == classify(symbol@),
{
    let possible_symbol = build_value(symbol);
    if !matches!(possible_symbol, Symbol::UNKNOWN) {
        return possible_symbol;
    }
    get_symbol_mapper(symbol)
}

} // verus!
