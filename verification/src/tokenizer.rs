//! Splitting a raw expression string into an ordered sequence of non-empty
//! token strings. Commas and semicolons are consumed as pure delimiters;
//! parentheses are emitted as standalone one-character tokens; whitespace
//! around a token is removed and whitespace-only spans are dropped.

use vstd::prelude::*;

use crate::text::is_space;
use crate::text::lemma_trimmed_is_subrange;
use crate::text::trimmed;

verus! {

/// The characters that end a token.
pub open spec fn is_separator(c: char) -> bool {
    c == ',' || c == '(' || c == ')' || c == ';'
}

/// The tokens contributed by the span scanned since the last separator:
/// its trimmed text if that is non-empty, nothing otherwise.
pub open spec fn emit_token(pending: Seq<char>) -> Seq<Seq<char>> {
    if trimmed(pending).len() > 0 {
        seq![trimmed(pending)]
    } else {
        Seq::<Seq<char>>::empty()
    }
}

/// The tokens of `rest`, given the span `pending` already scanned since the
/// last separator: on a separator the pending span is emitted (and a
/// parenthesis also becomes its own token), any other character extends the
/// pending span, and the final span is emitted at the end of the input.
pub open spec fn tokenize_from(rest: Seq<char>, pending: Seq<char>) -> Seq<Seq<char>>
    decreases rest.len(),
{
    if rest.len() == 0 {
        emit_token(pending)
    } else {
        let c = rest[0];
        if is_separator(c) {
            emit_token(pending) + (if c == '(' || c == ')' {
                seq![seq![c]]
            } else {
                Seq::<Seq<char>>::empty()
            }) + tokenize_from(rest.drop_first(), Seq::<char>::empty())
        } else {
            tokenize_from(rest.drop_first(), pending.push(c))
        }
    }
}

/// The ordered token sequence of an expression string.
pub open spec fn tokenize_spec(s: Seq<char>) -> Seq<Seq<char>> {
    tokenize_from(s, Seq::<char>::empty())
}

/// Append the trimmed text of `s[from..to]` to `out`, unless it is
/// whitespace alone.
fn push_trimmed(s: &str, from: usize, to: usize, out: &mut Vec<String>)
    requires
        from <= to <= s@.len(),
    ensures
        final(out).deep_view() == old(out).deep_view() + emit_token(
            s@.subrange(from as int, to as int),
        ),
{
    let ghost sub = s@.subrange(from as int, to as int);
    let mut a = from;
    while a < to && (s.get_char(a) == ' ' || s.get_char(a) == '\t' || s.get_char(a) == '\n'
        || s.get_char(a) == '\r')
        invariant
            from <= a <= to <= s@.len(),
            forall|j: int| from <= j < a ==> is_space(s@[j]),
        decreases to - a,
    {
        a = a + 1;
    }
    let mut b = to;
    while b > a && (s.get_char(b - 1) == ' ' || s.get_char(b - 1) == '\t' || s.get_char(b - 1)
        == '\n' || s.get_char(b - 1) == '\r')
        invariant
            from <= a <= b <= to <= s@.len(),
            forall|j: int| from <= j < a ==> is_space(s@[j]),
            forall|j: int| b <= j < to ==> is_space(s@[j]),
        decreases b - a,
    {
        b = b - 1;
    }
    proof {
        assert(forall|k: int| 0 <= k < sub.len() ==> sub[k] == s@[from + k]);
        lemma_trimmed_is_subrange(sub, a - from, b - from);
        assert(sub.subrange(a - from, b - from) =~= s@.subrange(a as int, b as int));
    }
    if a < b {
        let token = s.substring_char(a, b).to_owned();
        proof {
            assert(trimmed(sub).len() > 0);
        }
        let ghost prior = out.deep_view();
        out.push(token);
        proof {
            assert(out.deep_view() =~= prior + emit_token(sub));
        }
    } else {
        proof {
            assert(trimmed(sub).len() == 0);
            assert(out.deep_view() =~= out.deep_view() + emit_token(sub));
        }
    }
}

/// Split an expression string into its ordered sequence of tokens.
pub fn break_into_symbols(expression: &String) -> (out: Vec<String>)
    ensures
        out.deep_view() == tokenize_spec(expression@),
{
    let s = expression.as_str();
    let n = s.unicode_len();
    let mut out: Vec<String> = Vec::new();
    let mut last: usize = 0;
    let mut i: usize = 0;
    proof {
        assert(s@.skip(0) =~= s@);
        assert(s@.subrange(0, 0) =~= Seq::<char>::empty());
        assert(out.deep_view() =~= Seq::<Seq<char>>::empty());
    }
    while i < n
        invariant
            n == s@.len(),
            s@ == expression@,
            last <= i <= n,
            tokenize_spec(expression@) == out.deep_view() + tokenize_from(
                s@.skip(i as int),
                s@.subrange(last as int, i as int),
            ),
        decreases n - i,
    {
        let ghost rest = s@.skip(i as int);
        let ghost pending = s@.subrange(last as int, i as int);
        proof {
            assert(rest[0] == s@[i as int]);
            assert(rest.drop_first() =~= s@.skip(i + 1));
        }
        let c = s.get_char(i);
        if c == ',' || c == '(' || c == ')' || c == ';' {
            push_trimmed(s, last, i, &mut out);
            if c == '(' || c == ')' {
                let token = s.substring_char(i, i + 1).to_owned();
                proof {
                    assert(token@ =~= seq![s@[i as int]]);
                }
                let ghost prior = out.deep_view();
                out.push(token);
                proof {
                    assert(out.deep_view() =~= prior.push(seq![s@[i as int]]));
                }
            }
            last = i + 1;
            proof {
                assert(s@.subrange(last as int, i + 1) =~= Seq::<char>::empty());
                assert(tokenize_from(rest, pending) =~= emit_token(pending) + (if s@[i as int]
                    == '(' || s@[i as int] == ')' {
                    seq![seq![s@[i as int]]]
                } else {
                    Seq::<Seq<char>>::empty()
                }) + tokenize_from(s@.skip(i + 1), Seq::<char>::empty()));
            }
        } else {
            proof {
                assert(pending.push(s@[i as int]) =~= s@.subrange(last as int, i + 1));
            }
        }
        i = i + 1;
        proof {
            assert(tokenize_spec(expression@) == out.deep_view() + tokenize_from(
                s@.skip(i as int),
                s@.subrange(last as int, i as int),
            ));
        }
    }
    proof {
        assert(s@.skip(n as int).len() == 0);
    }
    push_trimmed(s, last, n, &mut out);
    out
}

} // verus!
