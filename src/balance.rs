use vstd::prelude::*;
use crate::parser::{
    binary_step, emit, kind_at, moved, spec_close, spec_expression, spec_expression_rest,
    spec_factor, spec_power, spec_term, spec_term_rest, Step,
};
use crate::plan::spec_parse;
use crate::token::{Lexeme, is_alpha, is_digit, is_space, ident_len, lex_from, number_len, spec_tokenize, symbol};

verus! {

/// What a token adds to the count of open parentheses.
pub open spec fn delta(k: Lexeme) -> int {
    if k is LParen {
        1
    } else if k is RParen {
        -1
    } else {
        0
    }
}

/// Open parentheses minus closing ones among the tokens `i .. j`.
pub open spec fn net(t: Seq<Lexeme>, i: int, j: int) -> int
    decreases j - i,
{
    if j <= i {
        0
    } else {
        net(t, i, j - 1) + delta(t[j - 1])
    }
}

/// The tokens `i .. j` close every parenthesis they open, and close none they did
/// not open.
pub open spec fn closed(t: Seq<Lexeme>, i: int, j: int) -> bool {
    &&& i <= j
    &&& net(t, i, j) == 0
    &&& forall|m: int| i <= m <= j ==> #[trigger] net(t, i, m) >= 0
}

/// Every parenthesis of `t` is matched.
pub open spec fn balanced(t: Seq<Lexeme>) -> bool {
    closed(t, 0, t.len() as int)
}

proof fn lemma_net_split(t: Seq<Lexeme>, i: int, j: int, k: int)
    requires
        i <= j <= k,
    ensures
        net(t, i, k) == net(t, i, j) + net(t, j, k),
    decreases k - j,
{
    if k > j {
        lemma_net_split(t, i, j, k - 1);
    }
}

proof fn lemma_closed_empty(t: Seq<Lexeme>, i: int)
    ensures
        closed(t, i, i),
{
}

proof fn lemma_closed_join(t: Seq<Lexeme>, i: int, j: int, k: int)
    requires
        closed(t, i, j),
        closed(t, j, k),
    ensures
        closed(t, i, k),
{
    lemma_net_split(t, i, j, k);
    assert forall|m: int| i <= m <= k implies #[trigger] net(t, i, m) >= 0 by {
        if m > j {
            lemma_net_split(t, i, j, m);
            assert(net(t, j, m) >= 0);
        }
    }
}

proof fn lemma_closed_token(t: Seq<Lexeme>, i: int)
    requires
        0 <= i < t.len(),
        !(t[i] is LParen),
        !(t[i] is RParen),
    ensures
        closed(t, i, i + 1),
{
    assert(net(t, i, i + 1) == net(t, i, i) + delta(t[i]));
    assert forall|m: int| i <= m <= i + 1 implies #[trigger] net(t, i, m) >= 0 by {
        if m == i + 1 {
        }
    }
}

proof fn lemma_closed_wrap(t: Seq<Lexeme>, i: int, j: int)
    requires
        0 <= i,
        j < t.len(),
        t[i] is LParen,
        closed(t, i + 1, j),
        t[j] is RParen,
    ensures
        closed(t, i, j + 1),
{
    assert(net(t, i, i + 1) == net(t, i, i) + delta(t[i]));
    assert forall|m: int| i <= m <= j + 1 implies #[trigger] net(t, i, m) >= 0 by {
        if m >= i + 1 {
            lemma_net_split(t, i, i + 1, m);
            if m <= j {
                assert(net(t, i + 1, m) >= 0);
            } else {
                assert(net(t, i + 1, j + 1) == net(t, i + 1, j) + delta(t[j]));
            }
        }
    }
    lemma_net_split(t, i, i + 1, j + 1);
    assert(net(t, i + 1, j + 1) == net(t, i + 1, j) + delta(t[j]));
}

/// What every grammar rule guarantees when it succeeds from `pos` and stops at `end`.
pub open spec fn consumed(t: Seq<Lexeme>, pos: int, end: int) -> bool {
    moved(t, pos, end) && closed(t, pos, end)
}

proof fn lemma_expression(t: Seq<Lexeme>, pos: int, steps: Seq<Step>, depth: int)
    requires
        0 <= pos <= t.len(),
    ensures
        spec_expression(t, pos, steps, depth).result is Ok ==> consumed(
            t,
            pos,
            spec_expression(t, pos, steps, depth).pos,
        ),
    decreases t.len() - pos, 5int,
{
    lemma_term(t, pos, steps, depth);
    let l = spec_term(t, pos, steps, depth);
    if l.result is Ok && moved(t, pos, l.pos) {
        lemma_expression_rest(t, l.pos, l.steps, depth, l.result->Ok_0);
        let r = spec_expression_rest(t, l.pos, l.steps, depth, l.result->Ok_0);
        if r.result is Ok {
            lemma_closed_join(t, pos, l.pos, r.pos);
        }
    }
}

proof fn lemma_expression_rest(t: Seq<Lexeme>, pos: int, steps: Seq<Step>, depth: int, acc: usize)
    requires
        0 <= pos <= t.len(),
    ensures
        spec_expression_rest(t, pos, steps, depth, acc).result is Ok ==> consumed(
            t,
            pos,
            spec_expression_rest(t, pos, steps, depth, acc).pos,
        ),
    decreases t.len() - pos, 4int,
{
    let k = kind_at(t, pos);
    if k is Plus || k is Minus {
        lemma_term(t, pos + 1, steps, depth);
        let r = spec_term(t, pos + 1, steps, depth);
        if r.result is Ok && moved(t, pos + 1, r.pos) {
            let e = emit(r.pos, r.steps, binary_step(k, acc, r.result->Ok_0));
            lemma_expression_rest(t, r.pos, e.steps, depth, e.result->Ok_0);
            let f = spec_expression_rest(t, r.pos, e.steps, depth, e.result->Ok_0);
            if f.result is Ok {
                lemma_closed_token(t, pos);
                lemma_closed_join(t, pos, pos + 1, r.pos);
                lemma_closed_join(t, pos, r.pos, f.pos);
            }
        }
    } else {
        lemma_closed_empty(t, pos);
    }
}

proof fn lemma_term(t: Seq<Lexeme>, pos: int, steps: Seq<Step>, depth: int)
    requires
        0 <= pos <= t.len(),
    ensures
        spec_term(t, pos, steps, depth).result is Ok ==> consumed(
            t,
            pos,
            spec_term(t, pos, steps, depth).pos,
        ),
    decreases t.len() - pos, 3int,
{
    lemma_power(t, pos, steps, depth);
    let l = spec_power(t, pos, steps, depth);
    if l.result is Ok && moved(t, pos, l.pos) {
        lemma_term_rest(t, l.pos, l.steps, depth, l.result->Ok_0);
        let r = spec_term_rest(t, l.pos, l.steps, depth, l.result->Ok_0);
        if r.result is Ok {
            lemma_closed_join(t, pos, l.pos, r.pos);
        }
    }
}

proof fn lemma_term_rest(t: Seq<Lexeme>, pos: int, steps: Seq<Step>, depth: int, acc: usize)
    requires
        0 <= pos <= t.len(),
    ensures
        spec_term_rest(t, pos, steps, depth, acc).result is Ok ==> consumed(
            t,
            pos,
            spec_term_rest(t, pos, steps, depth, acc).pos,
        ),
    decreases t.len() - pos, 2int,
{
    let k = kind_at(t, pos);
    if k is Multiply || k is Divide || k is Modulo {
        lemma_power(t, pos + 1, steps, depth);
        let r = spec_power(t, pos + 1, steps, depth);
        if r.result is Ok && moved(t, pos + 1, r.pos) {
            let e = emit(r.pos, r.steps, binary_step(k, acc, r.result->Ok_0));
            lemma_term_rest(t, r.pos, e.steps, depth, e.result->Ok_0);
            let f = spec_term_rest(t, r.pos, e.steps, depth, e.result->Ok_0);
            if f.result is Ok {
                lemma_closed_token(t, pos);
                lemma_closed_join(t, pos, pos + 1, r.pos);
                lemma_closed_join(t, pos, r.pos, f.pos);
            }
        }
    } else {
        lemma_closed_empty(t, pos);
    }
}

proof fn lemma_power(t: Seq<Lexeme>, pos: int, steps: Seq<Step>, depth: int)
    requires
        0 <= pos <= t.len(),
    ensures
        spec_power(t, pos, steps, depth).result is Ok ==> consumed(
            t,
            pos,
            spec_power(t, pos, steps, depth).pos,
        ),
    decreases t.len() - pos, 1int,
{
    lemma_factor(t, pos, steps, depth);
    let b = spec_factor(t, pos, steps, depth);
    if b.result is Ok && kind_at(t, b.pos) is Power && moved(t, pos, b.pos) {
        lemma_power(t, b.pos + 1, b.steps, depth + 1);
        let e = spec_power(t, b.pos + 1, b.steps, depth + 1);
        if e.result is Ok {
            lemma_closed_token(t, b.pos);
            lemma_closed_join(t, pos, b.pos, b.pos + 1);
            lemma_closed_join(t, pos, b.pos + 1, e.pos);
        }
    }
}

proof fn lemma_factor(t: Seq<Lexeme>, pos: int, steps: Seq<Step>, depth: int)
    requires
        0 <= pos <= t.len(),
    ensures
        spec_factor(t, pos, steps, depth).result is Ok ==> consumed(
            t,
            pos,
            spec_factor(t, pos, steps, depth).pos,
        ),
    decreases t.len() - pos, 0int,
{
    let k = kind_at(t, pos);
    let f = spec_factor(t, pos, steps, depth);
    if depth > crate::parser::MAX_DEPTH {
    } else if k is Number {
        lemma_closed_token(t, pos);
    } else if k is Minus || k is Plus {
        lemma_factor(t, pos + 1, steps, depth + 1);
        let r = spec_factor(t, pos + 1, steps, depth + 1);
        if r.result is Ok {
            lemma_closed_token(t, pos);
            lemma_closed_join(t, pos, pos + 1, r.pos);
        }
    } else if k is Sqrt {
        if kind_at(t, pos + 1) is LParen {
            lemma_expression(t, pos + 2, steps, depth + 1);
            let r = spec_expression(t, pos + 2, steps, depth + 1);
            if f.result is Ok {
                assert(spec_close(t, r, true) == f);
                lemma_closed_wrap(t, pos + 1, r.pos);
                lemma_closed_token(t, pos);
                lemma_closed_join(t, pos, pos + 1, r.pos + 1);
            }
        }
    } else if k is LParen {
        lemma_expression(t, pos + 1, steps, depth + 1);
        let r = spec_expression(t, pos + 1, steps, depth + 1);
        if f.result is Ok {
            lemma_closed_wrap(t, pos, r.pos);
        }
    }
}

/// No token of `s` is the end-of-input marker.
pub open spec fn no_end_marker(s: Seq<Lexeme>) -> bool {
    forall|j: int| 0 <= j < s.len() ==> !(#[trigger] s[j] is EOF)
}

proof fn lemma_lex_no_end_marker(c: Seq<char>, i: int)
    ensures
        lex_from(c, i) is Ok ==> no_end_marker(lex_from(c, i)->Ok_0),
    decreases c.len() - i,
{
    if i < 0 || i >= c.len() {
    } else if is_space(c[i]) {
        lemma_lex_no_end_marker(c, i + 1);
    } else if is_digit(c[i]) || c[i] == '.' {
        let e = i + 1 + number_len(c, i + 1, c[i] == '.');
        crate::token::lemma_number_len_bound(c, i + 1, c[i] == '.');
        lemma_lex_no_end_marker(c, e);
        if lex_from(c, i) is Ok {
            let s = lex_from(c, e)->Ok_0;
            assert(lex_from(c, i)->Ok_0 == seq![Lexeme::Number(c.subrange(i, e))] + s);
        }
    } else if is_alpha(c[i]) {
        let e = i + 1 + ident_len(c, i + 1);
        crate::token::lemma_ident_len_bound(c, i + 1);
        lemma_lex_no_end_marker(c, e);
        if lex_from(c, i) is Ok {
            let s = lex_from(c, e)->Ok_0;
            assert(lex_from(c, i)->Ok_0 == seq![Lexeme::Sqrt] + s);
        }
    } else if let Some(k) = symbol(c[i]) {
        lemma_lex_no_end_marker(c, i + 1);
        if lex_from(c, i) is Ok {
            let s = lex_from(c, i + 1)->Ok_0;
            assert(lex_from(c, i)->Ok_0 == seq![k] + s);
            assert(!(k is EOF));
        }
    }
}

/// A token sequence without the end-of-input marker parses to a value only if its
/// parentheses are balanced.
pub proof fn lemma_parsed_tokens_balanced(t: Seq<Lexeme>)
    requires
        no_end_marker(t),
    ensures
        spec_parse(t).result is Ok ==> balanced(t),
{
    lemma_expression(t, 0, Seq::empty(), 0);
    let r = spec_expression(t, 0, Seq::empty(), 0);
    if spec_parse(t).result is Ok {
        assert(kind_at(t, r.pos) is EOF);
        if r.pos < t.len() {
            assert(t[r.pos] is EOF);
        }
    }
}

/// Unmatched parentheses always fail: a text whose tokens do not balance their
/// parentheses never compiles to a value.
pub proof fn lemma_unbalanced_fails(c: Seq<char>)
    requires
        spec_tokenize(c) is Ok,
        !balanced(spec_tokenize(c)->Ok_0),
    ensures
        spec_parse(spec_tokenize(c)->Ok_0).result is Err,
{
    lemma_lex_no_end_marker(c, 0);
    lemma_parsed_tokens_balanced(spec_tokenize(c)->Ok_0);
}

} // verus!
