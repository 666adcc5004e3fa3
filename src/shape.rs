use vstd::prelude::*;
use crate::parser::{
    binary_step, emit, kind_at, moved, spec_close, spec_expression, spec_expression_rest,
    spec_factor, spec_power, spec_term, spec_term_rest, Parsed, Step, MAX_DEPTH,
};
use crate::plan::spec_parse;
use crate::token::Lexeme;

verus! {

/// Step `j` names a numeric token of `t`, or operands computed before it.
pub open spec fn step_ok(t: Seq<Lexeme>, st: Step, j: int) -> bool {
    match st {
        Step::Number(i) => i < t.len() && t[i as int] is Number,
        Step::Negate(a) => a < j,
        Step::Sqrt(a) => a < j,
        Step::Add(a, b) => a < j && b < j,
        Step::Subtract(a, b) => a < j && b < j,
        Step::Multiply(a, b) => a < j && b < j,
        Step::Divide(a, b) => a < j && b < j,
        Step::Modulo(a, b) => a < j && b < j,
        Step::Power(a, b) => a < j && b < j,
    }
}

/// Every step can be performed once those before it have been.
pub open spec fn steps_ok(t: Seq<Lexeme>, s: Seq<Step>) -> bool {
    forall|j: int| 0 <= j < s.len() ==> step_ok(t, #[trigger] s[j], j)
}

/// A rule that started from `steps` and ended in `p` kept the steps performable,
/// and a value it returns is one of them.
pub open spec fn ordered(t: Seq<Lexeme>, steps: Seq<Step>, p: Parsed) -> bool {
    &&& steps.len() <= p.steps.len()
    &&& p.steps.len() <= usize::MAX ==> {
        &&& steps_ok(t, p.steps)
        &&& p.result is Ok ==> p.result->Ok_0 < p.steps.len()
    }
}

proof fn lemma_emit(t: Seq<Lexeme>, pos: int, steps: Seq<Step>, st: Step)
    requires
        steps_ok(t, steps),
        steps.len() < usize::MAX,
        step_ok(t, st, steps.len() as int),
    ensures
        steps_ok(t, emit(pos, steps, st).steps),
        emit(pos, steps, st).result->Ok_0 < emit(pos, steps, st).steps.len(),
{
    let s = steps.push(st);
    assert forall|j: int| 0 <= j < s.len() implies step_ok(t, #[trigger] s[j], j) by {
        if j < steps.len() {
            assert(s[j] == steps[j]);
        }
    }
}

proof fn lemma_expression(t: Seq<Lexeme>, pos: int, steps: Seq<Step>, depth: int)
    requires
        t.len() <= usize::MAX,
        steps_ok(t, steps),
    ensures
        ordered(t, steps, spec_expression(t, pos, steps, depth)),
    decreases t.len() - pos, 5int,
{
    lemma_term(t, pos, steps, depth);
    let l = spec_term(t, pos, steps, depth);
    if l.result is Ok && moved(t, pos, l.pos) {
        let r = spec_expression_rest(t, l.pos, l.steps, depth, l.result->Ok_0);
        lemma_expression_rest_len(t, l.pos, l.steps, depth, l.result->Ok_0);
        if r.steps.len() <= usize::MAX {
            lemma_expression_rest(t, l.pos, l.steps, depth, l.result->Ok_0);
        }
    }
}

proof fn lemma_expression_rest_len(t: Seq<Lexeme>, pos: int, steps: Seq<Step>, depth: int, acc: usize)
    ensures
        steps.len() <= spec_expression_rest(t, pos, steps, depth, acc).steps.len(),
    decreases t.len() - pos, 4int,
{
    let k = kind_at(t, pos);
    if k is Plus || k is Minus {
        lemma_term_len(t, pos + 1, steps, depth);
        let r = spec_term(t, pos + 1, steps, depth);
        if r.result is Ok && moved(t, pos + 1, r.pos) {
            let e = emit(r.pos, r.steps, binary_step(k, acc, r.result->Ok_0));
            lemma_expression_rest_len(t, r.pos, e.steps, depth, e.result->Ok_0);
        }
    }
}

proof fn lemma_expression_rest(t: Seq<Lexeme>, pos: int, steps: Seq<Step>, depth: int, acc: usize)
    requires
        t.len() <= usize::MAX,
        steps_ok(t, steps),
        acc < steps.len(),
        spec_expression_rest(t, pos, steps, depth, acc).steps.len() <= usize::MAX,
    ensures
        ordered(t, steps, spec_expression_rest(t, pos, steps, depth, acc)),
    decreases t.len() - pos, 4int,
{
    lemma_expression_rest_len(t, pos, steps, depth, acc);
    let k = kind_at(t, pos);
    if k is Plus || k is Minus {
        lemma_term(t, pos + 1, steps, depth);
        let r = spec_term(t, pos + 1, steps, depth);
        if r.result is Ok && moved(t, pos + 1, r.pos) {
            let e = emit(r.pos, r.steps, binary_step(k, acc, r.result->Ok_0));
            lemma_expression_rest_len(t, r.pos, e.steps, depth, e.result->Ok_0);
            lemma_emit(t, r.pos, r.steps, binary_step(k, acc, r.result->Ok_0));
            lemma_expression_rest(t, r.pos, e.steps, depth, e.result->Ok_0);
        }
    }
}

proof fn lemma_term_len(t: Seq<Lexeme>, pos: int, steps: Seq<Step>, depth: int)
    ensures
        steps.len() <= spec_term(t, pos, steps, depth).steps.len(),
    decreases t.len() - pos, 3int,
{
    lemma_power_len(t, pos, steps, depth);
    let l = spec_power(t, pos, steps, depth);
    if l.result is Ok && moved(t, pos, l.pos) {
        lemma_term_rest_len(t, l.pos, l.steps, depth, l.result->Ok_0);
    }
}

proof fn lemma_term(t: Seq<Lexeme>, pos: int, steps: Seq<Step>, depth: int)
    requires
        t.len() <= usize::MAX,
        steps_ok(t, steps),
    ensures
        ordered(t, steps, spec_term(t, pos, steps, depth)),
    decreases t.len() - pos, 3int,
{
    lemma_power(t, pos, steps, depth);
    let l = spec_power(t, pos, steps, depth);
    if l.result is Ok && moved(t, pos, l.pos) {
        let r = spec_term_rest(t, l.pos, l.steps, depth, l.result->Ok_0);
        lemma_term_rest_len(t, l.pos, l.steps, depth, l.result->Ok_0);
        if r.steps.len() <= usize::MAX {
            lemma_term_rest(t, l.pos, l.steps, depth, l.result->Ok_0);
        }
    }
}

proof fn lemma_term_rest_len(t: Seq<Lexeme>, pos: int, steps: Seq<Step>, depth: int, acc: usize)
    ensures
        steps.len() <= spec_term_rest(t, pos, steps, depth, acc).steps.len(),
    decreases t.len() - pos, 2int,
{
    let k = kind_at(t, pos);
    if k is Multiply || k is Divide || k is Modulo {
        lemma_power_len(t, pos + 1, steps, depth);
        let r = spec_power(t, pos + 1, steps, depth);
        if r.result is Ok && moved(t, pos + 1, r.pos) {
            let e = emit(r.pos, r.steps, binary_step(k, acc, r.result->Ok_0));
            lemma_term_rest_len(t, r.pos, e.steps, depth, e.result->Ok_0);
        }
    }
}

proof fn lemma_term_rest(t: Seq<Lexeme>, pos: int, steps: Seq<Step>, depth: int, acc: usize)
    requires
        t.len() <= usize::MAX,
        steps_ok(t, steps),
        acc < steps.len(),
        spec_term_rest(t, pos, steps, depth, acc).steps.len() <= usize::MAX,
    ensures
        ordered(t, steps, spec_term_rest(t, pos, steps, depth, acc)),
    decreases t.len() - pos, 2int,
{
    lemma_term_rest_len(t, pos, steps, depth, acc);
    let k = kind_at(t, pos);
    if k is Multiply || k is Divide || k is Modulo {
        lemma_power(t, pos + 1, steps, depth);
        let r = spec_power(t, pos + 1, steps, depth);
        if r.result is Ok && moved(t, pos + 1, r.pos) {
            let e = emit(r.pos, r.steps, binary_step(k, acc, r.result->Ok_0));
            lemma_term_rest_len(t, r.pos, e.steps, depth, e.result->Ok_0);
            lemma_emit(t, r.pos, r.steps, binary_step(k, acc, r.result->Ok_0));
            lemma_term_rest(t, r.pos, e.steps, depth, e.result->Ok_0);
        }
    }
}

proof fn lemma_power_len(t: Seq<Lexeme>, pos: int, steps: Seq<Step>, depth: int)
    ensures
        steps.len() <= spec_power(t, pos, steps, depth).steps.len(),
    decreases t.len() - pos, 1int,
{
    lemma_factor_len(t, pos, steps, depth);
    let b = spec_factor(t, pos, steps, depth);
    if b.result is Ok && kind_at(t, b.pos) is Power && moved(t, pos, b.pos) {
        lemma_power_len(t, b.pos + 1, b.steps, depth + 1);
    }
}

proof fn lemma_power(t: Seq<Lexeme>, pos: int, steps: Seq<Step>, depth: int)
    requires
        t.len() <= usize::MAX,
        steps_ok(t, steps),
    ensures
        ordered(t, steps, spec_power(t, pos, steps, depth)),
    decreases t.len() - pos, 1int,
{
    lemma_power_len(t, pos, steps, depth);
    lemma_factor(t, pos, steps, depth);
    let b = spec_factor(t, pos, steps, depth);
    if b.result is Ok && kind_at(t, b.pos) is Power && moved(t, pos, b.pos) {
        lemma_power_len(t, b.pos + 1, b.steps, depth + 1);
        let e = spec_power(t, b.pos + 1, b.steps, depth + 1);
        if e.steps.len() <= usize::MAX {
            lemma_power(t, b.pos + 1, b.steps, depth + 1);
            if e.result is Ok && e.steps.len() < usize::MAX {
                lemma_emit(t, e.pos, e.steps, Step::Power(b.result->Ok_0, e.result->Ok_0));
            }
        }
    }
}

proof fn lemma_factor_len(t: Seq<Lexeme>, pos: int, steps: Seq<Step>, depth: int)
    ensures
        steps.len() <= spec_factor(t, pos, steps, depth).steps.len(),
    decreases t.len() - pos, 0int,
{
    let k = kind_at(t, pos);
    if depth > MAX_DEPTH {
    } else if k is Minus || k is Plus {
        lemma_factor_len(t, pos + 1, steps, depth + 1);
    } else if k is Sqrt {
        if kind_at(t, pos + 1) is LParen {
            lemma_expression_len(t, pos + 2, steps, depth + 1);
        }
    } else if k is LParen {
        lemma_expression_len(t, pos + 1, steps, depth + 1);
    }
}

proof fn lemma_expression_len(t: Seq<Lexeme>, pos: int, steps: Seq<Step>, depth: int)
    ensures
        steps.len() <= spec_expression(t, pos, steps, depth).steps.len(),
    decreases t.len() - pos, 5int,
{
    lemma_term_len(t, pos, steps, depth);
    let l = spec_term(t, pos, steps, depth);
    if l.result is Ok && moved(t, pos, l.pos) {
        lemma_expression_rest_len(t, l.pos, l.steps, depth, l.result->Ok_0);
    }
}

proof fn lemma_factor(t: Seq<Lexeme>, pos: int, steps: Seq<Step>, depth: int)
    requires
        t.len() <= usize::MAX,
        steps_ok(t, steps),
    ensures
        ordered(t, steps, spec_factor(t, pos, steps, depth)),
    decreases t.len() - pos, 0int,
{
    lemma_factor_len(t, pos, steps, depth);
    let k = kind_at(t, pos);
    let f = spec_factor(t, pos, steps, depth);
    if f.steps.len() <= usize::MAX {
        if depth > MAX_DEPTH {
        } else if k is Number {
            lemma_emit(t, pos + 1, steps, Step::Number(pos as usize));
        } else if k is Minus {
            lemma_factor(t, pos + 1, steps, depth + 1);
            let r = spec_factor(t, pos + 1, steps, depth + 1);
            if r.result is Ok {
                lemma_emit(t, r.pos, r.steps, Step::Negate(r.result->Ok_0));
            }
        } else if k is Plus {
            lemma_factor(t, pos + 1, steps, depth + 1);
        } else if k is Sqrt {
            if kind_at(t, pos + 1) is LParen {
                lemma_expression(t, pos + 2, steps, depth + 1);
                let r = spec_expression(t, pos + 2, steps, depth + 1);
                assert(spec_close(t, r, true) == f);
                if r.result is Ok && kind_at(t, r.pos) is RParen {
                    lemma_emit(t, r.pos + 1, r.steps, Step::Sqrt(r.result->Ok_0));
                }
            }
        } else if k is LParen {
            lemma_expression(t, pos + 1, steps, depth + 1);
        }
    }
}

/// Every plan can be performed in order: each step names a numeric token of the
/// input or steps that come before it, and a value, when there is one, is a step.
pub proof fn lemma_plan_ordered(t: Seq<Lexeme>)
    requires
        t.len() <= usize::MAX,
        spec_parse(t).steps.len() <= usize::MAX,
    ensures
        steps_ok(t, spec_parse(t).steps),
        spec_parse(t).result is Ok ==> spec_parse(t).result->Ok_0 < spec_parse(t).steps.len(),
{
    lemma_expression(t, 0, Seq::empty(), 0);
}

} // verus!
