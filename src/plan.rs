use vstd::prelude::*;
use crate::error::CalcError;
use crate::parser::{Parsed, Parser, Step, fail, kind_at, spec_expression};
use crate::shape::{lemma_plan_ordered, steps_ok};
use crate::token::{Lexeme, Token, lexemes, spec_tokenize, tokenize};

verus! {

/// What evaluating an expression takes: its tokens, the steps to perform in order,
/// and either the step whose value is the result or the error that ends the
/// evaluation once every step has succeeded.
pub struct Plan {
    pub tokens: Vec<Token>,
    pub steps: Vec<Step>,
    pub outcome: Result<usize, CalcError>,
}

/// A whole token sequence read as one expression: after it, nothing but the end
/// may follow.
pub open spec fn spec_parse(t: Seq<Lexeme>) -> Parsed {
    let r = spec_expression(t, 0, Seq::empty(), 0);
    match r.result {
        Ok(_) => if kind_at(t, r.pos) is EOF {
            r
        } else {
            fail(r.pos, r.steps, CalcError::TrailingTokens)
        },
        Err(_) => r,
    }
}

/// Whether `p` is the plan for the token sequence `t`.
pub open spec fn plans(p: Plan, t: Seq<Lexeme>) -> bool {
    &&& lexemes(p.tokens@) == t
    &&& p.steps@ == spec_parse(t).steps
    &&& p.outcome == spec_parse(t).result
}

/// Whether `p` is the plan for the text `c`: a lexical error leaves no steps.
pub open spec fn compiles_to(c: Seq<char>, p: Plan) -> bool {
    match spec_tokenize(c) {
        Ok(t) => plans(p, t),
        Err(e) => p.tokens@.len() == 0 && p.steps@.len() == 0 && p.outcome == Err::<usize, CalcError>(e),
    }
}

/// Whether the steps of `p` can be performed in order: each names a numeric token
/// or steps before it, and the value, if any, is one of them.
pub open spec fn performable(p: Plan) -> bool {
    &&& steps_ok(lexemes(p.tokens@), p.steps@)
    &&& p.outcome is Ok ==> p.outcome->Ok_0 < p.steps@.len()
}

/// Parses a whole token sequence as one expression.
pub fn parse(tokens: Vec<Token>) -> (p: Plan)
    ensures
        plans(p, lexemes(tokens@)),
        performable(p),
{
    let mut parser = Parser::new(tokens);
    let r = parser.parse_expression();
    let outcome = match r {
        Ok(v) => if parser.at_end() {
            Ok(v)
        } else {
            Err(CalcError::TrailingTokens)
        },
        Err(e) => Err(e),
    };
    let (tokens, steps) = parser.into_parts();
    proof {
        vstd::std_specs::vec::axiom_spec_len(&tokens);
        vstd::std_specs::vec::axiom_spec_len(&steps);
        lemma_plan_ordered(lexemes(tokens@));
    }
    Plan { tokens, steps, outcome }
}

/// Tokenizes and parses an expression.
pub fn compile(expression: &str) -> (p: Plan)
    ensures
        compiles_to(expression@, p),
        performable(p),
{
    match tokenize(expression) {
        Ok(tokens) => parse(tokens),
        Err(e) => {
            let p = Plan { tokens: Vec::new(), steps: Vec::new(), outcome: Err(e) };
            assert(steps_ok(lexemes(p.tokens@), p.steps@));
            p
        },
    }
}

} // verus!
