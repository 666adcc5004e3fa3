use vstd::prelude::*;
use crate::error::CalcError;
use crate::token::{Lexeme, Token, lexemes};

verus! {

/// How deeply parentheses, `sqrt` calls, unary signs and chains of `^` may nest.
pub const MAX_DEPTH: usize = 256;

/// One operation of an evaluation, in the order in which it is performed.
/// Operands are the indices of earlier steps; `Number` names a token of the input.
#[derive(Clone, Copy, Debug, PartialEq, Eq, Structural)]
pub enum Step {
    Number(usize),
    Negate(usize),
    Add(usize, usize),
    Subtract(usize, usize),
    Multiply(usize, usize),
    Divide(usize, usize),
    Modulo(usize, usize),
    Power(usize, usize),
    Sqrt(usize),
}

/// The state after a grammar rule ran: the cursor, the steps emitted so far, and
/// the step that holds the rule's value, or the error that stopped it.
pub struct Parsed {
    pub pos: int,
    pub steps: Seq<Step>,
    pub result: Result<usize, CalcError>,
}

/// The token at `p`, or `EOF` past the last one.
pub open spec fn kind_at(t: Seq<Lexeme>, p: int) -> Lexeme {
    if 0 <= p < t.len() {
        t[p]
    } else {
        Lexeme::EOF
    }
}

/// `steps` followed by `st`, whose value is then the result.
pub open spec fn emit(pos: int, steps: Seq<Step>, st: Step) -> Parsed {
    Parsed { pos, steps: steps.push(st), result: Ok(steps.len() as usize) }
}

pub open spec fn fail(pos: int, steps: Seq<Step>, e: CalcError) -> Parsed {
    Parsed { pos, steps, result: Err(e) }
}

/// The cursor moved from `from` to `to` without leaving the input; every rule does so.
pub open spec fn moved(t: Seq<Lexeme>, from: int, to: int) -> bool {
    from <= to <= t.len()
}

/// The step that a binary operator token builds from two operands.
pub open spec fn binary_step(k: Lexeme, a: usize, b: usize) -> Step {
    match k {
        Lexeme::Plus => Step::Add(a, b),
        Lexeme::Minus => Step::Subtract(a, b),
        Lexeme::Multiply => Step::Multiply(a, b),
        Lexeme::Divide => Step::Divide(a, b),
        Lexeme::Modulo => Step::Modulo(a, b),
        _ => Step::Power(a, b),
    }
}

/// `expression := term (('+' | '-') term)*`
pub open spec fn spec_expression(t: Seq<Lexeme>, pos: int, steps: Seq<Step>, depth: int) -> Parsed
    decreases t.len() - pos, 5int,
{
    let l = spec_term(t, pos, steps, depth);
    match l.result {
        Ok(v) => if moved(t, pos, l.pos) {
            spec_expression_rest(t, l.pos, l.steps, depth, v)
        } else {
            l
        },
        Err(_) => l,
    }
}

/// The `(('+' | '-') term)*` part of an expression, whose value so far is step `acc`.
pub open spec fn spec_expression_rest(
    t: Seq<Lexeme>,
    pos: int,
    steps: Seq<Step>,
    depth: int,
    acc: usize,
) -> Parsed
    decreases t.len() - pos, 4int,
{
    let k = kind_at(t, pos);
    if k is Plus || k is Minus {
        let r = spec_term(t, pos + 1, steps, depth);
        match r.result {
            Ok(w) => if moved(t, pos + 1, r.pos) {
                let e = emit(r.pos, r.steps, binary_step(k, acc, w));
                spec_expression_rest(t, r.pos, e.steps, depth, e.result->Ok_0)
            } else {
                r
            },
            Err(_) => r,
        }
    } else if k is RParen || k is EOF {
        Parsed { pos, steps, result: Ok(acc) }
    } else {
        fail(pos, steps, CalcError::UnexpectedToken)
    }
}

/// `term := power (('*' | '/' | '%') power)*`
pub open spec fn spec_term(t: Seq<Lexeme>, pos: int, steps: Seq<Step>, depth: int) -> Parsed
    decreases t.len() - pos, 3int,
{
    let l = spec_power(t, pos, steps, depth);
    match l.result {
        Ok(v) => if moved(t, pos, l.pos) {
            spec_term_rest(t, l.pos, l.steps, depth, v)
        } else {
            l
        },
        Err(_) => l,
    }
}

/// The `(('*' | '/' | '%') power)*` part of a term, whose value so far is step `acc`.
pub open spec fn spec_term_rest(t: Seq<Lexeme>, pos: int, steps: Seq<Step>, depth: int, acc: usize) -> Parsed
    decreases t.len() - pos, 2int,
{
    let k = kind_at(t, pos);
    if k is Multiply || k is Divide || k is Modulo {
        let r = spec_power(t, pos + 1, steps, depth);
        match r.result {
            Ok(w) => if moved(t, pos + 1, r.pos) {
                let e = emit(r.pos, r.steps, binary_step(k, acc, w));
                spec_term_rest(t, r.pos, e.steps, depth, e.result->Ok_0)
            } else {
                r
            },
            Err(_) => r,
        }
    } else {
        Parsed { pos, steps, result: Ok(acc) }
    }
}

/// `power := factor ('^' power)?`, grouping to the right.
pub open spec fn spec_power(t: Seq<Lexeme>, pos: int, steps: Seq<Step>, depth: int) -> Parsed
    decreases t.len() - pos, 1int,
{
    let b = spec_factor(t, pos, steps, depth);
    match b.result {
        Ok(v) => if kind_at(t, b.pos) is Power && moved(t, pos, b.pos) {
            let e = spec_power(t, b.pos + 1, b.steps, depth + 1);
            match e.result {
                Ok(w) => emit(e.pos, e.steps, Step::Power(v, w)),
                Err(_) => e,
            }
        } else {
            b
        },
        Err(_) => b,
    }
}

/// After a parenthesised expression `r`: the closing `)` it needs, then, for a
/// `sqrt` call, the square root.
pub open spec fn spec_close(t: Seq<Lexeme>, r: Parsed, is_sqrt: bool) -> Parsed {
    match r.result {
        Ok(v) => {
            let k = kind_at(t, r.pos);
            if k is RParen {
                if is_sqrt {
                    emit(r.pos + 1, r.steps, Step::Sqrt(v))
                } else {
                    Parsed { pos: r.pos + 1, steps: r.steps, result: Ok(v) }
                }
            } else if k is EOF {
                fail(r.pos, r.steps, CalcError::UnclosedParenthesis)
            } else {
                fail(r.pos, r.steps, CalcError::ExpectedCloseParen)
            }
        },
        Err(_) => r,
    }
}

/// `factor := NUMBER | ('-' | '+') factor | 'sqrt' '(' expression ')' | '(' expression ')'`
pub open spec fn spec_factor(t: Seq<Lexeme>, pos: int, steps: Seq<Step>, depth: int) -> Parsed
    decreases t.len() - pos, 0int,
{
    let k = kind_at(t, pos);
    if depth > MAX_DEPTH {
        fail(pos, steps, CalcError::NestingTooDeep)
    } else if k is Number {
        emit(pos + 1, steps, Step::Number(pos as usize))
    } else if k is Minus {
        let r = spec_factor(t, pos + 1, steps, depth + 1);
        match r.result {
            Ok(v) => emit(r.pos, r.steps, Step::Negate(v)),
            Err(_) => r,
        }
    } else if k is Plus {
        spec_factor(t, pos + 1, steps, depth + 1)
    } else if k is Sqrt {
        if kind_at(t, pos + 1) is LParen {
            spec_close(t, spec_expression(t, pos + 2, steps, depth + 1), true)
        } else {
            fail(pos + 1, steps, CalcError::ExpectedOpenParen)
        }
    } else if k is LParen {
        spec_close(t, spec_expression(t, pos + 1, steps, depth + 1), false)
    } else if k is RParen {
        fail(pos, steps, CalcError::UnmatchedCloseParen)
    } else if k is EOF {
        fail(pos, steps, CalcError::UnexpectedEnd)
    } else {
        fail(pos, steps, CalcError::ExpectedFactorToken)
    }
}

/// A recursive-descent parser over a token sequence. It records, in evaluation
/// order, the steps that compute the value of what it has read so far.
pub struct Parser {
    tokens: Vec<Token>,
    current: usize,
    steps: Vec<Step>,
}

/// Whether a parser went from state `(t, pos, steps)` to `after`, returning `r`,
/// as the rule result `p` says.
pub open spec fn ran_as(after: &Parser, r: Result<usize, CalcError>, t: Seq<Lexeme>, p: Parsed) -> bool {
    &&& after.wf()
    &&& after.input() == t
    &&& after.cursor() == p.pos
    &&& after.emitted() == p.steps
    &&& r == p.result
}

impl Parser {
    /// The tokens being read.
    pub closed spec fn input(&self) -> Seq<Lexeme> {
        lexemes(self.tokens@)
    }

    /// The index of the next token to read.
    pub closed spec fn cursor(&self) -> int {
        self.current as int
    }

    /// The steps recorded so far.
    pub closed spec fn emitted(&self) -> Seq<Step> {
        self.steps@
    }

    pub closed spec fn wf(&self) -> bool {
        self.current <= self.tokens.len()
    }

    pub fn new(tokens: Vec<Token>) -> (p: Parser)
        ensures
            p.wf(),
            p.input() == lexemes(tokens@),
            p.cursor() == 0,
            p.emitted() == Seq::<Step>::empty(),
    {
        Parser { tokens, current: 0, steps: Vec::new() }
    }

    /// The next token, without consuming it; `EOF` past the last one.
    pub fn peek(&self) -> (r: Token)
        ensures
            r@ == kind_at(self.input(), self.cursor()),
    {
        if self.current < self.tokens.len() {
            match &self.tokens[self.current] {
                Token::Number(d) => {
                    let copy = d.clone();
                    assert(copy@ =~= d@);
                    Token::Number(copy)
                },
                Token::Plus => Token::Plus,
                Token::Minus => Token::Minus,
                Token::Multiply => Token::Multiply,
                Token::Divide => Token::Divide,
                Token::Modulo => Token::Modulo,
                Token::Power => Token::Power,
                Token::Sqrt => Token::Sqrt,
                Token::LParen => Token::LParen,
                Token::RParen => Token::RParen,
                Token::EOF => Token::EOF,
            }
        } else {
            Token::EOF
        }
    }

    /// Whether every token has been read (or an `EOF` token is next).
    pub fn at_end(&self) -> (r: bool)
        ensures
            r == kind_at(self.input(), self.cursor()) is EOF,
    {
        let k = self.peek();
        match k {
            Token::EOF => true,
            _ => false,
        }
    }

    fn advance(&mut self)
        requires
            old(self).wf(),
            old(self).cursor() < old(self).input().len(),
        ensures
            final(self).wf(),
            final(self).input() == old(self).input(),
            final(self).cursor() == old(self).cursor() + 1,
            final(self).emitted() == old(self).emitted(),
    {
        self.current = self.current + 1;
    }

    fn record(&mut self, st: Step) -> (r: usize)
        ensures
            final(self).input() == old(self).input(),
            final(self).cursor() == old(self).cursor(),
            final(self).wf() == old(self).wf(),
            final(self).emitted() == old(self).emitted().push(st),
            r == old(self).emitted().len(),
    {
        let r = self.steps.len();
        self.steps.push(st);
        r
    }

    /// The steps recorded so far, and the tokens they refer to.
    pub fn into_parts(self) -> (r: (Vec<Token>, Vec<Step>))
        ensures
            lexemes(r.0@) == self.input(),
            r.1@ == self.emitted(),
    {
        (self.tokens, self.steps)
    }

    /// Reads an expression (a sum of terms) from the cursor on, and returns the
    /// index of the step that holds its value. It stops before a `)` or the end.
    pub fn parse_expression(&mut self) -> (r: Result<usize, CalcError>)
        requires
            old(self).wf(),
        ensures
            ran_as(
                final(self),
                r,
                old(self).input(),
                spec_expression(old(self).input(), old(self).cursor(), old(self).emitted(), 0),
            ),
    {
        self.expression(0)
    }

    fn expression(&mut self, depth: usize) -> (r: Result<usize, CalcError>)
        requires
            old(self).wf(),
            depth <= MAX_DEPTH + 1,
        ensures
            ran_as(
                final(self),
                r,
                old(self).input(),
                spec_expression(old(self).input(), old(self).cursor(), old(self).emitted(), depth as int),
            ),
            moved(old(self).input(), old(self).cursor(), final(self).cursor()),
        decreases old(self).input().len() - old(self).cursor(), 5int,
    {
        let ghost t = self.input();
        let ghost start = self.cursor();
        let ghost s0 = self.emitted();
        let mut acc = self.term(depth)?;
        loop
            invariant
                self.wf(),
                self.input() == t,
                t == old(self).input(),
                start == old(self).cursor(),
                s0 == old(self).emitted(),
                moved(t, start, self.cursor()),
                depth <= MAX_DEPTH + 1,
                spec_expression(t, start, s0, depth as int) == spec_expression_rest(
                    t,
                    self.cursor(),
                    self.emitted(),
                    depth as int,
                    acc,
                ),
            decreases t.len() - self.cursor(),
        {
            let k = self.peek();
            match k {
                Token::Plus | Token::Minus => {
                    self.advance();
                    let w = self.term(depth)?;
                    let st = match k {
                        Token::Plus => Step::Add(acc, w),
                        _ => Step::Subtract(acc, w),
                    };
                    acc = self.record(st);
                },
                Token::RParen | Token::EOF => {
                    return Ok(acc);
                },
                _ => {
                    return Err(CalcError::UnexpectedToken);
                },
            }
        }
    }

    fn term(&mut self, depth: usize) -> (r: Result<usize, CalcError>)
        requires
            old(self).wf(),
            depth <= MAX_DEPTH + 1,
        ensures
            ran_as(
                final(self),
                r,
                old(self).input(),
                spec_term(old(self).input(), old(self).cursor(), old(self).emitted(), depth as int),
            ),
            moved(old(self).input(), old(self).cursor(), final(self).cursor()),
        decreases old(self).input().len() - old(self).cursor(), 3int,
    {
        let ghost t = self.input();
        let ghost start = self.cursor();
        let ghost s0 = self.emitted();
        let mut acc = self.power(depth)?;
        loop
            invariant
                self.wf(),
                self.input() == t,
                t == old(self).input(),
                start == old(self).cursor(),
                s0 == old(self).emitted(),
                moved(t, start, self.cursor()),
                depth <= MAX_DEPTH + 1,
                spec_term(t, start, s0, depth as int) == spec_term_rest(
                    t,
                    self.cursor(),
                    self.emitted(),
                    depth as int,
                    acc,
                ),
            decreases t.len() - self.cursor(),
        {
            let k = self.peek();
            match k {
                Token::Multiply | Token::Divide | Token::Modulo => {
                    self.advance();
                    let w = self.power(depth)?;
                    let st = match k {
                        Token::Multiply => Step::Multiply(acc, w),
                        Token::Divide => Step::Divide(acc, w),
                        _ => Step::Modulo(acc, w),
                    };
                    acc = self.record(st);
                },
                _ => {
                    return Ok(acc);
                },
            }
        }
    }

    fn power(&mut self, depth: usize) -> (r: Result<usize, CalcError>)
        requires
            old(self).wf(),
            depth <= MAX_DEPTH + 1,
        ensures
            ran_as(
                final(self),
                r,
                old(self).input(),
                spec_power(old(self).input(), old(self).cursor(), old(self).emitted(), depth as int),
            ),
            moved(old(self).input(), old(self).cursor(), final(self).cursor()),
        decreases old(self).input().len() - old(self).cursor(), 1int,
    {
        let v = self.factor(depth)?;
        let k = self.peek();
        match k {
            Token::Power => {
                self.advance();
                let w = self.power(depth + 1)?;
                Ok(self.record(Step::Power(v, w)))
            },
            _ => Ok(v),
        }
    }

    /// Expects the `)` that closes a parenthesised expression whose value is step `v`.
    fn close(&mut self, v: usize, is_sqrt: bool) -> (r: Result<usize, CalcError>)
        requires
            old(self).wf(),
        ensures
            ran_as(
                final(self),
                r,
                old(self).input(),
                spec_close(
                    old(self).input(),
                    (Parsed { pos: old(self).cursor(), steps: old(self).emitted(), result: Ok(v) }),
                    is_sqrt,
                ),
            ),
            moved(old(self).input(), old(self).cursor(), final(self).cursor()),
    {
        let k = self.peek();
        match k {
            Token::RParen => {
                self.advance();
                if is_sqrt {
                    Ok(self.record(Step::Sqrt(v)))
                } else {
                    Ok(v)
                }
            },
            Token::EOF => Err(CalcError::UnclosedParenthesis),
            _ => Err(CalcError::ExpectedCloseParen),
        }
    }

    fn factor(&mut self, depth: usize) -> (r: Result<usize, CalcError>)
        requires
            old(self).wf(),
            depth <= MAX_DEPTH + 1,
        ensures
            ran_as(
                final(self),
                r,
                old(self).input(),
                spec_factor(old(self).input(), old(self).cursor(), old(self).emitted(), depth as int),
            ),
            moved(old(self).input(), old(self).cursor(), final(self).cursor()),
            r is Ok ==> depth <= MAX_DEPTH,
        decreases old(self).input().len() - old(self).cursor(), 0int,
    {
        if depth > MAX_DEPTH {
            return Err(CalcError::NestingTooDeep);
        }
        let k = self.peek();
        match k {
            Token::Number(_) => {
                let at = self.current;
                self.advance();
                Ok(self.record(Step::Number(at)))
            },
            Token::Minus => {
                self.advance();
                let v = self.factor(depth + 1)?;
                Ok(self.record(Step::Negate(v)))
            },
            Token::Plus => {
                self.advance();
                self.factor(depth + 1)
            },
            Token::Sqrt => {
                self.advance();
                let open = self.peek();
                match open {
                    Token::LParen => {
                        self.advance();
                        let v = self.expression(depth + 1)?;
                        self.close(v, true)
                    },
                    _ => Err(CalcError::ExpectedOpenParen),
                }
            },
            Token::LParen => {
                self.advance();
                let v = self.expression(depth + 1)?;
                self.close(v, false)
            },
            Token::RParen => Err(CalcError::UnmatchedCloseParen),
            Token::EOF => Err(CalcError::UnexpectedEnd),
            _ => Err(CalcError::ExpectedFactorToken),
        }
    }
}

} // verus!
