use vstd::prelude::*;
use crate::error::CalcError;
use vstd::std_specs::iter::IteratorSpec;

verus! {

broadcast use vstd::std_specs::iter::group_iter_axioms;

/// One lexical unit of an expression. A numeric literal keeps its text.
#[derive(Debug, PartialEq)]
pub enum Token {
    Number(Vec<char>),
    Plus,
    Minus,
    Multiply,
    Divide,
    Modulo,
    Power,
    Sqrt,
    LParen,
    RParen,
    EOF,
}

/// The mathematical value of a token: a literal is its sequence of characters.
pub enum Lexeme {
    Number(Seq<char>),
    Plus,
    Minus,
    Multiply,
    Divide,
    Modulo,
    Power,
    Sqrt,
    LParen,
    RParen,
    EOF,
}

impl View for Token {
    type V = Lexeme;

    open spec fn view(&self) -> Lexeme {
        match self {
            Token::Number(d) => Lexeme::Number(d@),
            Token::Plus => Lexeme::Plus,
            Token::Minus => Lexeme::Minus,
            Token::Multiply => Lexeme::Multiply,
            Token::Divide => Lexeme::Divide,
            Token::Modulo => Lexeme::Modulo,
            Token::Power => Lexeme::Power,
            Token::Sqrt => Lexeme::Sqrt,
            Token::LParen => Lexeme::LParen,
            Token::RParen => Lexeme::RParen,
            Token::EOF => Lexeme::EOF,
        }
    }
}

/// The lexemes of a sequence of tokens.
pub open spec fn lexemes(v: Seq<Token>) -> Seq<Lexeme> {
    v.map_values(|t: Token| t@)
}

pub open spec fn is_digit(c: char) -> bool {
    '0' <= c && c <= '9'
}

pub open spec fn is_alpha(c: char) -> bool {
    ('a' <= c && c <= 'z') || ('A' <= c && c <= 'Z')
}

/// A character that may continue an identifier.
pub open spec fn is_ident_char(c: char) -> bool {
    is_digit(c) || is_alpha(c) || c == '_'
}

/// The characters with Unicode's White_Space property.
pub open spec fn is_space(c: char) -> bool {
    ('\u{9}' <= c && c <= '\u{d}') || c == ' ' || c == '\u{85}' || c == '\u{a0}'
        || c == '\u{1680}' || ('\u{2000}' <= c && c <= '\u{200a}') || c == '\u{2028}'
        || c == '\u{2029}' || c == '\u{202f}' || c == '\u{205f}' || c == '\u{3000}'
}

/// The token that a single operator or parenthesis character stands for.
pub open spec fn symbol(c: char) -> Option<Lexeme> {
    if c == '+' {
        Some(Lexeme::Plus)
    } else if c == '-' {
        Some(Lexeme::Minus)
    } else if c == '*' {
        Some(Lexeme::Multiply)
    } else if c == '/' {
        Some(Lexeme::Divide)
    } else if c == '%' {
        Some(Lexeme::Modulo)
    } else if c == '^' {
        Some(Lexeme::Power)
    } else if c == '(' {
        Some(Lexeme::LParen)
    } else if c == ')' {
        Some(Lexeme::RParen)
    } else {
        None
    }
}

/// Length of the longest run of digits, holding at most one `.` (none if `seen_dot`),
/// that starts at `i`.
pub open spec fn number_len(c: Seq<char>, i: int, seen_dot: bool) -> nat
    decreases c.len() - i,
{
    if 0 <= i < c.len() && (is_digit(c[i]) || (c[i] == '.' && !seen_dot)) {
        1 + number_len(c, i + 1, seen_dot || c[i] == '.')
    } else {
        0
    }
}

/// Length of the longest run of identifier characters that starts at `i`.
pub open spec fn ident_len(c: Seq<char>, i: int) -> nat
    decreases c.len() - i,
{
    if 0 <= i < c.len() && is_ident_char(c[i]) {
        1 + ident_len(c, i + 1)
    } else {
        0
    }
}

pub(crate) proof fn lemma_number_len_bound(c: Seq<char>, i: int, seen_dot: bool)
    requires
        0 <= i <= c.len(),
    ensures
        i + number_len(c, i, seen_dot) <= c.len(),
    decreases c.len() - i,
{
    if 0 <= i < c.len() && (is_digit(c[i]) || (c[i] == '.' && !seen_dot)) {
        lemma_number_len_bound(c, i + 1, seen_dot || c[i] == '.');
    }
}

pub(crate) proof fn lemma_ident_len_bound(c: Seq<char>, i: int)
    requires
        0 <= i <= c.len(),
    ensures
        i + ident_len(c, i) <= c.len(),
    decreases c.len() - i,
{
    if 0 <= i < c.len() && is_ident_char(c[i]) {
        lemma_ident_len_bound(c, i + 1);
    }
}

#[via_fn]
proof fn lex_from_decreases(c: Seq<char>, i: int) {
    if 0 <= i < c.len() {
        lemma_number_len_bound(c, i + 1, c[i] == '.');
        lemma_ident_len_bound(c, i + 1);
    }
}

/// `r` with `head` put in front of its tokens; an error stays as it is.
pub open spec fn prefixed(head: Seq<Lexeme>, r: Result<Seq<Lexeme>, CalcError>) -> Result<
    Seq<Lexeme>,
    CalcError,
> {
    match r {
        Ok(s) => Ok(head + s),
        Err(e) => Err(e),
    }
}

/// The tokens of `c` from position `i` on, or the first lexical error found
/// from left to right.
pub open spec fn lex_from(c: Seq<char>, i: int) -> Result<Seq<Lexeme>, CalcError>
    decreases c.len() - i,
    via lex_from_decreases
{
    if i < 0 || i >= c.len() {
        Ok(Seq::empty())
    } else if is_space(c[i]) {
        lex_from(c, i + 1)
    } else if is_digit(c[i]) || c[i] == '.' {
        let e = i + 1 + number_len(c, i + 1, c[i] == '.');
        if c[e - 1] == '.' {
            Err(CalcError::InvalidNumber)
        } else {
            prefixed(seq![Lexeme::Number(c.subrange(i, e))], lex_from(c, e))
        }
    } else if is_alpha(c[i]) {
        let e = i + 1 + ident_len(c, i + 1);
        if c.subrange(i, e) == seq!['s', 'q', 'r', 't'] {
            prefixed(seq![Lexeme::Sqrt], lex_from(c, e))
        } else {
            Err(CalcError::UnknownFunction)
        }
    } else if let Some(t) = symbol(c[i]) {
        prefixed(seq![t], lex_from(c, i + 1))
    } else {
        Err(CalcError::InvalidCharacter)
    }
}

pub open spec fn has_number(s: Seq<Lexeme>) -> bool {
    exists|j: int| 0 <= j < s.len() && s[j] is Number
}

/// The tokens of a whole text: those of `lex_from`, provided one of them is a number.
pub open spec fn spec_tokenize(c: Seq<char>) -> Result<Seq<Lexeme>, CalcError> {
    match lex_from(c, 0) {
        Ok(s) => if has_number(s) {
            Ok(s)
        } else {
            Err(CalcError::NoOperand)
        },
        Err(e) => Err(e),
    }
}

/// The characters of a string, in order.
pub fn chars_of(s: &str) -> (r: Vec<char>)
    ensures
        r@ == s@,
{
    broadcast use vstd::string::axiom_spec_iter, vstd::string::next_postcondition;

    let mut it = s.chars();
    let mut r: Vec<char> = Vec::new();
    loop
        invariant
            it.obeys_prophetic_iter_laws(),
            r@ + it.remaining() == s@,
            it.decrease() is Some,
        ensures
            r@ == s@,
        decreases it.decrease()->0,
    {
        match it.next() {
            Some(c) => {
                r.push(c);
            },
            None => {
                assert(r@ + it.remaining() =~= r@);
                break;
            },
        }
    }
    r
}

fn is_digit_char(c: char) -> (r: bool)
    ensures
        r == is_digit(c),
{
    '0' <= c && c <= '9'
}

fn is_alpha_char(c: char) -> (r: bool)
    ensures
        r == is_alpha(c),
{
    ('a' <= c && c <= 'z') || ('A' <= c && c <= 'Z')
}

fn is_space_char(c: char) -> (r: bool)
    ensures
        r == is_space(c),
{
    ('\u{9}' <= c && c <= '\u{d}') || c == ' ' || c == '\u{85}' || c == '\u{a0}'
        || c == '\u{1680}' || ('\u{2000}' <= c && c <= '\u{200a}') || c == '\u{2028}'
        || c == '\u{2029}' || c == '\u{202f}' || c == '\u{205f}' || c == '\u{3000}'
}

/// Reads a numeric literal starting at `*pos`: the longest run of digits holding at
/// most one `.`. The cursor moves past the run, whether or not it is a valid literal.
pub fn parse_number(chars: &Vec<char>, pos: &mut usize) -> (r: Result<Vec<char>, CalcError>)
    requires
        *old(pos) <= chars@.len(),
    ensures
        *final(pos) == *old(pos) + number_len(chars@, *old(pos) as int, false),
        match r {
            Ok(d) => {
                &&& *final(pos) > *old(pos)
                &&& chars@[*final(pos) - 1] != '.'
                &&& d@ == chars@.subrange(*old(pos) as int, *final(pos) as int)
            },
            Err(e) => {
                &&& e == CalcError::InvalidNumber
                &&& (*final(pos) == *old(pos) || chars@[*final(pos) - 1] == '.')
            },
        },
{
    let ghost c = chars@;
    let ghost start = *pos as int;
    let mut digits: Vec<char> = Vec::new();
    let mut has_dot = false;
    while *pos < chars.len()
        invariant
            start <= *pos <= c.len(),
            c == chars@,
            digits@ == c.subrange(start, *pos as int),
            number_len(c, start, false) == (*pos - start) + number_len(c, *pos as int, has_dot),
        ensures
            start <= *pos <= c.len(),
            digits@ == c.subrange(start, *pos as int),
            number_len(c, start, false) == *pos - start,
        decreases chars.len() - *pos,
    {
        let ch = chars[*pos];
        if is_digit_char(ch) {
            digits.push(ch);
            *pos = *pos + 1;
        } else if ch == '.' && !has_dot {
            digits.push(ch);
            has_dot = true;
            *pos = *pos + 1;
        } else {
            break;
        }
        assert(digits@ =~= c.subrange(start, *pos as int));
    }
    if digits.len() == 0 {
        Err(CalcError::InvalidNumber)
    } else if digits[digits.len() - 1] == '.' {
        Err(CalcError::InvalidNumber)
    } else {
        Ok(digits)
    }
}

/// Reads an identifier starting at `*pos`: the longest run of ASCII letters, digits
/// and underscores. The cursor moves past the run; an empty run is an error.
pub fn parse_identifier(chars: &Vec<char>, pos: &mut usize) -> (r: Result<Vec<char>, CalcError>)
    requires
        *old(pos) <= chars@.len(),
    ensures
        *final(pos) == *old(pos) + ident_len(chars@, *old(pos) as int),
        match r {
            Ok(d) => *final(pos) > *old(pos) && d@ == chars@.subrange(
                *old(pos) as int,
                *final(pos) as int,
            ),
            Err(e) => e == CalcError::InvalidCharacter && *final(pos) == *old(pos),
        },
{
    let ghost c = chars@;
    let ghost start = *pos as int;
    let mut ident: Vec<char> = Vec::new();
    while *pos < chars.len()
        invariant
            start <= *pos <= c.len(),
            c == chars@,
            ident@ == c.subrange(start, *pos as int),
            ident_len(c, start) == (*pos - start) + ident_len(c, *pos as int),
        ensures
            start <= *pos <= c.len(),
            ident@ == c.subrange(start, *pos as int),
            ident_len(c, start) == *pos - start,
        decreases chars.len() - *pos,
    {
        let ch = chars[*pos];
        if is_digit_char(ch) || is_alpha_char(ch) || ch == '_' {
            ident.push(ch);
            *pos = *pos + 1;
        } else {
            break;
        }
        assert(ident@ =~= c.subrange(start, *pos as int));
    }
    if ident.len() == 0 {
        Err(CalcError::InvalidCharacter)
    } else {
        Ok(ident)
    }
}

/// Whether `r` is the outcome that `spec` describes.
pub open spec fn lexed_as(r: Result<Vec<Token>, CalcError>, spec: Result<Seq<Lexeme>, CalcError>) -> bool {
    match (r, spec) {
        (Ok(v), Ok(s)) => lexemes(v@) == s,
        (Err(e), Err(f)) => e == f,
        _ => false,
    }
}

proof fn lemma_prefixed_push(v: Seq<Token>, t: Token, r: Result<Seq<Lexeme>, CalcError>)
    ensures
        prefixed(lexemes(v), prefixed(seq![t@], r)) == prefixed(lexemes(v.push(t)), r),
        has_number(lexemes(v.push(t))) == (has_number(lexemes(v)) || t@ is Number),
{
    assert(lexemes(v.push(t)) =~= lexemes(v) + seq![t@]);
    if let Ok(s) = r {
        assert(lexemes(v) + (seq![t@] + s) =~= lexemes(v.push(t)) + s);
    }
    let w = lexemes(v.push(t));
    if has_number(w) && !(t@ is Number) {
        let j = choose|j: int| 0 <= j < w.len() && w[j] is Number;
        assert(lexemes(v)[j] is Number);
    }
    if t@ is Number {
        assert(w[w.len() - 1] is Number);
    }
    if has_number(lexemes(v)) {
        let j = choose|j: int| 0 <= j < lexemes(v).len() && lexemes(v)[j] is Number;
        assert(w[j] is Number);
    }
}

/// Splits an expression into tokens, from left to right, skipping white space.
/// Fails on the first malformed token, and when no numeric literal is present.
pub fn tokenize(expression: &str) -> (r: Result<Vec<Token>, CalcError>)
    ensures
        lexed_as(r, spec_tokenize(expression@)),
{
    let chars = chars_of(expression);
    let ghost c = chars@;
    let mut tokens: Vec<Token> = Vec::new();
    let mut found_number = false;
    let mut i: usize = 0;
    assert(lexemes(tokens@) =~= Seq::<Lexeme>::empty());
    assert(prefixed(Seq::<Lexeme>::empty(), lex_from(c, 0)) == lex_from(c, 0)) by {
        if let Ok(s) = lex_from(c, 0) {
            assert(Seq::<Lexeme>::empty() + s =~= s);
        }
    }
    while i < chars.len()
        invariant
            i <= c.len(),
            c == chars@,
            c == expression@,
            lex_from(c, 0) == prefixed(lexemes(tokens@), lex_from(c, i as int)),
            found_number == has_number(lexemes(tokens@)),
        decreases chars.len() - i,
    {
        let ch = chars[i];
        if is_space_char(ch) {
            i = i + 1;
        } else if is_digit_char(ch) || ch == '.' {
            let ghost start = i as int;
            assert(number_len(c, start, false) == 1 + number_len(c, start + 1, c[start] == '.'));
            proof {
                lemma_number_len_bound(c, start, false);
            }
            let digits = match parse_number(&chars, &mut i) {
                Ok(d) => d,
                Err(e) => {
                    assert(lex_from(c, start) == Err::<Seq<Lexeme>, CalcError>(e));
                    return Err(e);
                },
            };
            let t = Token::Number(digits);
            proof {
                lemma_prefixed_push(tokens@, t, lex_from(c, i as int));
            }
            tokens.push(t);
            found_number = true;
        } else if is_alpha_char(ch) {
            let ghost start = i as int;
            assert(ident_len(c, start) == 1 + ident_len(c, start + 1));
            proof {
                lemma_ident_len_bound(c, start);
            }
            let name = parse_identifier(&chars, &mut i)?;
            if name.len() == 4 && name[0] == 's' && name[1] == 'q' && name[2] == 'r' && name[3]
                == 't' {
                assert(name@ =~= seq!['s', 'q', 'r', 't']);
                proof {
                    lemma_prefixed_push(tokens@, Token::Sqrt, lex_from(c, i as int));
                }
                tokens.push(Token::Sqrt);
            } else {
                assert(name@ != seq!['s', 'q', 'r', 't']) by {
                    if name@ == seq!['s', 'q', 'r', 't'] {
                        assert(name@[0] == 's' && name@[1] == 'q' && name@[2] == 'r' && name@[3] == 't');
                    }
                }
                return Err(CalcError::UnknownFunction);
            }
        } else {
            let t = if ch == '+' {
                Token::Plus
            } else if ch == '-' {
                Token::Minus
            } else if ch == '*' {
                Token::Multiply
            } else if ch == '/' {
                Token::Divide
            } else if ch == '%' {
                Token::Modulo
            } else if ch == '^' {
                Token::Power
            } else if ch == '(' {
                Token::LParen
            } else if ch == ')' {
                Token::RParen
            } else {
                assert(symbol(ch) is None);
                assert(lex_from(c, i as int) == Err::<Seq<Lexeme>, CalcError>(
                    CalcError::InvalidCharacter,
                ));
                return Err(CalcError::InvalidCharacter);
            };
            proof {
                lemma_prefixed_push(tokens@, t, lex_from(c, i + 1));
            }
            tokens.push(t);
            i = i + 1;
        }
    }
    assert(prefixed(lexemes(tokens@), lex_from(c, i as int)) == Ok::<Seq<Lexeme>, CalcError>(lexemes(tokens@))) by {
        assert(lexemes(tokens@) + Seq::<Lexeme>::empty() =~= lexemes(tokens@));
    }
    if !found_number {
        return Err(CalcError::NoOperand);
    }
    Ok(tokens)
}

} // verus!
