use std::rc::Rc;
use vstd::prelude::*;
use vstd::string::StringSliceAdditionalSpecFns;

use crate::ast::{Ast, AstData, BinOp, UnOp};

verus! {

// ---------------------------------------------------------------------------
// Concrete syntax of L0, over the bytes of the source text.
//
//   cond  ::= conj  ( "||" conj )*
//   conj  ::= comp  ( "&&" comp )*
//   comp  ::= sum   ( ("=" | "<>" | "<" | ">" | "<=" | ">=") sum )*
//   sum   ::= prod  ( ("+" | "-") prod )*
//   prod  ::= unary ( ("*" | "/") unary )*
//   unary ::= "-" unary | "not" unary | atom
//   atom  ::= number | "true" | "false" | "(" cond ")"
//
// Binary operators associate to the left. Tokens may be separated by
// spaces, tabs and line breaks; a number is a run of decimal digits whose
// value fits in an `i64`; a word is a run of letters, digits and `_` that
// starts with a letter or `_`, and must be one of the keywords.
// ---------------------------------------------------------------------------

/// The tokens of L0.
#[derive(Debug, Clone, Copy, PartialEq, Eq, Structural)]
pub enum Token {
    Num(i64),
    True,
    False,
    Not,
    Plus,
    Minus,
    Star,
    Slash,
    AndAnd,
    OrOr,
    Equal,
    NotEqual,
    Less,
    Greater,
    LessEqual,
    GreaterEqual,
    LParen,
    RParen,
}

/// Why a text is not an L0 expression; `location` is a byte offset.
#[derive(Debug, Clone, Copy, PartialEq, Eq, Structural)]
pub enum ParseError {
    /// No token starts here.
    InvalidToken { location: usize },
    /// The number that starts here does not fit in an `i64`.
    IntegerOverflow { location: usize },
    /// The token that starts here cannot come where it stands.
    UnrecognizedToken { location: usize },
    /// The text ends where more was expected.
    UnrecognizedEof { location: usize },
}

pub open spec fn is_space(c: u8) -> bool {
    c == 32 || c == 9 || c == 10 || c == 13
}

pub open spec fn is_digit(c: u8) -> bool {
    48 <= c <= 57
}

pub open spec fn is_word_start(c: u8) -> bool {
    (65 <= c <= 90) || (97 <= c <= 122) || c == 95
}

pub open spec fn is_word_char(c: u8) -> bool {
    is_word_start(c) || is_digit(c)
}

/// End of the run of digits that starts at `i`.
pub open spec fn digits_end(s: Seq<u8>, i: int) -> int
    decreases s.len() - i,
{
    if 0 <= i < s.len() && is_digit(s[i]) {
        digits_end(s, i + 1)
    } else {
        i
    }
}

/// End of the run of word characters that starts at `i`.
pub open spec fn word_end(s: Seq<u8>, i: int) -> int
    decreases s.len() - i,
{
    if 0 <= i < s.len() && is_word_char(s[i]) {
        word_end(s, i + 1)
    } else {
        i
    }
}

/// The value of a run of decimal digits.
pub open spec fn decimal_value(d: Seq<u8>) -> nat
    decreases d.len(),
{
    if d.len() == 0 {
        0
    } else {
        decimal_value(d.drop_last()) * 10 + (d.last() - 48) as nat
    }
}

/// The keyword spelt by `w`, if any.
pub open spec fn keyword(w: Seq<u8>) -> Option<Token> {
    if w == seq![116u8, 114u8, 117u8, 101u8] {
        Some(Token::True)
    } else if w == seq![102u8, 97u8, 108u8, 115u8, 101u8] {
        Some(Token::False)
    } else if w == seq![110u8, 111u8, 116u8] {
        Some(Token::Not)
    } else {
        None
    }
}

/// The operator or parenthesis that starts at `i`, with its length; the
/// two-character operators are preferred.
pub open spec fn symbol(s: Seq<u8>, i: int) -> Option<(Token, int)> {
    let c = s[i];
    let d: u8 = if i + 1 < s.len() { s[i + 1] } else { 0 };
    if c == 38 && d == 38 {
        Some((Token::AndAnd, 2))
    } else if c == 124 && d == 124 {
        Some((Token::OrOr, 2))
    } else if c == 60 && d == 62 {
        Some((Token::NotEqual, 2))
    } else if c == 60 && d == 61 {
        Some((Token::LessEqual, 2))
    } else if c == 62 && d == 61 {
        Some((Token::GreaterEqual, 2))
    } else if c == 40 {
        Some((Token::LParen, 1))
    } else if c == 41 {
        Some((Token::RParen, 1))
    } else if c == 43 {
        Some((Token::Plus, 1))
    } else if c == 45 {
        Some((Token::Minus, 1))
    } else if c == 42 {
        Some((Token::Star, 1))
    } else if c == 47 {
        Some((Token::Slash, 1))
    } else if c == 61 {
        Some((Token::Equal, 1))
    } else if c == 60 {
        Some((Token::Less, 1))
    } else if c == 62 {
        Some((Token::Greater, 1))
    } else {
        None
    }
}

pub proof fn lemma_digits_end(s: Seq<u8>, i: int)
    requires
        0 <= i,
    ensures
        i <= digits_end(s, i),
        0 <= i < s.len() && is_digit(s[i]) ==> i < digits_end(s, i),
        digits_end(s, i) <= s.len() || digits_end(s, i) == i,
    decreases s.len() - i,
{
    if 0 <= i < s.len() && is_digit(s[i]) {
        lemma_digits_end(s, i + 1);
    }
}

pub proof fn lemma_word_end(s: Seq<u8>, i: int)
    requires
        0 <= i,
    ensures
        i <= word_end(s, i),
        0 <= i < s.len() && is_word_char(s[i]) ==> i < word_end(s, i),
        word_end(s, i) <= s.len() || word_end(s, i) == i,
    decreases s.len() - i,
{
    if 0 <= i < s.len() && is_word_char(s[i]) {
        lemma_word_end(s, i + 1);
    }
}

/// A token with the offset where it starts.
pub type Located = (Token, usize);

/// Prepends `t` to the tokens of a successful lexing.
pub open spec fn prepend(t: Located, r: Result<Seq<Located>, ParseError>) -> Result<Seq<Located>, ParseError> {
    match r {
        Ok(ts) => Ok(seq![t] + ts),
        Err(e) => Err(e),
    }
}

/// The tokens of `s` from offset `i` on, or the first lexical error.
pub open spec fn lex_from(s: Seq<u8>, i: int) -> Result<Seq<Located>, ParseError>
    decreases s.len() - i,
{
    if i < 0 || i >= s.len() {
        Ok(Seq::empty())
    } else if is_space(s[i]) {
        lex_from(s, i + 1)
    } else if is_digit(s[i]) {
        let j = digits_end(s, i);
        proof {
            lemma_digits_end(s, i);
        }
        if decimal_value(s.subrange(i, j)) > i64::MAX {
            Err(ParseError::IntegerOverflow { location: i as usize })
        } else {
            prepend((Token::Num(decimal_value(s.subrange(i, j)) as i64), i as usize), lex_from(s, j))
        }
    } else if is_word_start(s[i]) {
        let j = word_end(s, i);
        proof {
            lemma_word_end(s, i);
        }
        match keyword(s.subrange(i, j)) {
            Some(t) => prepend((t, i as usize), lex_from(s, j)),
            None => Err(ParseError::InvalidToken { location: i as usize }),
        }
    } else {
        match symbol(s, i) {
            Some((t, w)) => prepend((t, i as usize), lex_from(s, i + w)),
            None => Err(ParseError::InvalidToken { location: i as usize }),
        }
    }
}

/// The binary operator that a token stands for at precedence level `n`
/// (0: `||`, 1: `&&`, 2: comparisons, 3: `+ -`, 4: `* /`).
pub open spec fn level_op(n: int, t: Token) -> Option<BinOp> {
    if n == 0 {
        match t {
            Token::OrOr => Some(BinOp::Or),
            _ => None,
        }
    } else if n == 1 {
        match t {
            Token::AndAnd => Some(BinOp::And),
            _ => None,
        }
    } else if n == 2 {
        match t {
            Token::Equal => Some(BinOp::Eq),
            Token::NotEqual => Some(BinOp::Ne),
            Token::Less => Some(BinOp::Lt),
            Token::Greater => Some(BinOp::Gt),
            Token::LessEqual => Some(BinOp::Le),
            Token::GreaterEqual => Some(BinOp::Ge),
            _ => None,
        }
    } else if n == 3 {
        match t {
            Token::Plus => Some(BinOp::Add),
            Token::Minus => Some(BinOp::Sub),
            _ => None,
        }
    } else if n == 4 {
        match t {
            Token::Star => Some(BinOp::Mul),
            Token::Slash => Some(BinOp::Div),
            _ => None,
        }
    } else {
        None
    }
}

/// The result of parsing from a token index: the tree and the index after
/// it, or the index of the token where parsing failed (the length of the
/// token sequence if it ran out).
pub type Parsed = Result<(AstData, int), int>;

/// Parses the operand level below `n` from `p`.
pub open spec fn p_operand(t: Seq<Token>, p: int, n: int) -> Parsed
    decreases t.len() - p, 3 * (5 - n) + 1,
{
    if 0 <= n < 4 {
        p_level(t, p, n + 1)
    } else if n == 4 {
        p_unary(t, p)
    } else {
        Err(p)
    }
}

/// Parses precedence level `n` (`0 <= n <= 4`) from `p`.
pub open spec fn p_level(t: Seq<Token>, p: int, n: int) -> Parsed
    decreases t.len() - p, 3 * (5 - n) + 2,
{
    if !(0 <= n <= 4) {
        Err(p)
    } else {
        match p_operand(t, p, n) {
            Ok((l, q)) => if p <= q <= t.len() { level_rest(t, q, n, l) } else { Err(q) },
            Err(x) => Err(x),
        }
    }
}

/// Continues level `n` at `q` after the left operand `acc`.
pub open spec fn level_rest(t: Seq<Token>, q: int, n: int, acc: AstData) -> Parsed
    decreases t.len() - q, 3 * (5 - n),
{
    if !(0 <= n <= 4) || q < 0 {
        Err(q)
    } else if q < t.len() && level_op(n, t[q]) is Some {
        match p_operand(t, q + 1, n) {
            Ok((r, q2)) => if q < q2 <= t.len() {
                level_rest(
                    t,
                    q2,
                    n,
                    AstData::BinOp(level_op(n, t[q])->Some_0, Rc::new(acc), Rc::new(r)),
                )
            } else {
                Err(q2)
            },
            Err(x) => Err(x),
        }
    } else {
        Ok((acc, q))
    }
}

/// Parses a unary expression from `p`.
pub open spec fn p_unary(t: Seq<Token>, p: int) -> Parsed
    decreases t.len() - p, 1int,
{
    if 0 <= p < t.len() && (t[p] is Minus || t[p] is Not) {
        let op = if t[p] is Minus { UnOp::Neg } else { UnOp::Not };
        match p_unary(t, p + 1) {
            Ok((e, q)) => Ok((AstData::UnOp(op, Rc::new(e)), q)),
            Err(x) => Err(x),
        }
    } else {
        p_atom(t, p)
    }
}

/// Parses a literal or a parenthesized expression from `p`.
pub open spec fn p_atom(t: Seq<Token>, p: int) -> Parsed
    decreases t.len() - p, 0int,
{
    if p < 0 || p >= t.len() {
        Err(p)
    } else {
        match t[p] {
            Token::Num(n) => Ok((AstData::Num(n), p + 1)),
            Token::True => Ok((AstData::Bool(true), p + 1)),
            Token::False => Ok((AstData::Bool(false), p + 1)),
            Token::LParen => match p_level(t, p + 1, 0) {
                Ok((e, q)) => if 0 <= q < t.len() && t[q] is RParen {
                    Ok((e, q + 1))
                } else {
                    Err(q)
                },
                Err(x) => Err(x),
            },
            _ => Err(p),
        }
    }
}

/// The tokens without their offsets.
pub open spec fn token_kinds(toks: Seq<Located>) -> Seq<Token> {
    toks.map_values(|l: Located| l.0)
}

/// The error reported for a failure at token index `x`.
pub open spec fn failure_at(toks: Seq<Located>, x: int, text_len: int) -> ParseError {
    if 0 <= x < toks.len() {
        ParseError::UnrecognizedToken { location: toks[x].1 as usize }
    } else {
        ParseError::UnrecognizedEof { location: text_len as usize }
    }
}

/// The expression that the text `s` denotes: the tokens of `s` must form
/// exactly one `cond`.
pub open spec fn spec_parse(s: Seq<u8>) -> Result<AstData, ParseError> {
    match lex_from(s, 0) {
        Err(e) => Err(e),
        Ok(toks) => {
            let t = token_kinds(toks);
            match p_level(t, 0, 0) {
                Ok((e, q)) => if q == t.len() {
                    Ok(e)
                } else {
                    Err(failure_at(toks, q, s.len() as int))
                },
                Err(x) => Err(failure_at(toks, x, s.len() as int)),
            }
        },
    }
}

// ---------------------------------------------------------------------------
// Every successful parse consumes at least one token and stays in bounds.
// ---------------------------------------------------------------------------

pub proof fn lemma_operand_advances(t: Seq<Token>, p: int, n: int)
    requires
        0 <= p <= t.len(),
    ensures
        p_operand(t, p, n) matches Ok((_, q)) ==> p < q <= t.len(),
    decreases t.len() - p, 3 * (5 - n) + 1,
{
    if 0 <= n < 4 {
        lemma_level_advances(t, p, n + 1);
    } else if n == 4 {
        lemma_unary_advances(t, p);
    }
}

pub proof fn lemma_level_advances(t: Seq<Token>, p: int, n: int)
    requires
        0 <= p <= t.len(),
    ensures
        p_level(t, p, n) matches Ok((_, q)) ==> p < q <= t.len(),
    decreases t.len() - p, 3 * (5 - n) + 2,
{
    if 0 <= n <= 4 {
        lemma_operand_advances(t, p, n);
        if let Ok((l, q)) = p_operand(t, p, n) {
            lemma_rest_advances(t, q, n, l);
        }
    }
}

pub proof fn lemma_rest_advances(t: Seq<Token>, q: int, n: int, acc: AstData)
    requires
        0 <= q <= t.len(),
    ensures
        level_rest(t, q, n, acc) matches Ok((_, q2)) ==> q <= q2 <= t.len(),
    decreases t.len() - q, 3 * (5 - n),
{
    if 0 <= n <= 4 && q < t.len() && level_op(n, t[q]) is Some {
        lemma_operand_advances(t, q + 1, n);
        if let Ok((r, q2)) = p_operand(t, q + 1, n) {
            lemma_rest_advances(
                t,
                q2,
                n,
                AstData::BinOp(level_op(n, t[q])->Some_0, Rc::new(acc), Rc::new(r)),
            );
        }
    }
}

pub proof fn lemma_unary_advances(t: Seq<Token>, p: int)
    requires
        0 <= p <= t.len(),
    ensures
        p_unary(t, p) matches Ok((_, q)) ==> p < q <= t.len(),
    decreases t.len() - p, 1int,
{
    if 0 <= p < t.len() && (t[p] is Minus || t[p] is Not) {
        lemma_unary_advances(t, p + 1);
    } else {
        lemma_atom_advances(t, p);
    }
}

pub proof fn lemma_atom_advances(t: Seq<Token>, p: int)
    requires
        0 <= p <= t.len(),
    ensures
        p_atom(t, p) matches Ok((_, q)) ==> p < q <= t.len(),
    decreases t.len() - p, 0int,
{
    if 0 <= p < t.len() && t[p] is LParen {
        lemma_level_advances(t, p + 1, 0);
    }
}

// ---------------------------------------------------------------------------
// The parser.
// ---------------------------------------------------------------------------

pub open spec fn parsed_view(r: Result<(Ast, usize), usize>) -> Parsed {
    match r {
        Ok((a, q)) => Ok((*a, q as int)),
        Err(x) => Err(x as int),
    }
}

fn exec_level_op(n: usize, t: Token) -> (res: Option<BinOp>)
    ensures
        res == level_op(n as int, t),
{
    if n == 0 {
        match t {
            Token::OrOr => Some(BinOp::Or),
            _ => None,
        }
    } else if n == 1 {
        match t {
            Token::AndAnd => Some(BinOp::And),
            _ => None,
        }
    } else if n == 2 {
        match t {
            Token::Equal => Some(BinOp::Eq),
            Token::NotEqual => Some(BinOp::Ne),
            Token::Less => Some(BinOp::Lt),
            Token::Greater => Some(BinOp::Gt),
            Token::LessEqual => Some(BinOp::Le),
            Token::GreaterEqual => Some(BinOp::Ge),
            _ => None,
        }
    } else if n == 3 {
        match t {
            Token::Plus => Some(BinOp::Add),
            Token::Minus => Some(BinOp::Sub),
            _ => None,
        }
    } else if n == 4 {
        match t {
            Token::Star => Some(BinOp::Mul),
            Token::Slash => Some(BinOp::Div),
            _ => None,
        }
    } else {
        None
    }
}

fn parse_operand(toks: &Vec<Located>, p: usize, n: usize) -> (res: Result<(Ast, usize), usize>)
    requires
        p <= toks@.len(),
        n <= 4,
    ensures
        parsed_view(res) == p_operand(token_kinds(toks@), p as int, n as int),
    decreases toks@.len() - p, 3 * (5 - n) + 1,
{
    if n < 4 {
        parse_level(toks, p, n + 1)
    } else {
        parse_unary(toks, p)
    }
}

fn parse_level(toks: &Vec<Located>, p: usize, n: usize) -> (res: Result<(Ast, usize), usize>)
    requires
        p <= toks@.len(),
        n <= 4,
    ensures
        parsed_view(res) == p_level(token_kinds(toks@), p as int, n as int),
    decreases toks@.len() - p, 3 * (5 - n) + 2,
{
    let ghost t = token_kinds(toks@);
    proof {
        lemma_operand_advances(t, p as int, n as int);
    }
    let (mut acc, mut q) = parse_operand(toks, p, n)?;
    loop
        invariant
            t == token_kinds(toks@),
            p < q <= toks@.len(),
            n <= 4,
            p_level(t, p as int, n as int) == level_rest(t, q as int, n as int, *acc),
        decreases toks@.len() - q,
    {
        if q < toks.len() {
            match exec_level_op(n, toks[q].0) {
                Some(op) => {
                    proof {
                        lemma_operand_advances(t, q + 1, n as int);
                    }
                    let (r, q2) = parse_operand(toks, q + 1, n)?;
                    acc = Rc::new(AstData::BinOp(op, acc, r));
                    q = q2;
                    continue;
                },
                None => {},
            }
        }
        return Ok((acc, q));
    }
}

fn parse_unary(toks: &Vec<Located>, p: usize) -> (res: Result<(Ast, usize), usize>)
    requires
        p <= toks@.len(),
    ensures
        parsed_view(res) == p_unary(token_kinds(toks@), p as int),
    decreases toks@.len() - p, 1int,
{
    if p < toks.len() {
        let op = match toks[p].0 {
            Token::Minus => Some(UnOp::Neg),
            Token::Not => Some(UnOp::Not),
            _ => None,
        };
        if let Some(op) = op {
            let (e, q) = parse_unary(toks, p + 1)?;
            return Ok((Rc::new(AstData::UnOp(op, e)), q));
        }
    }
    parse_atom(toks, p)
}

fn parse_atom(toks: &Vec<Located>, p: usize) -> (res: Result<(Ast, usize), usize>)
    requires
        p <= toks@.len(),
    ensures
        parsed_view(res) == p_atom(token_kinds(toks@), p as int),
    decreases toks@.len() - p, 0int,
{
    if p >= toks.len() {
        return Err(p);
    }
    match toks[p].0 {
        Token::Num(n) => Ok((Rc::new(AstData::Num(n)), p + 1)),
        Token::True => Ok((Rc::new(AstData::Bool(true)), p + 1)),
        Token::False => Ok((Rc::new(AstData::Bool(false)), p + 1)),
        Token::LParen => {
            proof {
                lemma_level_advances(token_kinds(toks@), p + 1, 0);
            }
            let (e, q) = parse_level(toks, p + 1, 0)?;
            if q < toks.len() && toks[q].0 == Token::RParen {
                Ok((e, q + 1))
            } else {
                Err(q)
            }
        },
        _ => Err(p),
    }
}

// ---------------------------------------------------------------------------
// The lexer.
// ---------------------------------------------------------------------------

/// Prepends the tokens `xs` to those of a successful lexing.
pub open spec fn prepend_all(xs: Seq<Located>, r: Result<Seq<Located>, ParseError>) -> Result<
    Seq<Located>,
    ParseError,
> {
    match r {
        Ok(ys) => Ok(xs + ys),
        Err(e) => Err(e),
    }
}

fn exec_is_space(c: u8) -> (res: bool)
    ensures
        res == is_space(c),
{
    c == 32 || c == 9 || c == 10 || c == 13
}

fn exec_is_digit(c: u8) -> (res: bool)
    ensures
        res == is_digit(c),
{
    48 <= c && c <= 57
}

fn exec_is_word_start(c: u8) -> (res: bool)
    ensures
        res == is_word_start(c),
{
    (65 <= c && c <= 90) || (97 <= c && c <= 122) || c == 95
}

/// Reads the number that starts at `i`: where it ends, and its value unless
/// it exceeds `i64::MAX`.
fn scan_number(s: &[u8], i: usize) -> (res: (usize, Option<i64>))
    requires
        i < s@.len(),
        is_digit(s@[i as int]),
    ensures
        res.0 == digits_end(s@, i as int),
        res.1 == if decimal_value(s@.subrange(i as int, res.0 as int)) > i64::MAX {
            None::<i64>
        } else {
            Some(decimal_value(s@.subrange(i as int, res.0 as int)) as i64)
        },
{
    let mut k = i;
    let mut acc: u128 = 0;
    let mut overflow = false;
    proof {
        assert(s@.subrange(i as int, i as int) =~= Seq::<u8>::empty());
    }
    while k < s.len() && exec_is_digit(s[k])
        invariant
            i <= k <= s@.len(),
            digits_end(s@, i as int) == digits_end(s@, k as int),
            overflow == (decimal_value(s@.subrange(i as int, k as int)) > i64::MAX),
            !overflow ==> acc == decimal_value(s@.subrange(i as int, k as int)),
        decreases s@.len() - k,
    {
        let ghost before = decimal_value(s@.subrange(i as int, k as int));
        proof {
            assert(s@.subrange(i as int, k + 1).drop_last() =~= s@.subrange(i as int, k as int));
        }
        let d = (s[k] - 48) as u128;
        if !overflow {
            let next = acc * 10 + d;
            if next > 9223372036854775807u128 {
                overflow = true;
            } else {
                acc = next;
            }
        }
        k = k + 1;
    }
    if overflow {
        (k, None)
    } else {
        (k, Some(acc as i64))
    }
}

/// Where the word that starts at `i` ends.
fn scan_word(s: &[u8], i: usize) -> (j: usize)
    requires
        i <= s@.len(),
    ensures
        j == word_end(s@, i as int),
{
    let mut k = i;
    while k < s.len() && (exec_is_word_start(s[k]) || exec_is_digit(s[k]))
        invariant
            i <= k <= s@.len(),
            word_end(s@, i as int) == word_end(s@, k as int),
        decreases s@.len() - k,
    {
        k = k + 1;
    }
    k
}

/// The keyword spelt by the bytes from `i` to `j`, if any.
fn scan_keyword(s: &[u8], i: usize, j: usize) -> (res: Option<Token>)
    requires
        i <= j <= s@.len(),
    ensures
        res == keyword(s@.subrange(i as int, j as int)),
{
    let ghost w = s@.subrange(i as int, j as int);
    if j - i == 4 && s[i] == 116 && s[i + 1] == 114 && s[i + 2] == 117 && s[i + 3] == 101 {
        assert(w =~= seq![116u8, 114u8, 117u8, 101u8]);
        Some(Token::True)
    } else if j - i == 5 && s[i] == 102 && s[i + 1] == 97 && s[i + 2] == 108 && s[i + 3] == 115
        && s[i + 4] == 101 {
        assert(w =~= seq![102u8, 97u8, 108u8, 115u8, 101u8]);
        assert(w != seq![116u8, 114u8, 117u8, 101u8]);
        Some(Token::False)
    } else if j - i == 3 && s[i] == 110 && s[i + 1] == 111 && s[i + 2] == 116 {
        assert(w =~= seq![110u8, 111u8, 116u8]);
        assert(w.len() == 3);
        Some(Token::Not)
    } else {
        proof {
            assert forall|k: int| 0 <= k < w.len() implies w[k] == s@[i + k] by {}
            if w == seq![116u8, 114u8, 117u8, 101u8] {
                assert(w.len() == 4);
                assert(w[0] == 116u8 && w[1] == 114u8 && w[2] == 117u8 && w[3] == 101u8);
                assert(w[0] == s@[i as int] && w[1] == s@[i + 1] && w[2] == s@[i + 2] && w[3] == s@[i + 3]);
            }
            if w == seq![102u8, 97u8, 108u8, 115u8, 101u8] {
                assert(w.len() == 5);
                assert(w[0] == 102u8 && w[1] == 97u8 && w[2] == 108u8 && w[3] == 115u8 && w[4] == 101u8);
                assert(w[0] == s@[i as int] && w[1] == s@[i + 1] && w[2] == s@[i + 2] && w[3] == s@[i + 3] && w[4] == s@[i + 4]);
            }
            if w == seq![110u8, 111u8, 116u8] {
                assert(w.len() == 3);
                assert(w[0] == 110u8 && w[1] == 111u8 && w[2] == 116u8);
                assert(w[0] == s@[i as int] && w[1] == s@[i + 1] && w[2] == s@[i + 2]);
            }
        }
        None
    }
}

/// The operator or parenthesis that starts at `i`, with its length.
fn scan_symbol(s: &[u8], i: usize) -> (res: Option<(Token, usize)>)
    requires
        i < s@.len(),
    ensures
        match res {
            Some((t, w)) => symbol(s@, i as int) == Some((t, w as int)),
            None => symbol(s@, i as int) is None,
        },
{
    let c = s[i];
    let d: u8 = if i + 1 < s.len() { s[i + 1] } else { 0 };
    if c == 38 && d == 38 {
        Some((Token::AndAnd, 2))
    } else if c == 124 && d == 124 {
        Some((Token::OrOr, 2))
    } else if c == 60 && d == 62 {
        Some((Token::NotEqual, 2))
    } else if c == 60 && d == 61 {
        Some((Token::LessEqual, 2))
    } else if c == 62 && d == 61 {
        Some((Token::GreaterEqual, 2))
    } else if c == 40 {
        Some((Token::LParen, 1))
    } else if c == 41 {
        Some((Token::RParen, 1))
    } else if c == 43 {
        Some((Token::Plus, 1))
    } else if c == 45 {
        Some((Token::Minus, 1))
    } else if c == 42 {
        Some((Token::Star, 1))
    } else if c == 47 {
        Some((Token::Slash, 1))
    } else if c == 61 {
        Some((Token::Equal, 1))
    } else if c == 60 {
        Some((Token::Less, 1))
    } else if c == 62 {
        Some((Token::Greater, 1))
    } else {
        None
    }
}

/// Splits the text into located tokens.
fn lex(s: &[u8]) -> (res: Result<Vec<Located>, ParseError>)
    ensures
        match res {
            Ok(v) => lex_from(s@, 0) == Ok::<Seq<Located>, ParseError>(v@),
            Err(e) => lex_from(s@, 0) == Err::<Seq<Located>, ParseError>(e),
        },
{
    let mut out: Vec<Located> = Vec::new();
    let mut i: usize = 0;
    proof {
        assert(prepend_all(out@, lex_from(s@, 0)) == lex_from(s@, 0)) by {
            if let Ok(ys) = lex_from(s@, 0) {
                assert(out@ + ys =~= ys);
            }
        }
    }
    while i < s.len()
        invariant
            i <= s@.len(),
            lex_from(s@, 0) == prepend_all(out@, lex_from(s@, i as int)),
        decreases s@.len() - i,
    {
        let c = s[i];
        let ghost old_out = out@;
        if exec_is_space(c) {
            i = i + 1;
        } else if exec_is_digit(c) {
            let (j, value) = scan_number(s, i);
            proof {
                lemma_digits_end(s@, i as int);
            }
            match value {
                None => {
                    return Err(ParseError::IntegerOverflow { location: i });
                },
                Some(v) => {
                    out.push((Token::Num(v), i));
                    proof {
                        if let Ok(ys) = lex_from(s@, j as int) {
                            assert(old_out + (seq![(Token::Num(v), i)] + ys) =~= out@ + ys);
                        }
                    }
                    i = j;
                },
            }
        } else if exec_is_word_start(c) {
            let j = scan_word(s, i);
            proof {
                lemma_word_end(s@, i as int);
            }
            match scan_keyword(s, i, j) {
                None => {
                    return Err(ParseError::InvalidToken { location: i });
                },
                Some(t) => {
                    out.push((t, i));
                    proof {
                        if let Ok(ys) = lex_from(s@, j as int) {
                            assert(old_out + (seq![(t, i)] + ys) =~= out@ + ys);
                        }
                    }
                    i = j;
                },
            }
        } else {
            match scan_symbol(s, i) {
                None => {
                    return Err(ParseError::InvalidToken { location: i });
                },
                Some((t, w)) => {
                    out.push((t, i));
                    proof {
                        if let Ok(ys) = lex_from(s@, i + w) {
                            assert(old_out + (seq![(t, i)] + ys) =~= out@ + ys);
                        }
                    }
                    i = i + w;
                },
            }
        }
    }
    proof {
        assert(out@ + Seq::<Located>::empty() =~= out@);
    }
    Ok(out)
}

// ---------------------------------------------------------------------------
// The entry point.
// ---------------------------------------------------------------------------

/// Parses the bytes of a text as one L0 expression.
pub fn parse_bytes(s: &[u8]) -> (res: Result<Ast, ParseError>)
    ensures
        match res {
            Ok(a) => spec_parse(s@) == Ok::<AstData, ParseError>(*a),
            Err(e) => spec_parse(s@) == Err::<AstData, ParseError>(e),
        },
{
    let toks = lex(s)?;
    let ghost t = token_kinds(toks@);
    match parse_level(&toks, 0, 0) {
        Ok((e, q)) => {
            if q == toks.len() {
                Ok(e)
            } else if q < toks.len() {
                Err(ParseError::UnrecognizedToken { location: toks[q].1 })
            } else {
                Err(ParseError::UnrecognizedEof { location: s.len() })
            }
        },
        Err(x) => {
            if x < toks.len() {
                Err(ParseError::UnrecognizedToken { location: toks[x].1 })
            } else {
                Err(ParseError::UnrecognizedEof { location: s.len() })
            }
        },
    }
}

/// The parser of L0 expressions (the `cond` rule of the grammar above).
pub struct CondParser {}

impl CondParser {
    pub fn new() -> (res: Self) {
        CondParser {  }
    }

    /// Parses a text as one L0 expression.
    pub fn parse(&self, input: &str) -> (res: Result<Ast, ParseError>)
        ensures
            match res {
                Ok(a) => spec_parse(input.spec_bytes()) == Ok::<AstData, ParseError>(*a),
                Err(e) => spec_parse(input.spec_bytes()) == Err::<AstData, ParseError>(e),
            },
    {
        parse_bytes(input.as_bytes())
    }
}

} // verus!
