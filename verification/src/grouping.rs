use vstd::prelude::*;

use std::rc::Rc;

use crate::ast::{AstData, BinOp};
use crate::grammar::{
    decimal_value, digits_end, is_digit, is_space, is_word_char, is_word_start, keyword,
    lemma_digits_end, lemma_word_end, level_op, level_rest, lex_from, p_atom, p_level, p_operand,
    p_unary, spec_parse, symbol, token_kinds, word_end, Located, ParseError, Token,
};

verus! {

// ---------------------------------------------------------------------------
// Parentheses group without changing the meaning: an expression written
// between parentheses parses to the same tree as the expression alone.
// ---------------------------------------------------------------------------

/// The text `s` between parentheses.
pub open spec fn parenthesized(s: Seq<u8>) -> Seq<u8> {
    seq![40u8] + s + seq![41u8]
}

/// Tokens moved one byte to the right.
pub open spec fn shifted(toks: Seq<Located>) -> Seq<Located> {
    toks.map_values(|l: Located| (l.0, (l.1 + 1) as usize))
}

proof fn lemma_parenthesized_bytes(s: Seq<u8>)
    ensures
        parenthesized(s).len() == s.len() + 2,
        parenthesized(s)[0] == 40u8,
        parenthesized(s)[s.len() + 1int] == 41u8,
        forall|k: int| 0 <= k < s.len() ==> #[trigger] parenthesized(s)[k + 1] == s[k],
{
}

proof fn lemma_digits_end_parenthesized(s: Seq<u8>, k: int)
    requires
        0 <= k <= s.len(),
    ensures
        digits_end(parenthesized(s), k + 1) == digits_end(s, k) + 1,
    decreases s.len() - k,
{
    lemma_parenthesized_bytes(s);
    if k < s.len() && is_digit(s[k]) {
        lemma_digits_end_parenthesized(s, k + 1);
    }
}

proof fn lemma_word_end_parenthesized(s: Seq<u8>, k: int)
    requires
        0 <= k <= s.len(),
    ensures
        word_end(parenthesized(s), k + 1) == word_end(s, k) + 1,
    decreases s.len() - k,
{
    lemma_parenthesized_bytes(s);
    if k < s.len() && is_word_char(s[k]) {
        lemma_word_end_parenthesized(s, k + 1);
    }
}

proof fn lemma_shifted_prepend(t: Located, ts: Seq<Located>)
    requires
        t.1 < usize::MAX,
    ensures
        shifted(seq![t] + ts) == seq![(t.0, (t.1 + 1) as usize)] + shifted(ts),
{
    assert(shifted(seq![t] + ts) =~= seq![(t.0, (t.1 + 1) as usize)] + shifted(ts));
}

/// Lexing inside the parentheses gives the tokens of `s` shifted by one
/// byte, then the closing parenthesis.
proof fn lemma_lex_parenthesized(s: Seq<u8>, i: int)
    requires
        0 <= i <= s.len(),
        s.len() + 2 <= usize::MAX,
        lex_from(s, i) is Ok,
    ensures
        lex_from(parenthesized(s), i + 1) == Ok::<Seq<Located>, ParseError>(
            shifted(lex_from(s, i)->Ok_0) + seq![(Token::RParen, (s.len() + 1) as usize)],
        ),
    decreases s.len() - i,
{
    let w = parenthesized(s);
    lemma_parenthesized_bytes(s);
    let close = seq![(Token::RParen, (s.len() + 1) as usize)];
    if i == s.len() {
        assert(symbol(w, i + 1) == Some((Token::RParen, 1int)));
        assert(lex_from(w, i + 2) == Ok::<Seq<Located>, ParseError>(Seq::empty()));
        assert(shifted(Seq::<Located>::empty()) + close =~= seq![(Token::RParen, (i + 1) as usize)]
            + Seq::<Located>::empty());
    } else {
        assert(w[i + 1] == s[i]);
        if is_space(s[i]) {
            lemma_lex_parenthesized(s, i + 1);
        } else if is_digit(s[i]) {
            let j = digits_end(s, i);
            lemma_digits_end(s, i);
            lemma_digits_end_parenthesized(s, i);
            assert(w.subrange(i + 1, j + 1) =~= s.subrange(i, j));
            lemma_lex_parenthesized(s, j);
            let v = decimal_value(s.subrange(i, j)) as i64;
            let rest = lex_from(s, j)->Ok_0;
            lemma_shifted_prepend((Token::Num(v), i as usize), rest);
            assert(seq![(Token::Num(v), (i + 1) as usize)] + (shifted(rest) + close) =~= (seq![
                (Token::Num(v), (i + 1) as usize),
            ] + shifted(rest)) + close);
        } else if is_word_start(s[i]) {
            let j = word_end(s, i);
            lemma_word_end(s, i);
            lemma_word_end_parenthesized(s, i);
            assert(w.subrange(i + 1, j + 1) =~= s.subrange(i, j));
            lemma_lex_parenthesized(s, j);
            let t = keyword(s.subrange(i, j))->Some_0;
            let rest = lex_from(s, j)->Ok_0;
            lemma_shifted_prepend((t, i as usize), rest);
            assert(seq![(t, (i + 1) as usize)] + (shifted(rest) + close) =~= (seq![
                (t, (i + 1) as usize),
            ] + shifted(rest)) + close);
        } else {
            assert(symbol(w, i + 1) == symbol(s, i)) by {
                if i + 1 < s.len() {
                    assert(w[i + 2] == s[i + 1]);
                }
            }
            let (t, width) = symbol(s, i)->Some_0;
            lemma_lex_parenthesized(s, i + width);
            let rest = lex_from(s, i + width)->Ok_0;
            lemma_shifted_prepend((t, i as usize), rest);
            assert(seq![(t, (i + 1) as usize)] + (shifted(rest) + close) =~= (seq![
                (t, (i + 1) as usize),
            ] + shifted(rest)) + close);
        }
    }
}

/// The token sequence `t` between a left and a right parenthesis.
pub open spec fn wrapped(t: Seq<Token>) -> Seq<Token> {
    seq![Token::LParen] + t + seq![Token::RParen]
}

proof fn lemma_wrapped(t: Seq<Token>)
    ensures
        wrapped(t).len() == t.len() + 2,
        wrapped(t)[0] == Token::LParen,
        wrapped(t)[t.len() + 1int] == Token::RParen,
        forall|k: int| 0 <= k < t.len() ==> #[trigger] wrapped(t)[k + 1] == t[k],
{
}

// A successful parse of `t` from `p` is a successful parse of `wrapped(t)`
// from `p + 1`: the parser never looks left of where it starts, and the
// closing parenthesis after the end neither continues an operator chain
// nor starts an operand.

proof fn lemma_operand_wrapped(t: Seq<Token>, p: int, n: int)
    requires
        0 <= p <= t.len(),
    ensures
        p_operand(t, p, n) matches Ok((e, q)) ==> p_operand(wrapped(t), p + 1, n) == Ok::<
            (AstData, int),
            int,
        >((e, q + 1)),
    decreases t.len() - p, 3 * (5 - n) + 1,
{
    if 0 <= n < 4 {
        lemma_level_wrapped(t, p, n + 1);
    } else if n == 4 {
        lemma_unary_wrapped(t, p);
    }
}

proof fn lemma_level_wrapped(t: Seq<Token>, p: int, n: int)
    requires
        0 <= p <= t.len(),
    ensures
        p_level(t, p, n) matches Ok((e, q)) ==> p_level(wrapped(t), p + 1, n) == Ok::<
            (AstData, int),
            int,
        >((e, q + 1)),
    decreases t.len() - p, 3 * (5 - n) + 2,
{
    lemma_wrapped(t);
    if 0 <= n <= 4 {
        lemma_operand_wrapped(t, p, n);
        if let Ok((l, q)) = p_operand(t, p, n) {
            if p <= q <= t.len() {
                lemma_rest_wrapped(t, q, n, l);
            }
        }
    }
}

proof fn lemma_rest_wrapped(t: Seq<Token>, q: int, n: int, acc: AstData)
    requires
        0 <= q <= t.len(),
    ensures
        level_rest(t, q, n, acc) matches Ok((e, q2)) ==> level_rest(wrapped(t), q + 1, n, acc)
            == Ok::<(AstData, int), int>((e, q2 + 1)),
    decreases t.len() - q, 3 * (5 - n),
{
    let w = wrapped(t);
    lemma_wrapped(t);
    if 0 <= n <= 4 {
        if q < t.len() {
            assert(w[q + 1] == t[q]);
        } else {
            assert(w[q + 1] == Token::RParen);
            assert(level_op(n, Token::RParen) is None);
        }
        if q < t.len() && level_op(n, t[q]) is Some {
            lemma_operand_wrapped(t, q + 1, n);
            if let Ok((r, q2)) = p_operand(t, q + 1, n) {
                if q < q2 <= t.len() {
                    lemma_rest_wrapped(
                        t,
                        q2,
                        n,
                        AstData::BinOp(level_op(n, t[q])->Some_0, Rc::new(acc), Rc::new(r)),
                    );
                }
            }
        }
    }
}

proof fn lemma_unary_wrapped(t: Seq<Token>, p: int)
    requires
        0 <= p <= t.len(),
    ensures
        p_unary(t, p) matches Ok((e, q)) ==> p_unary(wrapped(t), p + 1) == Ok::<
            (AstData, int),
            int,
        >((e, q + 1)),
    decreases t.len() - p, 1int,
{
    let w = wrapped(t);
    lemma_wrapped(t);
    if p < t.len() {
        assert(w[p + 1] == t[p]);
    } else {
        assert(w[p + 1] == Token::RParen);
    }
    if 0 <= p < t.len() && (t[p] is Minus || t[p] is Not) {
        lemma_unary_wrapped(t, p + 1);
    } else {
        lemma_atom_wrapped(t, p);
    }
}

proof fn lemma_atom_wrapped(t: Seq<Token>, p: int)
    requires
        0 <= p <= t.len(),
    ensures
        p_atom(t, p) matches Ok((e, q)) ==> p_atom(wrapped(t), p + 1) == Ok::<
            (AstData, int),
            int,
        >((e, q + 1)),
    decreases t.len() - p, 0int,
{
    let w = wrapped(t);
    lemma_wrapped(t);
    if 0 <= p < t.len() {
        assert(w[p + 1] == t[p]);
        if t[p] is LParen {
            lemma_level_wrapped(t, p + 1, 0);
            if let Ok((e, q)) = p_level(t, p + 1, 0) {
                if 0 <= q < t.len() {
                    assert(w[q + 1] == t[q]);
                }
            }
        }
    }
}

/// The whole of `wrapped(t)` parses at every level to what `t` parses to.
proof fn lemma_wrapped_top(t: Seq<Token>, e: AstData, n: int)
    requires
        0 <= n <= 4,
        p_level(t, 0, 0) == Ok::<(AstData, int), int>((e, t.len() as int)),
    ensures
        p_level(wrapped(t), 0, n) == Ok::<(AstData, int), int>((e, t.len() + 2int)),
    decreases 4 - n,
{
    let w = wrapped(t);
    lemma_wrapped(t);
    if n < 4 {
        lemma_wrapped_top(t, e, n + 1);
    } else {
        lemma_level_wrapped(t, 0, 0);
        assert(p_atom(w, 0) == Ok::<(AstData, int), int>((e, t.len() + 2int)));
        assert(p_unary(w, 0) == Ok::<(AstData, int), int>((e, t.len() + 2int)));
    }
    assert(p_operand(w, 0, n) == Ok::<(AstData, int), int>((e, t.len() + 2int)));
    assert(level_rest(w, t.len() + 2int, n, e) == Ok::<(AstData, int), int>((e, t.len() + 2int)));
}

/// Parentheses group without changing the meaning: whenever a text is an
/// L0 expression, the same text between parentheses is an L0 expression
/// too, and it parses to the very same tree.
pub proof fn lemma_parentheses_keep_meaning(s: Seq<u8>)
    requires
        spec_parse(s) is Ok,
        s.len() + 2 <= usize::MAX,
    ensures
        spec_parse(parenthesized(s)) == spec_parse(s),
{
    let w = parenthesized(s);
    lemma_parenthesized_bytes(s);
    let toks = lex_from(s, 0)->Ok_0;
    let t = token_kinds(toks);
    let e = spec_parse(s)->Ok_0;
    lemma_lex_parenthesized(s, 0);
    let close = seq![(Token::RParen, (s.len() + 1) as usize)];
    assert(symbol(w, 0) == Some((Token::LParen, 1int)));
    let toks2 = seq![(Token::LParen, 0usize)] + (shifted(toks) + close);
    assert(lex_from(w, 0) == Ok::<Seq<Located>, ParseError>(toks2));
    assert(token_kinds(toks2) =~= wrapped(t));
    lemma_wrapped(t);
    lemma_wrapped_top(t, e, 0);
}

// ---------------------------------------------------------------------------
// Operators of one precedence level associate to the left.
// ---------------------------------------------------------------------------

proof fn lemma_level_op_unique(j: int, m: int, tok: Token)
    requires
        level_op(j, tok) is Some,
        j != m,
    ensures
        level_op(m, tok) is None,
{
}

/// A number followed by the end or by an operator of a level below `m`
/// parses, at level `m`, to that number alone.
proof fn lemma_num_at_level(t: Seq<Token>, p: int, m: int, j: int, x: i64)
    requires
        0 <= p < t.len(),
        t[p] == Token::Num(x),
        0 <= j < m <= 4,
        p + 1 == t.len() || level_op(j, t[p + 1]) is Some,
    ensures
        p_level(t, p, m) == Ok::<(AstData, int), int>((AstData::Num(x), p + 1)),
    decreases 4 - m,
{
    if p + 1 < t.len() {
        lemma_level_op_unique(j, m, t[p + 1]);
    }
    if m < 4 {
        lemma_num_at_level(t, p, m + 1, j, x);
    } else {
        assert(p_atom(t, p) == Ok::<(AstData, int), int>((AstData::Num(x), p + 1)));
        assert(p_unary(t, p) == Ok::<(AstData, int), int>((AstData::Num(x), p + 1)));
    }
    assert(p_operand(t, p, m) == Ok::<(AstData, int), int>((AstData::Num(x), p + 1)));
    assert(level_rest(t, p + 1, m, AstData::Num(x)) == Ok::<(AstData, int), int>((AstData::Num(x), p + 1)));
}

/// A number followed by the end or by an operator of level `n` is one
/// operand of level `n`.
proof fn lemma_num_operand(t: Seq<Token>, p: int, n: int, x: i64)
    requires
        0 <= p < t.len(),
        t[p] == Token::Num(x),
        0 <= n <= 4,
        p + 1 == t.len() || level_op(n, t[p + 1]) is Some,
    ensures
        p_operand(t, p, n) == Ok::<(AstData, int), int>((AstData::Num(x), p + 1)),
{
    if n < 4 {
        lemma_num_at_level(t, p, n + 1, n, x);
    } else {
        assert(p_atom(t, p) == Ok::<(AstData, int), int>((AstData::Num(x), p + 1)));
        assert(p_unary(t, p) == Ok::<(AstData, int), int>((AstData::Num(x), p + 1)));
    }
}

/// A whole sequence that parses at level `n` parses alike at every lower
/// level.
proof fn lemma_whole_at_lower_levels(t: Seq<Token>, e: AstData, n: int, k: int)
    requires
        0 <= k <= n <= 4,
        p_level(t, 0, n) == Ok::<(AstData, int), int>((e, t.len() as int)),
    ensures
        p_level(t, 0, k) == Ok::<(AstData, int), int>((e, t.len() as int)),
    decreases n - k,
{
    if k < n {
        lemma_whole_at_lower_levels(t, e, n, k + 1);
        assert(p_operand(t, 0, k) == Ok::<(AstData, int), int>((e, t.len() as int)));
        assert(level_rest(t, t.len() as int, k, e) == Ok::<(AstData, int), int>((e, t.len() as int)));
    }
}

/// Operators of one precedence level associate to the left: `a op1 b op2 c`
/// with `op1`, `op2` of the same level parses to `(a op1 b) op2 c`; the right
/// operand of an operator is a single operand of the next level, never the
/// rest of the chain. So `a / b * c` is `(a / b) * c` and `a - b + c` is
/// `(a - b) + c`.
pub proof fn lemma_same_level_associates_left(n: int, a: i64, b: i64, c: i64, o1: Token, o2: Token)
    requires
        0 <= n <= 4,
        level_op(n, o1) is Some,
        level_op(n, o2) is Some,
    ensures
        p_level(seq![Token::Num(a), o1, Token::Num(b), o2, Token::Num(c)], 0, 0) == Ok::<(AstData, int), int>(
            (
                AstData::BinOp(
                    level_op(n, o2)->Some_0,
                    Rc::new(
                        AstData::BinOp(
                            level_op(n, o1)->Some_0,
                            Rc::new(AstData::Num(a)),
                            Rc::new(AstData::Num(b)),
                        ),
                    ),
                    Rc::new(AstData::Num(c)),
                ),
                5,
            ),
        ),
{
    let t = seq![Token::Num(a), o1, Token::Num(b), o2, Token::Num(c)];
    let e1 = AstData::BinOp(level_op(n, o1)->Some_0, Rc::new(AstData::Num(a)), Rc::new(AstData::Num(b)));
    let e2 = AstData::BinOp(level_op(n, o2)->Some_0, Rc::new(e1), Rc::new(AstData::Num(c)));
    lemma_num_operand(t, 0, n, a);
    lemma_num_operand(t, 2, n, b);
    lemma_num_operand(t, 4, n, c);
    assert(level_rest(t, 5, n, e2) == Ok::<(AstData, int), int>((e2, 5)));
    assert(level_rest(t, 3, n, e1) == Ok::<(AstData, int), int>((e2, 5)));
    assert(level_rest(t, 1, n, AstData::Num(a)) == Ok::<(AstData, int), int>((e2, 5)));
    assert(p_level(t, 0, n) == Ok::<(AstData, int), int>((e2, 5)));
    lemma_whole_at_lower_levels(t, e2, n, 0);
}

/// In particular `a / b * c` parses to `(a / b) * c`.
pub proof fn lemma_division_then_product(a: i64, b: i64, c: i64)
    ensures
        p_level(seq![Token::Num(a), Token::Slash, Token::Num(b), Token::Star, Token::Num(c)], 0, 0) == Ok::<
            (AstData, int),
            int,
        >(
            (
                AstData::BinOp(
                    BinOp::Mul,
                    Rc::new(AstData::BinOp(BinOp::Div, Rc::new(AstData::Num(a)), Rc::new(AstData::Num(b)))),
                    Rc::new(AstData::Num(c)),
                ),
                5,
            ),
        ),
{
    lemma_same_level_associates_left(4, a, b, c, Token::Slash, Token::Star);
}

} // verus!
