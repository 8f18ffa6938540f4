//! What more answers about numbers change.
use crate::context::ContextView;
use crate::expr::{combined, expr_value, op_level, value_at, value_from, EvalFaultView, OPERAND};
use crate::lexer::{lexeme, words_from, Lexeme, Op, TokenView};
use crate::number::NumbersView;
use crate::value::ValueView;
use vstd::prelude::*;

verus! {

/// The second table has all answers of the first, and maybe more.
pub open spec fn knows_more(a: NumbersView, b: NumbersView) -> bool {
    &&& a.results.submap_of(b.results)
    &&& a.parsed.submap_of(b.parsed)
    &&& a.shown.submap_of(b.shown)
    &&& a.spans.submap_of(b.spans)
    &&& a.counts.submap_of(b.counts)
}

/// The outcome asks nothing.
spec fn asks_nothing<V>(r: Result<V, EvalFaultView>) -> bool {
    !(r is Err && r->Err_0 is Ask)
}

proof fn lemma_words(t: Seq<char>, i: int, a: NumbersView, b: NumbersView)
    requires
        knows_more(a, b),
        !(words_from(t, i, a) is Err && words_from(t, i, a)->Err_0 is Ask),
    ensures
        words_from(t, i, b) == words_from(t, i, a),
    decreases t.len() - i,
{
    if 0 <= i < t.len() {
        match lexeme(t, i) {
            Lexeme::Blank => {
                lemma_words(t, i + 1, a, b);
            },
            Lexeme::Number(end) => {
                let word = t.subrange(i, end);
                assert(a.parsed.contains_key(word));
                if a.parsed[word] is Some && i < end <= t.len() {
                    lemma_words(t, end, a, b);
                }
            },
            Lexeme::Str(end) => {
                if i < end <= t.len() {
                    lemma_words(t, end + 1, a, b);
                }
            },
            Lexeme::Ident(end) => {
                if i < end <= t.len() {
                    lemma_words(t, end, a, b);
                }
            },
            Lexeme::LParen => {
                lemma_words(t, i + 1, a, b);
            },
            Lexeme::RParen => {
                lemma_words(t, i + 1, a, b);
            },
            Lexeme::Op(op, end) => {
                if i < end <= t.len() {
                    lemma_words(t, end, a, b);
                }
            },
            _ => {},
        }
    }
}

proof fn lemma_combined(op: Op, x: ValueView, y: ValueView, a: NumbersView, b: NumbersView)
    requires
        knows_more(a, b),
        asks_nothing(combined(op, x, y, a)),
    ensures
        combined(op, x, y, b) == combined(op, x, y, a),
{
}

proof fn lemma_value_at(
    level: int,
    t: Seq<TokenView>,
    i: int,
    ctx: ContextView,
    a: NumbersView,
    b: NumbersView,
)
    requires
        knows_more(a, b),
        asks_nothing(value_at(level, t, i, ctx, a)),
    ensures
        value_at(level, t, i, ctx, b) == value_at(level, t, i, ctx, a),
    decreases t.len() - i, 8 - level,
{
    if 0 <= i < t.len() {
        if 0 <= level < OPERAND {
            lemma_value_at(level + 1, t, i, ctx, a, b);
            match value_at(level + 1, t, i, ctx, a) {
                Ok((left, j)) => {
                    if i < j <= t.len() {
                        lemma_value_from(level, left, t, j, ctx, a, b);
                    }
                },
                Err(_) => {},
            }
        } else {
            match t[i] {
                TokenView::Op(Op::Minus) => {
                    lemma_value_at(OPERAND as int, t, i + 1, ctx, a, b);
                },
                TokenView::Op(Op::Not) => {
                    lemma_value_at(OPERAND as int, t, i + 1, ctx, a, b);
                },
                TokenView::LParen => {
                    lemma_value_at(0, t, i + 1, ctx, a, b);
                },
                _ => {},
            }
        }
    }
}

proof fn lemma_value_from(
    level: int,
    left: ValueView,
    t: Seq<TokenView>,
    i: int,
    ctx: ContextView,
    a: NumbersView,
    b: NumbersView,
)
    requires
        knows_more(a, b),
        asks_nothing(value_from(level, left, t, i, ctx, a)),
    ensures
        value_from(level, left, t, i, ctx, b) == value_from(level, left, t, i, ctx, a),
    decreases t.len() - i, 8 - level,
{
    if 0 <= i < t.len() && t[i] is Op && op_level(t[i]->Op_0) == Some(level) {
        lemma_value_at(level + 1, t, i + 1, ctx, a, b);
        match value_at(level + 1, t, i + 1, ctx, a) {
            Ok((right, j)) => {
                lemma_combined(t[i]->Op_0, left, right, a, b);
                match combined(t[i]->Op_0, left, right, a) {
                    Ok(v) => {
                        if i < j <= t.len() {
                            lemma_value_from(level, v, t, j, ctx, a, b);
                        }
                    },
                    Err(_) => {},
                }
            },
            Err(_) => {},
        }
    }
}

/// The law of answers: once an expression has a value or an error, further answers about numbers
/// do not change it.
pub proof fn law_more_answers_change_nothing(
    expr: Seq<char>,
    ctx: ContextView,
    a: NumbersView,
    b: NumbersView,
)
    requires
        knows_more(a, b),
        !(expr_value(expr, ctx, a) is Err && expr_value(expr, ctx, a)->Err_0 is Unanswered),
    ensures
        expr_value(expr, ctx, b) == expr_value(expr, ctx, a),
{
    lemma_words(expr, 0, a, b);
    match words_from(expr, 0, a) {
        Ok(t) => {
            lemma_value_at(0, t, 0, ctx, a, b);
        },
        Err(_) => {},
    }
}

} // verus!
