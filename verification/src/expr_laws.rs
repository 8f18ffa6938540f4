//! What holds of all expressions.
use crate::context::{ContextView, SignalView};
use crate::decimal::law_decimal_is_unique;
use crate::error::{ErrorView, ExprMessageView};
use crate::expr::{
    combined, entity_value, event_value, expr_value, named_value, op_level, path_value, value_at,
    value_from, word_value, EvalFaultView, OPERAND,
};
use crate::lexer::{
    lexeme, run_end, runs_over, words_from, LexFaultView, Lexeme, Op, Run, TokenView,
};
use crate::number::NumbersView;
use crate::text::{is_digit, is_letter, lemma_first_dot_unique, white_space};
use crate::value::ValueView;
use vstd::prelude::*;

verus! {

/// All characters are white space.
pub open spec fn blank(w: Seq<char>) -> bool {
    forall|i: int| 0 <= i < w.len() ==> white_space(#[trigger] w[i])
}

/// A run ends at the same place where the text goes on with a character that it does not run over.
proof fn lemma_run_in_front(run: Run, a: Seq<char>, t: Seq<char>, i: int)
    requires
        0 <= i <= a.len() < t.len(),
        forall|j: int| 0 <= j < a.len() ==> t[j] == #[trigger] a[j],
        !runs_over(run, t[a.len() as int]) || run_end(run, a, i) < a.len(),
    ensures
        run_end(run, t, i) == run_end(run, a, i),
        i <= run_end(run, a, i) <= a.len(),
    decreases a.len() - i,
{
    if i < a.len() && runs_over(run, a[i]) {
        lemma_run_in_front(run, a, t, i + 1);
    } else if i < a.len() {
        assert(t[i] == a[i]);
    }
}

/// A run in the last part of a text ends where it ends in that part alone.
proof fn lemma_run_behind(run: Run, t: Seq<char>, b: Seq<char>, off: int, i: int)
    requires
        0 <= off,
        0 <= i <= b.len(),
        t.len() == off + b.len(),
        forall|j: int| 0 <= j < b.len() ==> #[trigger] b[j] == t[off + j],
    ensures
        run_end(run, t, off + i) == off + run_end(run, b, i),
        i <= run_end(run, b, i) <= b.len(),
    decreases b.len() - i,
{
    if i < b.len() {
        assert(b[i] == t[off + i]);
        if runs_over(run, b[i]) {
            lemma_run_behind(run, t, b, off, i + 1);
        }
    }
}

/// The words of the last part of a text are those of that part alone.
proof fn lemma_words_behind(t: Seq<char>, b: Seq<char>, off: int, i: int, n: NumbersView)
    requires
        0 <= off,
        0 <= i <= b.len(),
        t.len() == off + b.len(),
        forall|j: int| 0 <= j < b.len() ==> #[trigger] b[j] == t[off + j],
    ensures
        words_from(t, off + i, n) == words_from(b, i, n),
    decreases b.len() - i,
{
    if i < b.len() {
        assert(b[i] == t[off + i]);
        if i + 1 < b.len() {
            assert(b[i + 1] == t[off + (i + 1)]);
        }
        lemma_run_behind(Run::Number, t, b, off, i + 1);
        lemma_run_behind(Run::Ident, t, b, off, i + 1);
        lemma_run_behind(Run::Quoted, t, b, off, i + 1);
        match lexeme(b, i) {
            Lexeme::Blank | Lexeme::LParen | Lexeme::RParen => {
                lemma_words_behind(t, b, off, i + 1, n);
            },
            Lexeme::Number(end) | Lexeme::Ident(end) | Lexeme::Op(_, end) => {
                assert(t.subrange(off + i, off + end) =~= b.subrange(i, end));
                lemma_words_behind(t, b, off, end, n);
            },
            Lexeme::Str(end) => {
                assert(t.subrange(off + i + 1, off + end) =~= b.subrange(i + 1, end));
                lemma_words_behind(t, b, off, end + 1, n);
            },
            _ => {},
        }
    }
}

/// A character that ends every word before it: no word runs over it, and no operator of two
/// characters ends with it.
pub open spec fn ends_words(c: char) -> bool {
    !(is_letter(c) || is_digit(c) || c == '_' || c == '.' || c == '$' || c == '=' || c == '?' || c
        == '&' || c == '|')
}

/// The words of a text that goes on with such a character: first those of the front part.
proof fn lemma_words_in_front(a: Seq<char>, t: Seq<char>, i: int, n: NumbersView)
    requires
        0 <= i <= a.len() < t.len(),
        forall|j: int| 0 <= j < a.len() ==> t[j] == #[trigger] a[j],
        ends_words(t[a.len() as int]),
        words_from(a, i, n) is Ok,
    ensures
        words_from(t, i, n) == match words_from(t, a.len() as int, n) {
            Ok(rest) => Ok(words_from(a, i, n)->Ok_0 + rest),
            Err(e) => Err(e),
        },
    decreases a.len() - i,
{
    let behind = words_from(t, a.len() as int, n);
    if i < a.len() {
        assert(t[i] == a[i]);
        if i + 1 < a.len() {
            assert(t[i + 1] == a[i + 1]);
        }
        lemma_run_in_front(Run::Number, a, t, i + 1);
        lemma_run_in_front(Run::Ident, a, t, i + 1);
        if run_end(Run::Quoted, a, i + 1) < a.len() {
            lemma_run_in_front(Run::Quoted, a, t, i + 1);
        }
        let next: int = match lexeme(a, i) {
            Lexeme::Number(end) | Lexeme::Ident(end) | Lexeme::Op(_, end) => end,
            Lexeme::Str(end) => end + 1,
            _ => i + 1,
        };
        assert(i < next <= a.len());
        assert(lexeme(t, i) == lexeme(a, i));
        lemma_words_in_front(a, t, next, n);
        assert(t.subrange(i, next) =~= a.subrange(i, next));
        if lexeme(a, i) is Str {
            assert(t.subrange(i + 1, next - 1) =~= a.subrange(i + 1, next - 1));
        }
        let here = words_from(a, next, n)->Ok_0;
        if behind is Ok && !(lexeme(a, i) is Blank) {
            let w = words_from(a, i, n)->Ok_0[0];
            assert(words_from(a, i, n)->Ok_0 =~= seq![w] + here);
            assert(seq![w] + (here + behind->Ok_0) =~= (seq![w] + here) + behind->Ok_0);
        }
    } else if behind is Ok {
        assert(words_from(a, i, n)->Ok_0 + behind->Ok_0 =~= behind->Ok_0);
    }
}

/// White space in front of a place is passed over.
proof fn lemma_blank_passed(t: Seq<char>, from: int, to: int, n: NumbersView)
    requires
        0 <= from <= to <= t.len(),
        forall|j: int| from <= j < to ==> white_space(#[trigger] t[j]),
    ensures
        words_from(t, from, n) == words_from(t, to, n),
    decreases to - from,
{
    if from < to {
        lemma_blank_passed(t, from + 1, to, n);
    }
}

/// A law of words: where two texts stand one behind the other with white space between them, the
/// words of the first come before those of the second. With an empty text on either side, white
/// space at the ends of a text changes nothing.
pub proof fn law_words_are_parted_by_white_space(
    a: Seq<char>,
    w: Seq<char>,
    b: Seq<char>,
    n: NumbersView,
)
    requires
        w.len() > 0,
        blank(w),
        words_from(a, 0, n) is Ok,
    ensures
        words_from(a + w + b, 0, n) == match words_from(b, 0, n) {
            Ok(y) => Ok(words_from(a, 0, n)->Ok_0 + y),
            Err(e) => Err(e),
        },
{
    let t = a + w + b;
    let off = (a.len() + w.len()) as int;
    assert(t[a.len() as int] == w[0]);
    assert forall|j: int| a.len() <= j < off implies white_space(#[trigger] t[j]) by {
        assert(t[j] == w[j - a.len()]);
    }
    lemma_words_in_front(a, t, 0, n);
    lemma_blank_passed(t, a.len() as int, off, n);
    lemma_words_behind(t, b, off, 0, n);
}

/// A law of words: where a text is followed by one that begins with white space, a bracket, a quote
/// or most operators, the words of the first come before those of the second.
pub proof fn law_words_end_before_others(a: Seq<char>, b: Seq<char>, n: NumbersView)
    requires
        b.len() > 0,
        ends_words(b[0]),
        words_from(a, 0, n) is Ok,
    ensures
        words_from(a + b, 0, n) == match words_from(b, 0, n) {
            Ok(y) => Ok(words_from(a, 0, n)->Ok_0 + y),
            Err(e) => Err(e),
        },
{
    let t = a + b;
    assert(t[a.len() as int] == b[0]);
    lemma_words_in_front(a, t, 0, n);
    lemma_words_behind(t, b, a.len() as int, 0, n);
}

/// A law of errors: an expression fails with an error that holds its text, unless a number is
/// asked for.
pub proof fn law_errors_hold_the_expression(expr: Seq<char>, ctx: ContextView, n: NumbersView)
    ensures
        expr_value(expr, ctx, n) matches Err(e) ==> e is Unanswered || (e is Expr && e->Expr_expr
            == expr),
{
}

/// A law of errors: words behind one complete expression are an error.
pub proof fn law_trailing_words_are_refused(
    expr: Seq<char>,
    ctx: ContextView,
    n: NumbersView,
    t: Seq<TokenView>,
    v: ValueView,
    j: int,
)
    requires
        words_from(expr, 0, n) == Ok::<Seq<TokenView>, LexFaultView>(t),
        value_at(0, t, 0, ctx, n) == Ok::<(ValueView, int), EvalFaultView>((v, j)),
        j < t.len(),
    ensures
        expr_value(expr, ctx, n) == Err::<ValueView, ErrorView>(
            ErrorView::Expr { expr, message: ExprMessageView::TrailingToken },
        ),
{
}

/// Two contexts have the same stats, variables, event and skill.
pub open spec fn same_scope(a: ContextView, b: ContextView) -> bool {
    &&& a.stats == b.stats
    &&& a.vars == b.vars
    &&& a.source_event == b.source_event
    &&& a.skill_id == b.skill_id
}

proof fn lemma_scope_at(
    level: int,
    t: Seq<TokenView>,
    i: int,
    a: ContextView,
    b: ContextView,
    n: NumbersView,
)
    requires
        same_scope(a, b),
    ensures
        value_at(level, t, i, a, n) == value_at(level, t, i, b, n),
    decreases t.len() - i, 8 - level,
{
    if 0 <= i < t.len() {
        if 0 <= level < OPERAND {
            lemma_scope_at(level + 1, t, i, a, b, n);
            match value_at(level + 1, t, i, a, n) {
                Ok((left, j)) => {
                    if i < j <= t.len() {
                        lemma_scope_from(level, left, t, j, a, b, n);
                    }
                },
                Err(_) => {},
            }
        } else {
            match t[i] {
                TokenView::Op(Op::Minus) => {
                    lemma_scope_at(OPERAND as int, t, i + 1, a, b, n);
                },
                TokenView::Op(Op::Not) => {
                    lemma_scope_at(OPERAND as int, t, i + 1, a, b, n);
                },
                TokenView::LParen => {
                    lemma_scope_at(0, t, i + 1, a, b, n);
                },
                w => {
                    assert(word_value(w, a) == word_value(w, b));
                },
            }
        }
    }
}

proof fn lemma_scope_from(
    level: int,
    left: ValueView,
    t: Seq<TokenView>,
    i: int,
    a: ContextView,
    b: ContextView,
    n: NumbersView,
)
    requires
        same_scope(a, b),
    ensures
        value_from(level, left, t, i, a, n) == value_from(level, left, t, i, b, n),
    decreases t.len() - i, 8 - level,
{
    if 0 <= i < t.len() && t[i] is Op && op_level(t[i]->Op_0) == Some(level) {
        lemma_scope_at(level + 1, t, i + 1, a, b, n);
        match value_at(level + 1, t, i + 1, a, n) {
            Ok((right, j)) => match combined(t[i]->Op_0, left, right, n) {
                Ok(v) => {
                    if i < j <= t.len() {
                        lemma_scope_from(level, v, t, j, a, b, n);
                    }
                },
                Err(_) => {},
            },
            Err(_) => {},
        }
    }
}

/// A law of scope: the value of an expression depends on the stats, the variables, the event and
/// the identifier of the skill, and on nothing else that a context holds.
pub proof fn law_scope_decides(expr: Seq<char>, a: ContextView, b: ContextView, n: NumbersView)
    requires
        same_scope(a, b),
    ensures
        expr_value(expr, a, n) == expr_value(expr, b, n),
{
    match words_from(expr, 0, n) {
        Ok(t) => {
            lemma_scope_at(0, t, 0, a, b, n);
        },
        Err(_) => {},
    }
}

/// A path below `event` leads into the event.
proof fn lemma_event_path(ctx: ContextView, e: SignalView, path: Seq<char>, rest: Seq<char>)
    requires
        ctx.source_event == Some(e),
        path == "event."@ + rest,
    ensures
        named_value(path, ctx) == event_value(e, rest),
{
    reveal_strlit("event.");
    reveal_strlit("event");
    reveal_strlit("stat");
    reveal_strlit("var");
    reveal_strlit("vars");
    assert forall|i: int| 0 <= i < 5 implies path[i] != '.' by {
        assert(path[i] == "event."@[i]);
    }
    assert(path[5] == "event."@[5]);
    lemma_first_dot_unique(path, 5);
    assert(path.subrange(0, 5) =~= "event"@);
    assert(path.subrange(6, path.len() as int) =~= rest);
    assert("event"@.len() == 5);
    assert("stat"@.len() == 4);
    assert("var"@.len() == 3);
    assert("vars"@.len() == 4);
}

/// A law of events: what the payload has under `target` or `caster` is what an expression sees, and
/// else it sees the target or the caster of the signal.
pub proof fn law_events_show_caster_and_target(e: SignalView, ctx: ContextView)
    requires
        ctx.source_event == Some(e),
    ensures
        named_value("event.target"@, ctx) == match path_value(e.payload, "target"@) {
            Some(v) => Some(v),
            None => match e.target {
                Some(x) => Some(entity_value(x)),
                None => None,
            },
        },
        named_value("event.caster"@, ctx) == match path_value(e.payload, "caster"@) {
            Some(v) => Some(v),
            None => match e.caster {
                Some(x) => Some(entity_value(x)),
                None => None,
            },
        },
{
    reveal_strlit("event.");
    reveal_strlit("target");
    reveal_strlit("caster");
    reveal_strlit("event.target");
    reveal_strlit("event.caster");
    assert("event.target"@ =~= "event."@ + "target"@);
    assert("event.caster"@ =~= "event."@ + "caster"@);
    lemma_event_path(ctx, e, "event.target"@, "target"@);
    lemma_event_path(ctx, e, "event.caster"@, "caster"@);
    assert("target"@[0] != "caster"@[0]);
}

/// A law of events: expressions tell different entities apart.
pub proof fn law_entities_are_told_apart(a: u64, b: u64)
    requires
        entity_value(a) == entity_value(b),
    ensures
        a == b,
{
    law_decimal_is_unique(a as nat, b as nat);
}

} // verus!
