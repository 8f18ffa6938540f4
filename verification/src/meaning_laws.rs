//! What expressions mean.
use crate::context::ContextView;
use crate::error::ExprMessageView;
use crate::expr::{
    combined, is_truthy, named_value, op_level, value_at, value_from, word_value, EvalFaultView,
    OPERAND,
};
use crate::lexer::{Op, TokenView};
use crate::number::{
    num_eq, num_le, num_lt, num_max, num_neg, NumberOp, NumbersView, QuestionView, SkillNumber,
};
use crate::value::{same_value, ValueView};
use vstd::prelude::*;

verus! {

/// The sign bit.
pub open spec fn sign_bit() -> int {
    0x8000_0000_0000_0000
}

/// Zero, with either sign.
pub open spec fn either_zero(x: SkillNumber) -> bool {
    x.bits == 0 || x.bits == sign_bit()
}

/// The values that do not count as true: nothing, no, zero, and what is empty.
pub open spec fn counts_as_false(v: ValueView) -> bool {
    ||| v is Null
    ||| v == ValueView::Bool(false)
    ||| (v is Number && either_zero(v->Number_0))
    ||| (v is String && v->String_0 =~= Seq::<char>::empty())
    ||| (v is List && v->List_0 =~= Seq::<ValueView>::empty())
    ||| (v is Table && v->Table_0 =~= Seq::<(Seq<char>, ValueView)>::empty())
}

/// The law of truth: everything counts as true but nothing, no, zero, and what is empty.
pub proof fn law_truth(v: ValueView)
    ensures
        is_truthy(v) <==> !counts_as_false(v),
{
}

/// The bits stand for a number.
pub open spec fn plain_number(x: SkillNumber) -> bool {
    x.bits <= 0x7ff0_0000_0000_0000 || sign_bit() <= x.bits <= 0xfff0_0000_0000_0000
}

/// The law of numbers: bits order numbers that are not negative as they stand and negative ones the
/// other way round, all negative ones are below all others, both zeros are equal, and bits that
/// stand for no number are neither below nor equal to anything.
pub proof fn law_numbers_are_ordered(x: SkillNumber, y: SkillNumber)
    ensures
        !plain_number(x) || !plain_number(y) ==> !num_lt(x, y) && !num_le(x, y) && !num_eq(x, y),
        plain_number(x) && plain_number(y) ==> {
            &&& x.bits < sign_bit() && y.bits < sign_bit() ==> (num_lt(x, y) <==> x.bits < y.bits)
            &&& x.bits >= sign_bit() && y.bits >= sign_bit() ==> (num_lt(x, y) <==> x.bits > y.bits)
            &&& x.bits >= sign_bit() && y.bits < sign_bit() ==> (num_lt(x, y) <==> !(either_zero(x)
                && either_zero(y)))
            &&& x.bits < sign_bit() && y.bits >= sign_bit() ==> !num_lt(x, y)
            &&& num_eq(x, y) <==> x == y || (either_zero(x) && either_zero(y))
            &&& num_le(x, y) <==> num_lt(x, y) || num_eq(x, y)
        },
{
}

/// The law of numbers: a number and its negation differ in the sign alone, and what is negated
/// twice is as before.
pub proof fn law_negation(x: SkillNumber, y: SkillNumber)
    ensures
        num_neg(num_neg(x)) == x,
        num_neg(x).bits == x.bits + sign_bit() || num_neg(x).bits == x.bits - sign_bit(),
        num_lt(num_neg(x), num_neg(y)) <==> num_lt(y, x),
{
}

/// The law of numbers: the larger of two is one of them, and none of them is above it.
pub proof fn law_larger(x: SkillNumber, y: SkillNumber)
    ensures
        num_max(x, y) == x || num_max(x, y) == y,
        !num_lt(num_max(x, y), x),
        !num_lt(num_max(x, y), y),
        plain_number(x) || plain_number(y) ==> plain_number(num_max(x, y)),
{
}

/// The law of equality: values of different kinds differ; texts and flags are equal to themselves
/// alone; numbers are equal as numbers; lists are equal place by place; nothing equals nothing.
pub proof fn law_equality(a: ValueView, b: ValueView)
    ensures
        a is String || b is String || a is Bool || b is Bool || a is Null || b is Null || a is Special
            || b is Special ==> (same_value(a, b) <==> a == b),
        a is Number && b is Number ==> (same_value(a, b) <==> num_eq(a->Number_0, b->Number_0)),
        (a is Number) != (b is Number) ==> !same_value(a, b),
        (a is List) != (b is List) ==> !same_value(a, b),
        (a is Table) != (b is Table) ==> !same_value(a, b),
        (a is Node) != (b is Node) ==> !same_value(a, b),
        a is List && b is List ==> (same_value(a, b) <==> a->List_0.len() == b->List_0.len()
            && forall|i: int|
            0 <= i < a->List_0.len() ==> same_value(#[trigger] a->List_0[i], b->List_0[i])),
{
}

/// The host has answered what an operation on two numbers gives.
pub open spec fn answers(
    n: NumbersView,
    op: NumberOp,
    x: SkillNumber,
    y: SkillNumber,
    z: SkillNumber,
) -> bool {
    n.results.contains_pair((op, x, y), z)
}

/// The operation of numbers that an operator stands for.
pub open spec fn sum_of(op: Op) -> Option<NumberOp> {
    match op {
        Op::Plus => Some(NumberOp::Add),
        Op::Minus => Some(NumberOp::Sub),
        Op::Times => Some(NumberOp::Mul),
        Op::Over => Some(NumberOp::Div),
        _ => None,
    }
}

/// The first value is compared with the second as the operator says.
pub open spec fn stands_to(op: Op, x: SkillNumber, y: SkillNumber) -> bool {
    ||| (op is Lt && num_lt(x, y))
    ||| (op is Gt && num_lt(y, x))
    ||| (op is Le && (num_lt(x, y) || num_eq(x, y)))
    ||| (op is Ge && (num_lt(y, x) || num_eq(x, y)))
}

/// What an operator between two values comes to.
pub open spec fn comes_to(
    op: Op,
    a: ValueView,
    b: ValueView,
    n: NumbersView,
    r: Result<ValueView, EvalFaultView>,
) -> bool {
    &&& op is And ==> r is Ok && r->Ok_0 is Bool && (r->Ok_0->Bool_0 <==> !counts_as_false(a)
        && !counts_as_false(b))
    &&& op is Or ==> r is Ok && r->Ok_0 is Bool && (r->Ok_0->Bool_0 <==> !counts_as_false(a)
        || !counts_as_false(b))
    &&& op is Nullish ==> r is Ok && (a is Null ==> r->Ok_0 == b) && (!(a is Null) ==> r->Ok_0 == a)
    &&& op is Eq ==> r is Ok && r->Ok_0 is Bool && (r->Ok_0->Bool_0 <==> same_value(a, b))
    &&& op is Ne ==> r is Ok && r->Ok_0 is Bool && (r->Ok_0->Bool_0 <==> !same_value(a, b))
    &&& (op is Lt || op is Le || op is Gt || op is Ge) && a is Number && b is Number ==> r is Ok
        && r->Ok_0 is Bool && (r->Ok_0->Bool_0 <==> stands_to(op, a->Number_0, b->Number_0))
    &&& sum_of(op) is Some && a is Number && b is Number ==> {
        &&& r matches Ok(v) ==> v is Number && answers(
            n,
            sum_of(op)->0,
            a->Number_0,
            b->Number_0,
            v->Number_0,
        )
        &&& r matches Err(e) ==> e == EvalFaultView::Ask(
            QuestionView::Result(sum_of(op)->0, a->Number_0, b->Number_0),
        ) && !n.results.contains_key((sum_of(op)->0, a->Number_0, b->Number_0))
    }
    &&& (op is Lt || op is Le || op is Gt || op is Ge || sum_of(op) is Some) && !(a is Number) ==> r
        == Err::<ValueView, EvalFaultView>(
        EvalFaultView::Message(ExprMessageView::ExpectedNumber(a)),
    )
    &&& (op is Lt || op is Le || op is Gt || op is Ge || sum_of(op) is Some) && a is Number && !(
    b is Number) ==> r == Err::<ValueView, EvalFaultView>(
        EvalFaultView::Message(ExprMessageView::ExpectedNumber(b)),
    )
}

/// Words as one whole expression have the value.
pub open spec fn has_value(t: Seq<TokenView>, ctx: ContextView, n: NumbersView, v: ValueView) -> bool {
    value_at(0, t, 0, ctx, n) == Ok::<(ValueView, int), EvalFaultView>((v, t.len() as int))
}

/// Words as one whole expression come out like this.
pub open spec fn comes_out(
    t: Seq<TokenView>,
    ctx: ContextView,
    n: NumbersView,
    r: Result<ValueView, EvalFaultView>,
) -> bool {
    match r {
        Ok(v) => has_value(t, ctx, n, v),
        Err(e) => value_at(0, t, 0, ctx, n) == Err::<(ValueView, int), EvalFaultView>(e),
    }
}

/// Words in brackets.
pub open spec fn in_brackets(a: Seq<TokenView>) -> Seq<TokenView> {
    seq![TokenView::LParen] + a + seq![TokenView::RParen]
}

/// Where an operand ends, and no operator follows that binds as tightly, the operand is all.
proof fn lemma_operand(
    low: int,
    high: int,
    t: Seq<TokenView>,
    i: int,
    ctx: ContextView,
    n: NumbersView,
    v: ValueView,
    j: int,
)
    requires
        0 <= low <= high <= OPERAND,
        0 <= i < t.len(),
        i < j <= t.len(),
        value_at(high, t, i, ctx, n) == Ok::<(ValueView, int), EvalFaultView>((v, j)),
        j < t.len() && t[j] is Op ==> (op_level(t[j]->Op_0) is None || op_level(t[j]->Op_0)->0
            < low || op_level(t[j]->Op_0)->0 >= high),
    ensures
        value_at(low, t, i, ctx, n) == Ok::<(ValueView, int), EvalFaultView>((v, j)),
    decreases high - low,
{
    if low < high {
        lemma_operand(low + 1, high, t, i, ctx, n, v, j);
        assert(value_from(low, v, t, j, ctx, n) == Ok::<(ValueView, int), EvalFaultView>((v, j)));
    }
}

proof fn lemma_operand_fails(
    low: int,
    high: int,
    t: Seq<TokenView>,
    i: int,
    ctx: ContextView,
    n: NumbersView,
    e: EvalFaultView,
)
    requires
        0 <= low <= high <= OPERAND,
        0 <= i < t.len(),
        value_at(high, t, i, ctx, n) == Err::<(ValueView, int), EvalFaultView>(e),
    ensures
        value_at(low, t, i, ctx, n) == Err::<(ValueView, int), EvalFaultView>(e),
    decreases high - low,
{
    if low < high {
        lemma_operand_fails(low + 1, high, t, i, ctx, n, e);
    }
}

/// What has a value in a list of words has it in a longer list too, if a bracket closes behind it.
proof fn lemma_within(
    level: int,
    x: Seq<TokenView>,
    i: int,
    t: Seq<TokenView>,
    off: int,
    ctx: ContextView,
    n: NumbersView,
)
    requires
        0 <= off,
        0 <= i,
        off + x.len() < t.len(),
        forall|k: int| 0 <= k < x.len() ==> #[trigger] x[k] == t[off + k],
        t[off + x.len()] is RParen,
        value_at(level, x, i, ctx, n) is Ok,
    ensures
        ({
            let (v, j) = value_at(level, x, i, ctx, n)->Ok_0;
            value_at(level, t, off + i, ctx, n) == Ok::<(ValueView, int), EvalFaultView>(
                (v, off + j),
            )
        }),
        i < value_at(level, x, i, ctx, n)->Ok_0.1 <= x.len(),
    decreases x.len() - i, 8 - level,
{
    assert(i < x.len());
    assert(x[i] == t[off + i]);
    if 0 <= level < OPERAND {
        lemma_within(level + 1, x, i, t, off, ctx, n);
        let (left, j) = value_at(level + 1, x, i, ctx, n)->Ok_0;
        lemma_within_from(level, left, x, j, t, off, ctx, n);
    } else {
        match x[i] {
            TokenView::Op(Op::Minus) | TokenView::Op(Op::Not) => {
                lemma_within(OPERAND as int, x, i + 1, t, off, ctx, n);
            },
            TokenView::LParen => {
                lemma_within(0, x, i + 1, t, off, ctx, n);
                let (_, j) = value_at(0, x, i + 1, ctx, n)->Ok_0;
                assert(j < x.len());
                assert(x[j] == t[off + j]);
            },
            _ => {},
        }
    }
}

proof fn lemma_within_from(
    level: int,
    left: ValueView,
    x: Seq<TokenView>,
    i: int,
    t: Seq<TokenView>,
    off: int,
    ctx: ContextView,
    n: NumbersView,
)
    requires
        0 <= level < OPERAND,
        0 <= off,
        0 < i <= x.len(),
        off + x.len() < t.len(),
        forall|k: int| 0 <= k < x.len() ==> #[trigger] x[k] == t[off + k],
        t[off + x.len()] is RParen,
        value_from(level, left, x, i, ctx, n) is Ok,
    ensures
        ({
            let (v, j) = value_from(level, left, x, i, ctx, n)->Ok_0;
            value_from(level, left, t, off + i, ctx, n) == Ok::<(ValueView, int), EvalFaultView>(
                (v, off + j),
            )
        }),
        i <= value_from(level, left, x, i, ctx, n)->Ok_0.1 <= x.len(),
    decreases x.len() - i, 8 - level,
{
    if i < x.len() {
        assert(x[i] == t[off + i]);
        if x[i] is Op && op_level(x[i]->Op_0) == Some(level) {
            lemma_within(level + 1, x, i + 1, t, off, ctx, n);
            let (right, j) = value_at(level + 1, x, i + 1, ctx, n)->Ok_0;
            let v = combined(x[i]->Op_0, left, right, n)->Ok_0;
            lemma_within_from(level, v, x, j, t, off, ctx, n);
        }
    }
}

/// Words in brackets are an operand with the value of the words.
proof fn lemma_brackets(
    a: Seq<TokenView>,
    t: Seq<TokenView>,
    off: int,
    ctx: ContextView,
    n: NumbersView,
    v: ValueView,
)
    requires
        0 <= off,
        off + a.len() + 2 <= t.len(),
        t.subrange(off, off + a.len() + 2) == in_brackets(a),
        has_value(a, ctx, n, v),
    ensures
        value_at(OPERAND as int, t, off, ctx, n) == Ok::<(ValueView, int), EvalFaultView>(
            (v, off + a.len() + 2),
        ),
{
    let s = t.subrange(off, off + a.len() + 2);
    assert(s[0] == t[off]);
    assert forall|k: int| 0 <= k < a.len() implies #[trigger] a[k] == t[off + 1 + k] by {
        assert(s[k + 1] == t[off + (k + 1)]);
        assert(in_brackets(a)[k + 1] == a[k]);
    }
    assert(s[a.len() as int + 1] == t[off + (a.len() as int + 1)]);
    assert(in_brackets(a)[a.len() as int + 1] == TokenView::RParen);
    assert(in_brackets(a)[0] == TokenView::LParen);
    assert(s[a.len() as int + 1] == in_brackets(a)[a.len() as int + 1]);
    assert(t[off + 1 + a.len()] is RParen);
    lemma_within(0, a, 0, t, off + 1, ctx, n);
}

/// The law of brackets: what stands in brackets has the value that it has without them.
pub proof fn law_brackets(a: Seq<TokenView>, ctx: ContextView, n: NumbersView, v: ValueView)
    requires
        has_value(a, ctx, n, v),
    ensures
        has_value(in_brackets(a), ctx, n, v),
{
    let t = in_brackets(a);
    assert(t.subrange(0, t.len() as int) =~= t);
    lemma_brackets(a, t, 0, ctx, n, v);
    lemma_operand(0, OPERAND as int, t, 0, ctx, n, v, t.len() as int);
}

/// The law of operators: between two expressions that have values, an operator comes to what it
/// says of these values. Both sides are worked out, whatever the first one is.
pub proof fn law_operators(
    a: Seq<TokenView>,
    op: Op,
    b: Seq<TokenView>,
    ctx: ContextView,
    n: NumbersView,
    x: ValueView,
    y: ValueView,
)
    requires
        has_value(a, ctx, n, x),
        has_value(b, ctx, n, y),
        !(op is Not),
    ensures
        exists|r: Result<ValueView, EvalFaultView>| #[trigger]
            comes_to(op, x, y, n, r) && comes_out(
                in_brackets(a) + seq![TokenView::Op(op)] + in_brackets(b),
                ctx,
                n,
                r,
            ),
{
    let t = in_brackets(a) + seq![TokenView::Op(op)] + in_brackets(b);
    let j = (a.len() + 2) as int;
    let level = op_level(op)->0;
    assert(t.subrange(0, j) =~= in_brackets(a));
    assert(t.subrange(j + 1, j + 1 + b.len() + 2) =~= in_brackets(b));
    assert(t[j] == TokenView::Op(op));
    assert(t.len() == j + 1 + b.len() + 2);
    lemma_brackets(a, t, 0, ctx, n, x);
    lemma_brackets(b, t, j + 1, ctx, n, y);
    lemma_operand(level + 1, OPERAND as int, t, 0, ctx, n, x, j);
    lemma_operand(level + 1, OPERAND as int, t, j + 1, ctx, n, y, t.len() as int);
    let r = combined(op, x, y, n);
    law_truth(x);
    law_truth(y);
    if x is Number && y is Number {
        law_numbers_are_ordered(x->Number_0, y->Number_0);
        law_numbers_are_ordered(y->Number_0, x->Number_0);
    }
    assert(comes_to(op, x, y, n, r));
    assert(value_at(level, t, 0, ctx, n) == value_from(level, x, t, j, ctx, n));
    match r {
        Ok(v) => {
            assert(value_from(level, v, t, t.len() as int, ctx, n) == Ok::<
                (ValueView, int),
                EvalFaultView,
            >((v, t.len() as int)));
            assert(value_from(level, x, t, j, ctx, n) == value_from(
                level,
                v,
                t,
                t.len() as int,
                ctx,
                n,
            ));
            assert(value_at(level, t, 0, ctx, n) == Ok::<(ValueView, int), EvalFaultView>(
                (v, t.len() as int),
            ));
            lemma_operand(0, level, t, 0, ctx, n, v, t.len() as int);
        },
        Err(e) => {
            assert(value_from(level, x, t, j, ctx, n) == Err::<(ValueView, int), EvalFaultView>(
                e,
            ));
            assert(value_at(level, t, 0, ctx, n) == Err::<(ValueView, int), EvalFaultView>(e));
            lemma_operand_fails(0, level, t, 0, ctx, n, e);
        },
    }
    assert(comes_out(t, ctx, n, r));
}

/// The law of signs: a `-` before an expression with a number negates it, and a `!` gives whether
/// the expression counts as false.
pub proof fn law_signs(a: Seq<TokenView>, ctx: ContextView, n: NumbersView, v: ValueView)
    requires
        has_value(a, ctx, n, v),
    ensures
        has_value(
            seq![TokenView::Op(Op::Not)] + in_brackets(a),
            ctx,
            n,
            ValueView::Bool(counts_as_false(v)),
        ),
        v is Number ==> has_value(
            seq![TokenView::Op(Op::Minus)] + in_brackets(a),
            ctx,
            n,
            ValueView::Number(num_neg(v->Number_0)),
        ),
        !(v is Number) ==> comes_out(
            seq![TokenView::Op(Op::Minus)] + in_brackets(a),
            ctx,
            n,
            Err(EvalFaultView::Message(ExprMessageView::ExpectedNumber(v))),
        ),
{
    law_truth(v);
    let t = seq![TokenView::Op(Op::Not)] + in_brackets(a);
    assert(t[0] == TokenView::Op(Op::Not));
    assert(t.subrange(1, a.len() as int + 3) =~= in_brackets(a));
    lemma_brackets(a, t, 1, ctx, n, v);
    lemma_operand(
        0,
        OPERAND as int,
        t,
        0,
        ctx,
        n,
        ValueView::Bool(!is_truthy(v)),
        t.len() as int,
    );
    let u = seq![TokenView::Op(Op::Minus)] + in_brackets(a);
    assert(u[0] == TokenView::Op(Op::Minus));
    assert(u.subrange(1, a.len() as int + 3) =~= in_brackets(a));
    lemma_brackets(a, u, 1, ctx, n, v);
    if v is Number {
        lemma_operand(
            0,
            OPERAND as int,
            u,
            0,
            ctx,
            n,
            ValueView::Number(num_neg(v->Number_0)),
            u.len() as int,
        );
    } else {
        lemma_operand_fails(
            0,
            OPERAND as int,
            u,
            0,
            ctx,
            n,
            EvalFaultView::Message(ExprMessageView::ExpectedNumber(v)),
        );
    }
}

/// A word with a meaning of its own.
pub open spec fn is_word(w: TokenView) -> bool {
    w is Number || w is Str || w is Ident
}

/// The law of words: numbers and texts stand for themselves, `true`, `false` and `null` for what
/// they say, and other names for what is found under them, or else for nothing.
pub proof fn law_words(w: TokenView, ctx: ContextView, n: NumbersView)
    requires
        is_word(w),
    ensures
        w is Number ==> has_value(seq![w], ctx, n, ValueView::Number(w->Number_0)),
        w is Str ==> has_value(seq![w], ctx, n, ValueView::String(w->Str_0)),
        w == TokenView::Ident("true"@) ==> has_value(seq![w], ctx, n, ValueView::Bool(true)),
        w == TokenView::Ident("false"@) ==> has_value(seq![w], ctx, n, ValueView::Bool(false)),
        w == TokenView::Ident("null"@) ==> has_value(seq![w], ctx, n, ValueView::Null),
        w is Ident && w->Ident_0 != "true"@ && w->Ident_0 != "false"@ && w->Ident_0 != "null"@
            ==> has_value(
            seq![w],
            ctx,
            n,
            match named_value(w->Ident_0, ctx) {
                Some(v) => v,
                None => ValueView::Null,
            },
        ),
{
    let t = seq![w];
    reveal_strlit("true");
    reveal_strlit("false");
    reveal_strlit("null");
    assert("true"@[0] == 't' && "false"@[0] == 'f' && "null"@[0] == 'n');
    let v = word_value(w, ctx)->0;
    assert(t[0] == w);
    assert(value_at(OPERAND as int, t, 0, ctx, n) == Ok::<(ValueView, int), EvalFaultView>((v, 1)));
    lemma_operand(0, OPERAND as int, t, 0, ctx, n, v, 1);
}

/// How tightly operators bind, from loose to tight.
pub open spec fn tightness(op: Op) -> int {
    if op is Times || op is Over {
        60
    } else if op is Plus || op is Minus {
        50
    } else if op is Lt || op is Le || op is Gt || op is Ge {
        40
    } else if op is Eq || op is Ne {
        30
    } else if op is And {
        20
    } else if op is Or {
        10
    } else {
        0
    }
}

proof fn lemma_word_operand(
    t: Seq<TokenView>,
    i: int,
    ctx: ContextView,
    n: NumbersView,
)
    requires
        0 <= i < t.len(),
        is_word(t[i]),
    ensures
        word_value(t[i], ctx) is Some,
        value_at(OPERAND as int, t, i, ctx, n) == Ok::<(ValueView, int), EvalFaultView>(
            (word_value(t[i], ctx)->0, i + 1),
        ),
{
}

/// Two words with an operator between them, where nothing behind binds as tightly.
proof fn lemma_pair(t: Seq<TokenView>, i: int, ctx: ContextView, n: NumbersView)
    requires
        0 <= i,
        i + 3 <= t.len(),
        is_word(t[i]),
        is_word(t[i + 2]),
        t[i + 1] is Op,
        !(t[i + 1]->Op_0 is Not),
        i + 3 < t.len() && t[i + 3] is Op ==> op_level(t[i + 3]->Op_0) is None || op_level(
            t[i + 3]->Op_0,
        )->0 < op_level(t[i + 1]->Op_0)->0,
    ensures
        ({
            let op = t[i + 1]->Op_0;
            let r = combined(op, word_value(t[i], ctx)->0, word_value(t[i + 2], ctx)->0, n);
            value_at(op_level(op)->0, t, i, ctx, n) == match r {
                Ok(v) => Ok::<(ValueView, int), EvalFaultView>((v, i + 3)),
                Err(e) => Err(e),
            }
        }),
{
    let op = t[i + 1]->Op_0;
    let level = op_level(op)->0;
    let (x, y) = (word_value(t[i], ctx)->0, word_value(t[i + 2], ctx)->0);
    lemma_word_operand(t, i, ctx, n);
    lemma_word_operand(t, i + 2, ctx, n);
    lemma_operand(level + 1, OPERAND as int, t, i, ctx, n, x, i + 1);
    lemma_operand(level + 1, OPERAND as int, t, i + 2, ctx, n, y, i + 3);
    assert(value_at(level, t, i, ctx, n) == value_from(level, x, t, i + 1, ctx, n));
    match combined(op, x, y, n) {
        Ok(v) => {
            assert(value_from(level, x, t, i + 1, ctx, n) == value_from(
                level,
                v,
                t,
                i + 3,
                ctx,
                n,
            ));
            assert(value_from(level, v, t, i + 3, ctx, n) == Ok::<(ValueView, int), EvalFaultView>(
                (v, i + 3),
            ));
        },
        Err(_) => {},
    }
}

/// The outcome of words as one whole expression.
pub open spec fn outcome_of(t: Seq<TokenView>, ctx: ContextView, n: NumbersView) -> Result<
    ValueView,
    EvalFaultView,
> {
    match value_at(0, t, 0, ctx, n) {
        Ok((v, j)) => if j == t.len() {
            Ok(v)
        } else {
            Err(EvalFaultView::Message(ExprMessageView::TrailingToken))
        },
        Err(e) => Err(e),
    }
}

proof fn lemma_pair_alone(a: TokenView, p: Op, b: TokenView, ctx: ContextView, n: NumbersView)
    requires
        is_word(a),
        is_word(b),
        !(p is Not),
    ensures
        outcome_of(seq![a, TokenView::Op(p), b], ctx, n) == combined(
            p,
            word_value(a, ctx)->0,
            word_value(b, ctx)->0,
            n,
        ),
{
    let t = seq![a, TokenView::Op(p), b];
    lemma_pair(t, 0, ctx, n);
    match combined(p, word_value(a, ctx)->0, word_value(b, ctx)->0, n) {
        Ok(v) => lemma_operand(0, op_level(p)->0, t, 0, ctx, n, v, 3),
        Err(e) => lemma_operand_fails(0, op_level(p)->0, t, 0, ctx, n, e),
    }
}

/// The law of grouping: of two operators between three words the one that binds more tightly comes
/// first, and of two that bind alike the first one; brackets round that part change nothing.
pub proof fn law_grouping(
    a: TokenView,
    p: Op,
    b: TokenView,
    q: Op,
    c: TokenView,
    ctx: ContextView,
    n: NumbersView,
    inner: ValueView,
)
    requires
        is_word(a),
        is_word(b),
        is_word(c),
        !(p is Not),
        !(q is Not),
        has_value(
            if tightness(p) < tightness(q) {
                seq![b, TokenView::Op(q), c]
            } else {
                seq![a, TokenView::Op(p), b]
            },
            ctx,
            n,
            inner,
        ),
    ensures
        outcome_of(seq![a, TokenView::Op(p), b, TokenView::Op(q), c], ctx, n) == outcome_of(
            if tightness(p) < tightness(q) {
                seq![a, TokenView::Op(p)] + in_brackets(seq![b, TokenView::Op(q), c])
            } else {
                in_brackets(seq![a, TokenView::Op(p), b]) + seq![TokenView::Op(q), c]
            },
            ctx,
            n,
        ),
{
    let t = seq![a, TokenView::Op(p), b, TokenView::Op(q), c];
    let (lp, lq) = (op_level(p)->0, op_level(q)->0);
    let (x, y, z) = (word_value(a, ctx)->0, word_value(b, ctx)->0, word_value(c, ctx)->0);
    lemma_word_operand(t, 0, ctx, n);
    lemma_word_operand(t, 2, ctx, n);
    lemma_word_operand(t, 4, ctx, n);
    if tightness(p) < tightness(q) {
        assert(lp < lq);
        let m = seq![b, TokenView::Op(q), c];
        let u = seq![a, TokenView::Op(p)] + in_brackets(m);
        lemma_pair_alone(b, q, c, ctx, n);
        assert(combined(q, y, z, n) == Ok::<ValueView, EvalFaultView>(inner));
        lemma_pair(t, 2, ctx, n);
        lemma_operand(lp + 1, lq, t, 2, ctx, n, inner, 5);
        lemma_operand(lp + 1, OPERAND as int, t, 0, ctx, n, x, 1);
        assert(u[0] == a && u[1] == TokenView::Op(p));
        assert(u.subrange(2, m.len() as int + 4) =~= in_brackets(m));
        assert(u.len() == 7);
        lemma_brackets(m, u, 2, ctx, n, inner);
        lemma_word_operand(u, 0, ctx, n);
        lemma_operand(lp + 1, OPERAND as int, u, 2, ctx, n, inner, 7);
        lemma_operand(lp + 1, OPERAND as int, u, 0, ctx, n, x, 1);
        assert(value_at(lp, t, 0, ctx, n) == value_from(lp, x, t, 1, ctx, n));
        assert(value_at(lp, u, 0, ctx, n) == value_from(lp, x, u, 1, ctx, n));
        match combined(p, x, inner, n) {
            Ok(v) => {
                assert(value_from(lp, x, t, 1, ctx, n) == value_from(lp, v, t, 5, ctx, n));
                assert(value_from(lp, x, u, 1, ctx, n) == value_from(lp, v, u, 7, ctx, n));
                assert(value_from(lp, v, t, 5, ctx, n) == Ok::<(ValueView, int), EvalFaultView>(
                    (v, 5),
                ));
                assert(value_from(lp, v, u, 7, ctx, n) == Ok::<(ValueView, int), EvalFaultView>(
                    (v, 7),
                ));
                lemma_operand(0, lp, t, 0, ctx, n, v, 5);
                lemma_operand(0, lp, u, 0, ctx, n, v, 7);
            },
            Err(e) => {
                assert(value_from(lp, x, t, 1, ctx, n) == Err::<(ValueView, int), EvalFaultView>(
                    e,
                ));
                assert(value_from(lp, x, u, 1, ctx, n) == Err::<(ValueView, int), EvalFaultView>(
                    e,
                ));
                lemma_operand_fails(0, lp, t, 0, ctx, n, e);
                lemma_operand_fails(0, lp, u, 0, ctx, n, e);
            },
        }
    } else {
        assert(lq <= lp);
        let m = seq![a, TokenView::Op(p), b];
        let u = in_brackets(m) + seq![TokenView::Op(q), c];
        lemma_pair_alone(a, p, b, ctx, n);
        assert(combined(p, x, y, n) == Ok::<ValueView, EvalFaultView>(inner));
        assert(u.subrange(0, m.len() as int + 2) =~= in_brackets(m));
        assert(u[5] == TokenView::Op(q) && u[6] == c);
        assert(u.len() == 7);
        lemma_brackets(m, u, 0, ctx, n, inner);
        lemma_word_operand(u, 6, ctx, n);
        lemma_operand(lq + 1, OPERAND as int, u, 0, ctx, n, inner, 5);
        lemma_operand(lq + 1, OPERAND as int, u, 6, ctx, n, z, 7);
        lemma_operand(lq + 1, OPERAND as int, t, 4, ctx, n, z, 5);
        if lq < lp {
            lemma_pair(t, 0, ctx, n);
            lemma_operand(lq + 1, lp, t, 0, ctx, n, inner, 3);
        } else {
            lemma_operand(lq + 1, OPERAND as int, t, 0, ctx, n, x, 1);
            lemma_operand(lq + 1, OPERAND as int, t, 2, ctx, n, y, 3);
            assert(value_at(lq, t, 0, ctx, n) == value_from(lq, x, t, 1, ctx, n));
            assert(value_from(lq, x, t, 1, ctx, n) == value_from(lq, inner, t, 3, ctx, n));
        }
        assert(value_at(lq, u, 0, ctx, n) == value_from(lq, inner, u, 5, ctx, n));
        assert(value_at(lq, t, 0, ctx, n) == value_from(lq, inner, t, 3, ctx, n));
        match combined(q, inner, z, n) {
            Ok(v) => {
                assert(value_from(lq, inner, u, 5, ctx, n) == value_from(lq, v, u, 7, ctx, n));
                assert(value_from(lq, v, t, 5, ctx, n) == Ok::<(ValueView, int), EvalFaultView>(
                    (v, 5),
                ));
                assert(value_from(lq, inner, t, 3, ctx, n) == Ok::<(ValueView, int), EvalFaultView>(
                    (v, 5),
                ));
                assert(value_from(lq, v, u, 7, ctx, n) == Ok::<(ValueView, int), EvalFaultView>(
                    (v, 7),
                ));
                lemma_operand(0, lq, t, 0, ctx, n, v, 5);
                lemma_operand(0, lq, u, 0, ctx, n, v, 7);
            },
            Err(e) => {
                assert(value_from(lq, inner, t, 3, ctx, n) == Err::<
                    (ValueView, int),
                    EvalFaultView,
                >(e));
                assert(value_from(lq, inner, u, 5, ctx, n) == Err::<
                    (ValueView, int),
                    EvalFaultView,
                >(e));
                lemma_operand_fails(0, lq, t, 0, ctx, n, e);
                lemma_operand_fails(0, lq, u, 0, ctx, n, e);
            },
        }
    }
}

} // verus!
