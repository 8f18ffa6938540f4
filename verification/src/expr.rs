//! The value of an expression.
use crate::collect::{collected, lemma_first_failure};
use crate::context::{ContextView, SignalView, SkillContext, SkillRuntimeSignal};
use crate::decimal::{decimal, decimal_text};
use crate::error::{
    value_outcome, ErrorView, ExprMessage, ExprMessageView, SkillError,
};
use crate::lexer::{tokenize, tokens_view, words_from, LexFault, LexFaultView, Op, Token, TokenView};
use crate::number::{
    ask_result, num_eq, num_le, num_lt, num_neg, num_zero, NumberOp, NumberQuestion, NumberTable,
    NumbersView, QuestionView, SkillNumber,
};
use crate::table::{distinct, lookup};
use crate::text::{
    begins_with, find_dot, first_dot, lemma_first_dot, occurs_in, same_text, text_begins_with,
    text_contains,
};
use crate::value::{
    arg, args_view, copy_args, copy_value, equal_values, lemma_args_distinct, list_view, same_value,
    ArgsView, SkillArgs, SkillExpr, SkillSpecialValue, SkillValue, SpecialView, ValueView,
};
use vstd::prelude::*;

verus! {

/// Why a value could not be worked out.
#[derive(Debug)]
pub enum EvalFault {
    Message(ExprMessage),
    Ask(NumberQuestion),
}

pub enum EvalFaultView {
    Message(ExprMessageView),
    Ask(QuestionView),
}

impl EvalFault {
    pub open spec fn view(&self) -> EvalFaultView {
        match self {
            EvalFault::Message(m) => EvalFaultView::Message(m@),
            EvalFault::Ask(q) => EvalFaultView::Ask(q@),
        }
    }
}

/// A value counts as true: flags by themselves, numbers other than zero, texts, lists and tables
/// that are not empty, and everything else but nothing.
pub open spec fn is_truthy(v: ValueView) -> bool {
    match v {
        ValueView::Bool(b) => b,
        ValueView::Number(n) => !num_eq(n, num_zero()),
        ValueView::String(s) => s.len() > 0,
        ValueView::Null => false,
        ValueView::List(l) => l.len() > 0,
        ValueView::Table(t) => t.len() > 0,
        ValueView::Special(_) => true,
        ValueView::Node(_) => true,
    }
}

/// Whether a value counts as true.
pub fn truthy(value: &SkillValue) -> (r: bool)
    ensures
        r == is_truthy(value@),
{
    match value {
        SkillValue::Bool(b) => *b,
        SkillValue::Number(n) => !n.equals(SkillNumber::zero()),
        SkillValue::String(s) => s.as_str().unicode_len() > 0,
        SkillValue::Null => false,
        SkillValue::List(l) => l.len() > 0,
        SkillValue::Table(m) => !m.is_empty(),
        SkillValue::Special(_) => true,
        SkillValue::Node(_) => true,
    }
}

/// What stands under a dotted path: each name but the last leads to a table.
pub open spec fn descend(t: ArgsView, path: Seq<char>) -> Option<ValueView>
    decreases path.len(),
{
    let d = first_dot(path);
    if 0 <= d < path.len() {
        match lookup(t, path.subrange(0, d)) {
            Some(ValueView::Table(inner)) => descend(inner, path.subrange(d + 1, path.len() as int)),
            _ => None,
        }
    } else {
        lookup(t, path)
    }
}

/// What stands under a dotted path; the whole table under the empty path.
pub open spec fn path_value(t: ArgsView, path: Seq<char>) -> Option<ValueView> {
    if path.len() == 0 {
        Some(ValueView::Table(t))
    } else {
        descend(t, path)
    }
}

/// The value that stands for an entity: its number, in decimal.
pub open spec fn entity_value(entity: u64) -> ValueView {
    ValueView::String(decimal(entity as nat))
}

/// What a path below `event` stands for: what the payload has under it, or else the caster or the
/// target of the signal.
pub open spec fn event_value(e: SignalView, rest: Seq<char>) -> Option<ValueView> {
    match path_value(e.payload, rest) {
        Some(v) => Some(v),
        None => match (
            if rest == "target"@ {
                e.target
            } else if rest == "caster"@ {
                e.caster
            } else {
                None
            }
        ) {
            Some(entity) => Some(entity_value(entity)),
            None => None,
        },
    }
}

/// What a name in an expression stands for.
pub open spec fn named_value(path: Seq<char>, ctx: ContextView) -> Option<ValueView> {
    let d = first_dot(path);
    let root = if d < path.len() {
        path.subrange(0, d)
    } else {
        path
    };
    let rest = if d < path.len() {
        path.subrange(d + 1, path.len() as int)
    } else {
        Seq::empty()
    };
    if root == "stat"@ {
        path_value(ctx.stats, rest)
    } else if root == "var"@ || root == "vars"@ {
        path_value(ctx.vars, rest)
    } else if root == "event"@ {
        match ctx.source_event {
            Some(e) => event_value(e, rest),
            None => None,
        }
    } else if root == "skill"@ && rest == "id"@ {
        Some(ValueView::String(ctx.skill_id))
    } else {
        match lookup(ctx.vars, root) {
            Some(v) => Some(v),
            None => lookup(ctx.stats, root),
        }
    }
}

spec fn found(r: Option<SkillValue>) -> Option<ValueView> {
    match r {
        Some(v) => Some(v@),
        None => None,
    }
}

fn descend_path(map: &SkillArgs, path: &str) -> (r: Option<SkillValue>)
    ensures
        found(r) == descend(args_view(*map), path@),
    decreases path@.len(),
{
    let d: usize = find_dot(path);
    let n: usize = path.unicode_len();
    proof {
        lemma_first_dot(path@);
    }
    if d < n {
        match arg(map, path.substring_char(0, d)) {
            Some(SkillValue::Table(inner)) => descend_path(inner, path.substring_char(d + 1, n)),
            _ => None,
        }
    } else {
        match arg(map, path) {
            Some(v) => Some(copy_value(v)),
            None => None,
        }
    }
}

/// What stands under a dotted path.
pub fn get_path(map: &SkillArgs, path: &str) -> (r: Option<SkillValue>)
    ensures
        match r {
            Some(v) => path_value(args_view(*map), path@) == Some(v@),
            None => path_value(args_view(*map), path@) is None,
        },
{
    if path.unicode_len() == 0 {
        return Some(SkillValue::Table(copy_args(map)));
    }
    descend_path(map, path)
}

/// What a path below `event` stands for.
fn get_event_path(event: &SkillRuntimeSignal, rest: &str) -> (r: Option<SkillValue>)
    ensures
        found(r) == event_value(event@, rest@),
{
    if let Some(v) = get_path(&event.payload, rest) {
        return Some(v);
    }
    let entity: Option<u64> = if same_text(rest, "target") {
        event.target
    } else if same_text(rest, "caster") {
        event.caster
    } else {
        None
    };
    match entity {
        Some(x) => Some(SkillValue::String(decimal_text(x))),
        None => None,
    }
}

/// What a name in an expression stands for.
pub fn resolve_path(path: &str, ctx: &SkillContext) -> (r: Option<SkillValue>)
    ensures
        match r {
            Some(v) => named_value(path@, ctx@) == Some(v@),
            None => named_value(path@, ctx@) is None,
        },
{
    let d: usize = find_dot(path);
    let n: usize = path.unicode_len();
    proof {
        lemma_first_dot(path@);
    }
    let root: &str = if d < n {
        path.substring_char(0, d)
    } else {
        path
    };
    let rest: &str = if d < n {
        path.substring_char(d + 1, n)
    } else {
        ""
    };
    proof {
        reveal_strlit("");
        assert(""@ =~= Seq::<char>::empty());
    }
    if same_text(root, "stat") {
        get_path(&ctx.stats, rest)
    } else if same_text(root, "var") || same_text(root, "vars") {
        get_path(&ctx.vars, rest)
    } else if same_text(root, "event") {
        match &ctx.source_event {
            Some(e) => get_event_path(e, rest),
            None => None,
        }
    } else if same_text(root, "skill") && same_text(rest, "id") {
        Some(SkillValue::String(ctx.skill_id.0.clone()))
    } else {
        match arg(&ctx.vars, root) {
            Some(v) => Some(copy_value(v)),
            None => match arg(&ctx.stats, root) {
                Some(v) => Some(copy_value(v)),
                None => None,
            },
        }
    }
}

/// The number that a value is.
pub open spec fn number_of(v: ValueView) -> Result<SkillNumber, EvalFaultView> {
    match v {
        ValueView::Number(n) => Ok(n),
        _ => Err(EvalFaultView::Message(ExprMessageView::ExpectedNumber(v))),
    }
}

/// The two numbers that two values are; the left one is looked at first.
pub open spec fn numbers_of(a: ValueView, b: ValueView) -> Result<
    (SkillNumber, SkillNumber),
    EvalFaultView,
> {
    match (a, b) {
        (ValueView::Number(x), ValueView::Number(y)) => Ok((x, y)),
        (ValueView::Number(_), _) => Err(
            EvalFaultView::Message(ExprMessageView::ExpectedNumber(b)),
        ),
        _ => Err(EvalFaultView::Message(ExprMessageView::ExpectedNumber(a))),
    }
}

/// How tightly a binary operator binds; `None` for one that is not binary.
pub open spec fn op_level(op: Op) -> Option<int> {
    match op {
        Op::Nullish => Some(0),
        Op::Or => Some(1),
        Op::And => Some(2),
        Op::Eq => Some(3),
        Op::Ne => Some(3),
        Op::Lt => Some(4),
        Op::Le => Some(4),
        Op::Gt => Some(4),
        Op::Ge => Some(4),
        Op::Plus => Some(5),
        Op::Minus => Some(5),
        Op::Times => Some(6),
        Op::Over => Some(6),
        Op::Not => None,
    }
}

/// The outcome of rounded arithmetic.
pub open spec fn arithmetic(op: NumberOp, a: ValueView, b: ValueView, n: NumbersView) -> Result<
    ValueView,
    EvalFaultView,
> {
    match numbers_of(a, b) {
        Ok((x, y)) => match ask_result(n, op, x, y) {
            Ok(z) => Ok(ValueView::Number(z)),
            Err(q) => Err(EvalFaultView::Ask(q)),
        },
        Err(e) => Err(e),
    }
}

/// The outcome of a comparison.
pub open spec fn comparison(op: Op, a: ValueView, b: ValueView) -> Result<
    ValueView,
    EvalFaultView,
> {
    match numbers_of(a, b) {
        Ok((x, y)) => Ok(
            ValueView::Bool(
                match op {
                    Op::Lt => num_lt(x, y),
                    Op::Le => num_le(x, y),
                    Op::Gt => num_lt(y, x),
                    _ => num_le(y, x),
                },
            ),
        ),
        Err(e) => Err(e),
    }
}

/// The outcome of a binary operator on two values.
pub open spec fn combined(op: Op, a: ValueView, b: ValueView, n: NumbersView) -> Result<
    ValueView,
    EvalFaultView,
> {
    match op {
        Op::Nullish => Ok(
            if a is Null {
                b
            } else {
                a
            },
        ),
        Op::Or => Ok(ValueView::Bool(is_truthy(a) || is_truthy(b))),
        Op::And => Ok(ValueView::Bool(is_truthy(a) && is_truthy(b))),
        Op::Eq => Ok(ValueView::Bool(same_value(a, b))),
        Op::Ne => Ok(ValueView::Bool(!same_value(a, b))),
        Op::Lt | Op::Le | Op::Gt | Op::Ge => comparison(op, a, b),
        Op::Plus => arithmetic(NumberOp::Add, a, b, n),
        Op::Minus => arithmetic(NumberOp::Sub, a, b, n),
        Op::Times => arithmetic(NumberOp::Mul, a, b, n),
        Op::Over => arithmetic(NumberOp::Div, a, b, n),
        Op::Not => Ok(a),
    }
}

/// What a word means by itself, where it is neither an operator nor a bracket.
pub open spec fn word_value(w: TokenView, ctx: ContextView) -> Option<ValueView> {
    match w {
        TokenView::Number(n) => Some(ValueView::Number(n)),
        TokenView::Str(s) => Some(ValueView::String(s)),
        TokenView::Ident(s) => Some(
            if s == "true"@ {
                ValueView::Bool(true)
            } else if s == "false"@ {
                ValueView::Bool(false)
            } else if s == "null"@ {
                ValueView::Null
            } else {
                match named_value(s, ctx) {
                    Some(v) => v,
                    None => ValueView::Null,
                }
            },
        ),
        _ => None,
    }
}

/// The level at which a single operand is read.
pub const OPERAND: u8 = 7;

/// The value of the operand that begins at word `i` with everything around it that binds at least
/// as tightly as `level`, and the place behind it.
pub open spec fn value_at(
    level: int,
    t: Seq<TokenView>,
    i: int,
    ctx: ContextView,
    n: NumbersView,
) -> Result<(ValueView, int), EvalFaultView>
    decreases t.len() - i, 8 - level,
{
    if !(0 <= i < t.len()) {
        Err(EvalFaultView::Message(ExprMessageView::UnexpectedEnd))
    } else if 0 <= level < OPERAND {
        match value_at(level + 1, t, i, ctx, n) {
            Ok((left, j)) => if i < j <= t.len() {
                value_from(level, left, t, j, ctx, n)
            } else {
                arbitrary()
            },
            Err(e) => Err(e),
        }
    } else {
        match t[i] {
            TokenView::Op(Op::Minus) => match value_at(OPERAND as int, t, i + 1, ctx, n) {
                Ok((v, j)) => match number_of(v) {
                    Ok(x) => Ok((ValueView::Number(num_neg(x)), j)),
                    Err(e) => Err(e),
                },
                Err(e) => Err(e),
            },
            TokenView::Op(Op::Not) => match value_at(OPERAND as int, t, i + 1, ctx, n) {
                Ok((v, j)) => Ok((ValueView::Bool(!is_truthy(v)), j)),
                Err(e) => Err(e),
            },
            TokenView::LParen => match value_at(0, t, i + 1, ctx, n) {
                Ok((v, j)) => if 0 <= j < t.len() && t[j] is RParen {
                    Ok((v, j + 1))
                } else {
                    Err(EvalFaultView::Message(ExprMessageView::ExpectedRParen))
                },
                Err(e) => Err(e),
            },
            w => match word_value(w, ctx) {
                Some(v) => Ok((v, i + 1)),
                None => Err(EvalFaultView::Message(ExprMessageView::UnexpectedToken(w))),
            },
        }
    }
}

/// The value of what stands from word `i` on behind a left operand: operators of the same level
/// are taken from left to right, and both operands are always worked out.
pub open spec fn value_from(
    level: int,
    left: ValueView,
    t: Seq<TokenView>,
    i: int,
    ctx: ContextView,
    n: NumbersView,
) -> Result<(ValueView, int), EvalFaultView>
    decreases t.len() - i, 8 - level,
{
    if 0 <= i < t.len() && t[i] is Op && op_level(t[i]->Op_0) == Some(level) {
        match value_at(level + 1, t, i + 1, ctx, n) {
            Ok((right, j)) => match combined(t[i]->Op_0, left, right, n) {
                Ok(v) => if i < j <= t.len() {
                    value_from(level, v, t, j, ctx, n)
                } else {
                    arbitrary()
                },
                Err(e) => Err(e),
            },
            Err(e) => Err(e),
        }
    } else {
        Ok((left, i))
    }
}

pub open spec fn evaluated(r: Result<(SkillValue, usize), EvalFault>) -> Result<
    (ValueView, int),
    EvalFaultView,
> {
    match r {
        Ok((v, j)) => Ok((v@, j as int)),
        Err(e) => Err(e@),
    }
}

fn number(value: &SkillValue) -> (r: Result<SkillNumber, EvalFault>)
    ensures
        match r {
            Ok(n) => number_of(value@) == Ok::<SkillNumber, EvalFaultView>(n),
            Err(e) => number_of(value@) == Err::<SkillNumber, EvalFaultView>(e@),
        },
{
    match value {
        SkillValue::Number(n) => Ok(*n),
        other => Err(EvalFault::Message(ExprMessage::ExpectedNumber(copy_value(other)))),
    }
}

fn both_numbers(a: &SkillValue, b: &SkillValue) -> (r: Result<
    (SkillNumber, SkillNumber),
    EvalFault,
>)
    ensures
        match r {
            Ok(p) => numbers_of(a@, b@) == Ok::<(SkillNumber, SkillNumber), EvalFaultView>(p),
            Err(e) => numbers_of(a@, b@) == Err::<(SkillNumber, SkillNumber), EvalFaultView>(e@),
        },
{
    let x = match number(a) {
        Ok(x) => x,
        Err(e) => return Err(e),
    };
    let y = match number(b) {
        Ok(y) => y,
        Err(e) => return Err(e),
    };
    Ok((x, y))
}

fn calculate(op: NumberOp, a: &SkillValue, b: &SkillValue, numbers: &NumberTable) -> (r: Result<
    SkillValue,
    EvalFault,
>)
    ensures
        match r {
            Ok(v) => arithmetic(op, a@, b@, numbers@) == Ok::<ValueView, EvalFaultView>(v@),
            Err(e) => arithmetic(op, a@, b@, numbers@) == Err::<ValueView, EvalFaultView>(e@),
        },
{
    match both_numbers(a, b) {
        Ok((x, y)) => match numbers.result(op, x, y) {
            Ok(z) => Ok(SkillValue::Number(z)),
            Err(q) => Err(EvalFault::Ask(q)),
        },
        Err(e) => Err(e),
    }
}

fn combine(op: Op, a: SkillValue, b: SkillValue, numbers: &NumberTable) -> (r: Result<
    SkillValue,
    EvalFault,
>)
    ensures
        match r {
            Ok(v) => combined(op, a@, b@, numbers@) == Ok::<ValueView, EvalFaultView>(v@),
            Err(e) => combined(op, a@, b@, numbers@) == Err::<ValueView, EvalFaultView>(e@),
        },
{
    match op {
        Op::Nullish => match a {
            SkillValue::Null => Ok(b),
            other => Ok(other),
        },
        Op::Or => Ok(SkillValue::Bool(truthy(&a) || truthy(&b))),
        Op::And => Ok(SkillValue::Bool(truthy(&a) && truthy(&b))),
        Op::Eq => Ok(SkillValue::Bool(equal_values(&a, &b))),
        Op::Ne => Ok(SkillValue::Bool(!equal_values(&a, &b))),
        Op::Lt | Op::Le | Op::Gt | Op::Ge => match both_numbers(&a, &b) {
            Ok((x, y)) => Ok(
                SkillValue::Bool(
                    match op {
                        Op::Lt => x.less(y),
                        Op::Le => x.at_most(y),
                        Op::Gt => y.less(x),
                        _ => y.at_most(x),
                    },
                ),
            ),
            Err(e) => Err(e),
        },
        Op::Plus => calculate(NumberOp::Add, &a, &b, numbers),
        Op::Minus => calculate(NumberOp::Sub, &a, &b, numbers),
        Op::Times => calculate(NumberOp::Mul, &a, &b, numbers),
        Op::Over => calculate(NumberOp::Div, &a, &b, numbers),
        Op::Not => Ok(a),
    }
}

fn binds_at(op: Op) -> (r: u8)
    ensures
        match op_level(op) {
            Some(l) => r == l && l < OPERAND,
            None => r == OPERAND,
        },
{
    match op {
        Op::Nullish => 0,
        Op::Or => 1,
        Op::And => 2,
        Op::Eq | Op::Ne => 3,
        Op::Lt | Op::Le | Op::Gt | Op::Ge => 4,
        Op::Plus | Op::Minus => 5,
        Op::Times | Op::Over => 6,
        Op::Not => 7,
    }
}

/// Reads what [`value_at`] describes.
fn parse_at(
    level: u8,
    tokens: &Vec<Token>,
    at: usize,
    ctx: &SkillContext,
    numbers: &NumberTable,
) -> (r: Result<(SkillValue, usize), EvalFault>)
    requires
        level <= OPERAND,
        at <= tokens@.len(),
    ensures
        evaluated(r) == value_at(level as int, tokens_view(tokens@), at as int, ctx@, numbers@),
        r matches Ok((_, j)) ==> at < j <= tokens@.len(),
    decreases tokens@.len() - at, 8 - level,
{
    if at >= tokens.len() {
        return Err(EvalFault::Message(ExprMessage::UnexpectedEnd));
    }
    if level < 7 {
        let (mut left, mut i): (SkillValue, usize) = match parse_at(
            level + 1,
            tokens,
            at,
            ctx,
            numbers,
        ) {
            Ok(p) => p,
            Err(e) => return Err(e),
        };
        loop
            invariant
                level < OPERAND,
                at < i <= tokens@.len(),
                value_at(level as int, tokens_view(tokens@), at as int, ctx@, numbers@)
                    == value_from(
                    level as int,
                    left@,
                    tokens_view(tokens@),
                    i as int,
                    ctx@,
                    numbers@,
                ),
            ensures
                at < i <= tokens@.len(),
                value_at(level as int, tokens_view(tokens@), at as int, ctx@, numbers@) == Ok::<
                    (ValueView, int),
                    EvalFaultView,
                >((left@, i as int)),
            decreases tokens@.len() - i,
        {
            let op: Op = if i < tokens.len() {
                match &tokens[i] {
                    Token::Op(op) => *op,
                    _ => {
                        break;
                    },
                }
            } else {
                break;
            };
            if binds_at(op) != level {
                break;
            }
            let (right, j): (SkillValue, usize) = match parse_at(
                level + 1,
                tokens,
                i + 1,
                ctx,
                numbers,
            ) {
                Ok(p) => p,
                Err(e) => return Err(e),
            };
            left = match combine(op, left, right, numbers) {
                Ok(v) => v,
                Err(e) => return Err(e),
            };
            i = j;
        }
        return Ok((left, i));
    }
    match &tokens[at] {
        Token::Op(Op::Minus) => match parse_at(7, tokens, at + 1, ctx, numbers) {
            Ok((v, j)) => match number(&v) {
                Ok(x) => Ok((SkillValue::Number(x.negated()), j)),
                Err(e) => Err(e),
            },
            Err(e) => Err(e),
        },
        Token::Op(Op::Not) => match parse_at(7, tokens, at + 1, ctx, numbers) {
            Ok((v, j)) => Ok((SkillValue::Bool(!truthy(&v)), j)),
            Err(e) => Err(e),
        },
        Token::LParen => match parse_at(0, tokens, at + 1, ctx, numbers) {
            Ok((v, j)) => {
                if j < tokens.len() {
                    if let Token::RParen = &tokens[j] {
                        return Ok((v, j + 1));
                    }
                }
                Err(EvalFault::Message(ExprMessage::ExpectedRParen))
            },
            Err(e) => Err(e),
        },
        Token::Number(x) => Ok((SkillValue::Number(*x), at + 1)),
        Token::Str(s) => Ok((SkillValue::String(s.clone()), at + 1)),
        Token::Ident(s) => {
            let v = if same_text(s.as_str(), "true") {
                SkillValue::Bool(true)
            } else if same_text(s.as_str(), "false") {
                SkillValue::Bool(false)
            } else if same_text(s.as_str(), "null") {
                SkillValue::Null
            } else {
                match resolve_path(s.as_str(), ctx) {
                    Some(v) => v,
                    None => SkillValue::Null,
                }
            };
            Ok((v, at + 1))
        },
        other => Err(EvalFault::Message(ExprMessage::UnexpectedToken(other.clone()))),
    }
}

/// What is said of a text that could not be divided into words.
pub open spec fn lex_message(f: LexFaultView) -> EvalFaultView {
    match f {
        LexFaultView::InvalidNumber(t) => EvalFaultView::Message(ExprMessageView::InvalidNumber(t)),
        LexFaultView::UnterminatedString => EvalFaultView::Message(
            ExprMessageView::UnterminatedString,
        ),
        LexFaultView::UnexpectedCharacter(c) => EvalFaultView::Message(
            ExprMessageView::UnexpectedCharacter(c),
        ),
        LexFaultView::Ask(q) => EvalFaultView::Ask(q),
    }
}

/// The error of an expression without a value.
pub open spec fn expr_error(expr: Seq<char>, f: EvalFaultView) -> ErrorView {
    match f {
        EvalFaultView::Message(message) => ErrorView::Expr { expr, message },
        EvalFaultView::Ask(q) => ErrorView::Unanswered(q),
    }
}

/// The value of an expression: of all its words as one operand.
pub open spec fn expr_value(expr: Seq<char>, ctx: ContextView, n: NumbersView) -> Result<
    ValueView,
    ErrorView,
> {
    match words_from(expr, 0, n) {
        Ok(t) => match value_at(0, t, 0, ctx, n) {
            Ok((v, j)) => if j < t.len() {
                Err(expr_error(expr, EvalFaultView::Message(ExprMessageView::TrailingToken)))
            } else {
                Ok(v)
            },
            Err(e) => Err(expr_error(expr, e)),
        },
        Err(f) => Err(expr_error(expr, lex_message(f))),
    }
}

fn fault_error(expr: &SkillExpr, fault: EvalFault) -> (r: SkillError)
    ensures
        r@ == expr_error(expr@, fault@),
{
    match fault {
        EvalFault::Message(message) => SkillError::Expr { expr: expr.0.clone(), message },
        EvalFault::Ask(q) => SkillError::Unanswered(q),
    }
}

fn lex_fault(fault: LexFault) -> (r: EvalFault)
    ensures
        r@ == lex_message(fault@),
{
    match fault {
        LexFault::InvalidNumber(t) => EvalFault::Message(ExprMessage::InvalidNumber(t)),
        LexFault::UnterminatedString => EvalFault::Message(ExprMessage::UnterminatedString),
        LexFault::UnexpectedCharacter(c) => EvalFault::Message(ExprMessage::UnexpectedCharacter(c)),
        LexFault::Ask(q) => EvalFault::Ask(q),
    }
}

/// Works out the value of an expression.
pub fn eval_skill_expr(expr: &SkillExpr, ctx: &SkillContext, numbers: &NumberTable) -> (r: Result<
    SkillValue,
    SkillError,
>)
    ensures
        value_outcome(r) == expr_value(expr@, ctx@, numbers@),
{
    let tokens: Vec<Token> = match tokenize(expr.0.as_str(), numbers) {
        Ok(t) => t,
        Err(f) => return Err(fault_error(expr, lex_fault(f))),
    };
    match parse_at(0, &tokens, 0, ctx, numbers) {
        Ok((v, j)) => {
            if j < tokens.len() {
                return Err(fault_error(expr, EvalFault::Message(ExprMessage::TrailingToken)));
            }
            Ok(v)
        },
        Err(e) => Err(fault_error(expr, e)),
    }
}

/// A text that a one-item list holds is an expression.
pub open spec fn expr_like(t: Seq<char>) -> bool {
    begins_with(t, "stat."@) || begins_with(t, "event."@) || begins_with(t, "var."@) || begins_with(
        t,
        "vars."@,
    ) || occurs_in(t, " ?? "@) || occurs_in(t, " * "@) || occurs_in(t, " + "@) || occurs_in(
        t,
        " - "@,
    ) || occurs_in(t, " / "@) || occurs_in(t, " == "@) || occurs_in(t, " != "@) || occurs_in(
        t,
        " >= "@,
    ) || occurs_in(t, " <= "@) || occurs_in(t, " && "@) || occurs_in(t, " || "@)
}

/// Whether a text that a one-item list holds is an expression.
pub fn looks_like_expr(expr: &str) -> (r: bool)
    ensures
        r == expr_like(expr@),
{
    text_begins_with(expr, "stat.") || text_begins_with(expr, "event.") || text_begins_with(
        expr,
        "var.",
    ) || text_begins_with(expr, "vars.") || text_contains(expr, " ?? ") || text_contains(
        expr,
        " * ",
    ) || text_contains(expr, " + ") || text_contains(expr, " - ") || text_contains(expr, " / ")
        || text_contains(expr, " == ") || text_contains(expr, " != ") || text_contains(expr, " >= ")
        || text_contains(expr, " <= ") || text_contains(expr, " && ") || text_contains(expr, " || ")
}

/// A value with every expression in it worked out.
pub open spec fn resolved(v: ValueView, ctx: ContextView, n: NumbersView) -> Result<
    ValueView,
    ErrorView,
>
    decreases v, 1int,
{
    match v {
        ValueView::Special(SpecialView::Expr(e)) => expr_value(e, ctx, n),
        ValueView::Table(t) => match resolved_args(t, ctx, n) {
            Ok(u) => Ok(ValueView::Table(u)),
            Err(e) => Err(e),
        },
        ValueView::List(l) => if l.len() == 1 && l[0] is String && expr_like(l[0]->String_0) {
            expr_value(l[0]->String_0, ctx, n)
        } else {
            match collected(each_value(l, ctx, n)) {
                Ok(s) => Ok(ValueView::List(s)),
                Err(e) => Err(e),
            }
        },
        _ => Ok(v),
    }
}

/// The outcome for each value of a list.
pub open spec fn each_value(l: Seq<ValueView>, ctx: ContextView, n: NumbersView) -> Seq<
    Result<ValueView, ErrorView>,
>
    decreases l, 0int,
{
    Seq::new(
        l.len(),
        |i: int|
            if 0 <= i < l.len() {
                resolved(l[i], ctx, n)
            } else {
                arbitrary()
            },
    )
}

/// The outcome for each argument.
pub open spec fn each_arg(t: ArgsView, ctx: ContextView, n: NumbersView) -> Seq<
    Result<ValueView, ErrorView>,
>
    decreases t, 0int,
{
    Seq::new(
        t.len(),
        |i: int|
            if 0 <= i < t.len() {
                resolved(t[i].1, ctx, n)
            } else {
                arbitrary()
            },
    )
}

/// An argument table under the same names with other values.
pub open spec fn renamed(t: ArgsView, s: Seq<ValueView>) -> ArgsView {
    Seq::new(t.len(), |i: int| (t[i].0, s[i]))
}

/// Arguments with every expression in them worked out.
pub open spec fn resolved_args(t: ArgsView, ctx: ContextView, n: NumbersView) -> Result<
    ArgsView,
    ErrorView,
>
    decreases t, 1int,
{
    match collected(each_arg(t, ctx, n)) {
        Ok(s) => Ok(renamed(t, s)),
        Err(e) => Err(e),
    }
}

/// Works out every expression in a value.
pub fn resolve_value(value: &SkillValue, ctx: &SkillContext, numbers: &NumberTable) -> (r: Result<
    SkillValue,
    SkillError,
>)
    ensures
        value_outcome(r) == resolved(value@, ctx@, numbers@),
    decreases value@,
{
    match value {
        SkillValue::Special(SkillSpecialValue::Expr(e)) => {
            eval_skill_expr(&SkillExpr(e.clone()), ctx, numbers)
        },
        SkillValue::Table(m) => {
            assert(decreases_to!(value@ => value@->Table_0));
            match resolve_args(m, ctx, numbers) {
                Ok(u) => Ok(SkillValue::Table(u)),
                Err(e) => Err(e),
            }
        },
        SkillValue::List(l) => {
            assert(value@ == ValueView::List(list_view(l@)));
            if l.len() == 1 {
                assert(list_view(l@)[0] == l@[0]@);
                if let SkillValue::String(e) = &l[0] {
                    if looks_like_expr(e.as_str()) {
                        return eval_skill_expr(&SkillExpr(e.clone()), ctx, numbers);
                    }
                }
            }
            let ghost parts = each_value(list_view(l@), ctx@, numbers@);
            let mut out: Vec<SkillValue> = Vec::new();
            let n: usize = l.len();
            let mut i: usize = 0;
            while i < n
                invariant
                    i <= n,
                    n == l@.len(),
                    n == parts.len(),
                    out@.len() == i,
                    value@ == ValueView::List(list_view(l@)),
                    parts == each_value(list_view(l@), ctx@, numbers@),
                    forall|j: int|
                        0 <= j < i ==> (#[trigger] parts[j]) == Ok::<ValueView, ErrorView>(
                            out@[j]@,
                        ),
                decreases n - i,
            {
                assert(list_view(l@)[i as int] == l@[i as int]@);
                assert(decreases_to!(value@ => value@->List_0));
                assert(decreases_to!(value@->List_0 => value@->List_0[i as int]));
                match resolve_value(&l[i], ctx, numbers) {
                    Ok(v) => {
                        out.push(v);
                    },
                    Err(e) => {
                        proof {
                            lemma_first_failure(parts, i as int);
                        }
                        return Err(e);
                    },
                }
                i = i + 1;
            }
            assert(collected(parts)->Ok_0 =~= list_view(out@));
            Ok(SkillValue::List(out))
        },
        other => Ok(copy_value(other)),
    }
}

pub open spec fn args_outcome(r: Result<SkillArgs, SkillError>) -> Result<ArgsView, ErrorView> {
    match r {
        Ok(m) => Ok(args_view(m)),
        Err(e) => Err(e@),
    }
}

/// Works out every expression in a table of arguments.
pub fn resolve_args(args: &SkillArgs, ctx: &SkillContext, numbers: &NumberTable) -> (r: Result<
    SkillArgs,
    SkillError,
>)
    ensures
        args_outcome(r) == resolved_args(args_view(*args), ctx@, numbers@),
        r matches Ok(m) ==> distinct(args_view(m)),
    decreases args_view(*args),
{
    let ghost t = args_view(*args);
    let ghost parts = each_arg(t, ctx@, numbers@);
    let mut out: Vec<SkillValue> = Vec::new();
    let n: usize = args.len();
    let mut i: usize = 0;
    while i < n
        invariant
            i <= n,
            n == args@.len(),
            t == args_view(*args),
            n == parts.len(),
            out@.len() == i,
            parts == each_arg(t, ctx@, numbers@),
            forall|j: int|
                0 <= j < i ==> (#[trigger] parts[j]) == Ok::<ValueView, ErrorView>(out@[j]@),
        decreases n - i,
    {
        assert(args_view(*args)[i as int] == (args@[i as int].0, args@[i as int].1@));
        assert(decreases_to!(args_view(*args) => args_view(*args)[i as int]));
        assert(decreases_to!(args_view(*args)[i as int] => args_view(*args)[i as int].1));
        match resolve_value(args.value(i), ctx, numbers) {
            Ok(v) => {
                out.push(v);
            },
            Err(e) => {
                proof {
                    lemma_first_failure(parts, i as int);
                }
                return Err(e);
            },
        }
        i = i + 1;
    }
    let r = args.rebuilt(out);
    assert(args_view(r) =~= renamed(t, collected(parts)->Ok_0));
    proof {
        lemma_args_distinct(r);
    }
    Ok(r)
}

} // verus!
