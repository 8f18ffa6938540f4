//! Modifiers that change the stats of a skill.
use crate::action::SkillResult;
use crate::context::{ContextView, SkillContext, SkillTags};
use crate::def::{copy_strings, first_occurrences, strings_view, tag_set};
use crate::error::{runtime_text, ErrorView, SkillError};
use crate::expr::{eval_skill_expr, expr_value, resolve_value, resolved};
use crate::keys::{copy_keys, key_at, key_count, key_list, key_position};
use crate::number::{
    ask_result, num_one, num_zero, NumberOp, NumberTable, NumbersView, SkillNumber,
};
use crate::registry::SkillModifier;
use crate::table::{lookup, put};
use crate::value::{
    arg, args_view, copy_value, no_args, set_arg, ArgsView, SkillArgs, SkillExpr,
    SkillSpecialValue, SkillValue, SpecialView, ValueView,
};
use vstd::prelude::*;

verus! {

/// A change to one stat.
#[derive(Debug)]
pub enum StatOp {
    Add(String, SkillValue),
    Mul(String, SkillValue),
    Assign(String, SkillValue),
}

pub enum StatOpView {
    Add(Seq<char>, ValueView),
    Mul(Seq<char>, ValueView),
    Assign(Seq<char>, ValueView),
}

impl StatOp {
    pub open spec fn view(&self) -> StatOpView {
        match self {
            StatOp::Add(name, value) => StatOpView::Add(name@, value@),
            StatOp::Mul(name, value) => StatOpView::Mul(name@, value@),
            StatOp::Assign(name, value) => StatOpView::Assign(name@, value@),
        }
    }
}

impl Clone for StatOp {
    fn clone(&self) -> (r: StatOp)
        ensures
            r@ == self@,
    {
        match self {
            StatOp::Add(name, value) => StatOp::Add(name.clone(), copy_value(value)),
            StatOp::Mul(name, value) => StatOp::Mul(name.clone(), copy_value(value)),
            StatOp::Assign(name, value) => StatOp::Assign(name.clone(), copy_value(value)),
        }
    }
}

pub open spec fn ops_view(s: Seq<StatOp>) -> Seq<StatOpView> {
    Seq::new(s.len(), |i: int| s[i]@)
}

fn copy_ops(l: &Vec<StatOp>) -> (r: Vec<StatOp>)
    ensures
        ops_view(r@) == ops_view(l@),
{
    let mut out: Vec<StatOp> = Vec::new();
    let n: usize = l.len();
    let mut i: usize = 0;
    while i < n
        invariant
            i <= n,
            n == l@.len(),
            out@.len() == i,
            forall|j: int| 0 <= j < i ==> (#[trigger] out@[j])@ == l@[j]@,
        decreases n - i,
    {
        out.push(l[i].clone());
        i = i + 1;
    }
    assert(ops_view(out@) =~= ops_view(l@));
    out
}

/// A modifier as it is written.
#[derive(Debug)]
pub struct ModifierDef {
    pub id: String,
    pub applies_to_tags: Vec<String>,
    pub ops: Vec<StatOp>,
}

impl Clone for ModifierDef {
    fn clone(&self) -> (r: ModifierDef)
        ensures
            r.id == self.id,
            r.applies_to_tags@ == self.applies_to_tags@,
            ops_view(r.ops@) == ops_view(self.ops@),
    {
        ModifierDef {
            id: self.id.clone(),
            applies_to_tags: copy_strings(&self.applies_to_tags),
            ops: copy_ops(&self.ops),
        }
    }
}

/// A modifier that changes stats of the skills that have one of its tags, or of every skill if it
/// has none.
#[derive(Debug)]
pub struct StatModifier {
    applies_to_tags: SkillTags,
    ops: Vec<StatOp>,
}

/// The number under a name, or another where there is none.
pub open spec fn number_or(params: ArgsView, name: Seq<char>, other: SkillNumber) -> SkillNumber {
    match lookup(params, name) {
        Some(ValueView::Number(x)) => x,
        _ => other,
    }
}

/// The number that a value of a change stands for.
pub open spec fn value_number(v: ValueView, ctx: ContextView, n: NumbersView) -> Result<
    SkillNumber,
    ErrorView,
> {
    let outcome = match v {
        ValueView::Special(SpecialView::Expr(e)) => expr_value(e, ctx, n),
        _ => Ok(v),
    };
    match outcome {
        Ok(ValueView::Number(x)) => Ok(x),
        Ok(_) => Err(runtime_text("expected number"@)),
        Err(e) => Err(e),
    }
}

/// The parameters after a stat was combined with a number.
pub open spec fn stat_combined(
    op: NumberOp,
    params: ArgsView,
    name: Seq<char>,
    current: SkillNumber,
    value: ValueView,
    ctx: ContextView,
    n: NumbersView,
) -> Result<ArgsView, ErrorView> {
    match value_number(value, ctx, n) {
        Ok(x) => match ask_result(n, op, current, x) {
            Ok(y) => Ok(put(params, name, ValueView::Number(y))),
            Err(q) => Err(ErrorView::Unanswered(q)),
        },
        Err(e) => Err(e),
    }
}

/// The parameters after one change.
pub open spec fn stat_changed(op: StatOpView, params: ArgsView, ctx: ContextView, n: NumbersView) -> Result<
    ArgsView,
    ErrorView,
> {
    match op {
        StatOpView::Add(name, value) => stat_combined(
            NumberOp::Add,
            params,
            name,
            number_or(params, name, num_zero()),
            value,
            ctx,
            n,
        ),
        StatOpView::Mul(name, value) => stat_combined(
            NumberOp::Mul,
            params,
            name,
            number_or(params, name, num_one()),
            value,
            ctx,
            n,
        ),
        StatOpView::Assign(name, value) => match resolved(value, ctx, n) {
            Ok(v) => Ok(put(params, name, v)),
            Err(e) => Err(e),
        },
    }
}

/// The parameters after the changes from the `k`-th on, in order.
pub open spec fn stats_changed(
    ops: Seq<StatOpView>,
    k: int,
    params: ArgsView,
    ctx: ContextView,
    n: NumbersView,
) -> Result<ArgsView, ErrorView>
    decreases ops.len() - k,
{
    if 0 <= k < ops.len() {
        match stat_changed(ops[k], params, ctx, n) {
            Ok(p) => stats_changed(ops, k + 1, p, ctx, n),
            Err(e) => Err(e),
        }
    } else {
        Ok(params)
    }
}

/// The parameters that the changes from the `k`-th on leave, up to the first that fails.
pub open spec fn stats_left(
    ops: Seq<StatOpView>,
    k: int,
    params: ArgsView,
    ctx: ContextView,
    n: NumbersView,
) -> ArgsView
    decreases ops.len() - k,
{
    if 0 <= k < ops.len() {
        match stat_changed(ops[k], params, ctx, n) {
            Ok(p) => stats_left(ops, k + 1, p, ctx, n),
            Err(_) => params,
        }
    } else {
        params
    }
}

/// The number that a value is.
pub fn as_number(value: Option<&SkillValue>) -> (r: Option<SkillNumber>)
    ensures
        r == match value {
            Some(v) => match v@ {
                ValueView::Number(x) => Some(x),
                _ => None,
            },
            None => None,
        },
{
    match value {
        Some(SkillValue::Number(x)) => Some(*x),
        _ => None,
    }
}

/// The number that a value of a change stands for.
pub fn value_as_number(value: &SkillValue, ctx: &SkillContext, numbers: &NumberTable) -> (r: Result<
    SkillNumber,
    SkillError,
>)
    ensures
        match r {
            Ok(x) => value_number(value@, ctx@, numbers@) == Ok::<SkillNumber, ErrorView>(x),
            Err(e) => value_number(value@, ctx@, numbers@) == Err::<SkillNumber, ErrorView>(e@),
        },
{
    let outcome = match value {
        SkillValue::Special(SkillSpecialValue::Expr(e)) => match eval_skill_expr(
            &SkillExpr(e.clone()),
            ctx,
            numbers,
        ) {
            Ok(v) => v,
            Err(e) => return Err(e),
        },
        other => copy_value(other),
    };
    match as_number(Some(&outcome)) {
        Some(x) => Ok(x),
        None => Err(SkillError::runtime("expected number")),
    }
}

fn combine_stat(
    op: NumberOp,
    params: &mut SkillArgs,
    name: &String,
    current: SkillNumber,
    value: &SkillValue,
    ctx: &SkillContext,
    numbers: &NumberTable,
) -> (r: SkillResult)
    ensures
        match stat_combined(op, args_view(*old(params)), name@, current, value@, ctx@, numbers@) {
            Ok(p) => r is Ok && args_view(*final(params)) == p,
            Err(e) => r matches Err(x) && x@ == e && *final(params) == *old(params),
        },
{
    let x = match value_as_number(value, ctx, numbers) {
        Ok(x) => x,
        Err(e) => return Err(e),
    };
    match numbers.result(op, current, x) {
        Ok(y) => {
            set_arg(params, name.clone(), SkillValue::Number(y));
            Ok(())
        },
        Err(q) => Err(SkillError::Unanswered(q)),
    }
}

impl StatModifier {
    /// The tags that the modifier is meant for.
    pub closed spec fn tags(&self) -> Seq<Seq<char>> {
        key_list(self.applies_to_tags)
    }

    /// The changes that the modifier makes.
    pub closed spec fn ops(&self) -> Seq<StatOpView> {
        ops_view(self.ops@)
    }

    pub fn new(applies_to_tags: Vec<String>, ops: Vec<StatOp>) -> (r: StatModifier)
        ensures
            r.tags() == first_occurrences(strings_view(applies_to_tags@)),
            r.ops() == ops_view(ops@),
    {
        StatModifier { applies_to_tags: tag_set(&applies_to_tags), ops }
    }
}

impl Clone for StatModifier {
    fn clone(&self) -> (r: StatModifier)
        ensures
            r.tags() == self.tags(),
            r.ops() == self.ops(),
    {
        StatModifier {
            applies_to_tags: copy_keys(&self.applies_to_tags),
            ops: copy_ops(&self.ops),
        }
    }
}

impl From<ModifierDef> for StatModifier {
    fn from(value: ModifierDef) -> (r: StatModifier)
        ensures
            r.tags() == first_occurrences(strings_view(value.applies_to_tags@)),
            r.ops() == ops_view(value.ops@),
    {
        StatModifier::new(value.applies_to_tags, value.ops)
    }
}

impl vstd::std_specs::convert::FromSpecImpl<ModifierDef> for StatModifier {
    open spec fn obeys_from_spec() -> bool {
        false
    }

    open spec fn from_spec(value: ModifierDef) -> StatModifier {
        arbitrary()
    }
}

impl SkillModifier for StatModifier {
    open spec fn applies_to(&self, tags: Seq<Seq<char>>) -> bool {
        self.tags().len() == 0 || exists|i: int|
            0 <= i < self.tags().len() && tags.contains(#[trigger] self.tags()[i])
    }

    open spec fn changes(&self, params: ArgsView, ctx: ContextView, n: NumbersView) -> Result<
        ArgsView,
        ErrorView,
    > {
        stats_changed(self.ops(), 0, params, ctx, n)
    }

    open spec fn leaves(&self, params: ArgsView, ctx: ContextView, n: NumbersView) -> ArgsView {
        stats_left(self.ops(), 0, params, ctx, n)
    }

    fn applies(&self, tags: &SkillTags) -> (r: bool) {
        let n: usize = key_count(&self.applies_to_tags);
        if n == 0 {
            return true;
        }
        let mut i: usize = 0;
        while i < n
            invariant
                i <= n,
                0 < n,
                n == self.tags().len(),
                forall|j: int| 0 <= j < i ==> !key_list(*tags).contains(#[trigger] self.tags()[j]),
            decreases n - i,
        {
            match key_at(&self.applies_to_tags, i) {
                Some(tag) => {
                    assert(tag@ == self.tags()[i as int]);
                    if key_position(tags, tag.as_str()).is_some() {
                        return true;
                    }
                },
                None => {},
            }
            i = i + 1;
        }
        false
    }

    fn apply(&self, params: &mut SkillArgs, ctx: &SkillContext, numbers: &NumberTable) -> (r:
        SkillResult) {
        let n: usize = self.ops.len();
        let mut i: usize = 0;
        while i < n
            invariant
                i <= n,
                n == self.ops().len(),
                n == self.ops@.len(),
                stats_changed(self.ops(), 0, args_view(*old(params)), ctx@, numbers@)
                    == stats_changed(self.ops(), i as int, args_view(*params), ctx@, numbers@),
                stats_left(self.ops(), 0, args_view(*old(params)), ctx@, numbers@) == stats_left(
                    self.ops(),
                    i as int,
                    args_view(*params),
                    ctx@,
                    numbers@,
                ),
            decreases n - i,
        {
            assert(self.ops()[i as int] == self.ops@[i as int]@);
            match &self.ops[i] {
                StatOp::Add(name, value) => {
                    let current = match as_number(arg(params, name.as_str())) {
                        Some(x) => x,
                        None => SkillNumber::zero(),
                    };
                    match combine_stat(NumberOp::Add, params, name, current, value, ctx, numbers) {
                        Ok(_) => {},
                        Err(e) => return Err(e),
                    }
                },
                StatOp::Mul(name, value) => {
                    let current = match as_number(arg(params, name.as_str())) {
                        Some(x) => x,
                        None => SkillNumber::one(),
                    };
                    match combine_stat(NumberOp::Mul, params, name, current, value, ctx, numbers) {
                        Ok(_) => {},
                        Err(e) => return Err(e),
                    }
                },
                StatOp::Assign(name, value) => match resolve_value(value, ctx, numbers) {
                    Ok(v) => {
                        set_arg(params, name.clone(), v);
                    },
                    Err(e) => return Err(e),
                },
            }
            i = i + 1;
        }
        Ok(())
    }
}

/// The table that the named numbers make, each put in turn.
pub open spec fn numbers_put(l: Seq<(String, SkillNumber)>) -> ArgsView
    decreases l.len(),
{
    if l.len() == 0 {
        Seq::empty()
    } else {
        put(numbers_put(l.drop_last()), l.last().0@, ValueView::Number(l.last().1))
    }
}

/// A table of stats from named numbers.
pub fn stats_from_numbers(values: &Vec<(String, SkillNumber)>) -> (r: SkillArgs)
    ensures
        args_view(r) == numbers_put(values@),
{
    let mut out: SkillArgs = no_args();
    let n: usize = values.len();
    let mut i: usize = 0;
    assert(values@.subrange(0, 0) =~= Seq::empty());
    while i < n
        invariant
            i <= n,
            n == values@.len(),
            args_view(out) == numbers_put(values@.subrange(0, i as int)),
        decreases n - i,
    {
        set_arg(&mut out, values[i].0.clone(), SkillValue::Number(values[i].1));
        i = i + 1;
        proof {
            let p = values@.subrange(0, i as int);
            assert(p.drop_last() =~= values@.subrange(0, i - 1));
        }
    }
    assert(values@.subrange(0, n as int) =~= values@);
    out
}

/// A law of modifiers: a change that goes well leaves every other stat as it was.
pub proof fn law_change_is_local(
    op: StatOpView,
    params: ArgsView,
    ctx: ContextView,
    n: NumbersView,
    other: Seq<char>,
)
    requires
        crate::table::distinct(params),
        stat_changed(op, params, ctx, n) is Ok,
        other != match op {
            StatOpView::Add(name, _) => name,
            StatOpView::Mul(name, _) => name,
            StatOpView::Assign(name, _) => name,
        },
    ensures
        lookup(stat_changed(op, params, ctx, n)->Ok_0, other) == lookup(params, other),
{
    let name = match op {
        StatOpView::Add(name, _) => name,
        StatOpView::Mul(name, _) => name,
        StatOpView::Assign(name, _) => name,
    };
    let after = stat_changed(op, params, ctx, n)->Ok_0;
    let v = choose|v: ValueView| after == #[trigger] put(params, name, v);
    assert(exists|v: ValueView| after == #[trigger] put(params, name, v)) by {
        match op {
            StatOpView::Add(_, value) => {
                let x = value_number(value, ctx, n)->Ok_0;
                let y = ask_result(n, NumberOp::Add, number_or(params, name, num_zero()), x)->Ok_0;
                assert(after == put(params, name, ValueView::Number(y)));
            },
            StatOpView::Mul(_, value) => {
                let x = value_number(value, ctx, n)->Ok_0;
                let y = ask_result(n, NumberOp::Mul, number_or(params, name, num_one()), x)->Ok_0;
                assert(after == put(params, name, ValueView::Number(y)));
            },
            StatOpView::Assign(_, value) => {
                assert(after == put(params, name, resolved(value, ctx, n)->Ok_0));
            },
        }
    }
    crate::table::law_put_then_lookup(params, name, v, other);
}

} // verus!
