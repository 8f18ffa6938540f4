//! How modifiers change the stats of a skill, and what compiling makes of a definition.
use crate::compile::{compiled, modified};
use crate::context::ContextView;
use crate::def::{first_occurrences, DefView};
use crate::error::ErrorView;
use crate::expr::{expr_value, resolved};
use crate::meaning_laws::answers;
use crate::modifier::{stat_changed, stats_changed, stats_left, StatModifier, StatOpView};
use crate::number::{NumberOp, NumbersView, SkillNumber};
use crate::registry::{ModifierSlot, RegistryView, SkillModifier};
use crate::table::{distinct, law_put_then_lookup, lookup};
use crate::value::{ArgsView, ValueView};
use vstd::prelude::*;

verus! {

/// The value of a change stands for the number: it is the number, or an expression that has it.
pub open spec fn stands_for(v: ValueView, ctx: ContextView, n: NumbersView, x: SkillNumber) -> bool {
    v == ValueView::Number(x) || (v is Special && v->Special_0 is Expr && expr_value(
        v->Special_0->Expr_0,
        ctx,
        n,
    ) == Ok::<ValueView, ErrorView>(ValueView::Number(x)))
}

/// The stat is the number.
pub open spec fn stat_is(params: ArgsView, name: Seq<char>, c: SkillNumber) -> bool {
    lookup(params, name) == Some(ValueView::Number(c))
}

/// The stat is no number.
pub open spec fn no_number(params: ArgsView, name: Seq<char>) -> bool {
    !(lookup(params, name) is Some && lookup(params, name)->0 is Number)
}

/// The law of adding: the stat becomes the sum of what it was and the number, as the host adds them;
/// a stat that is no number counts as zero. The other stats stay.
pub proof fn law_adding(
    params: ArgsView,
    name: Seq<char>,
    v: ValueView,
    c: SkillNumber,
    x: SkillNumber,
    y: SkillNumber,
    ctx: ContextView,
    n: NumbersView,
    other: Seq<char>,
)
    requires
        distinct(params),
        stands_for(v, ctx, n, x),
        stat_is(params, name, c) || (no_number(params, name) && c.bits == 0),
        answers(n, NumberOp::Add, c, x, y),
    ensures
        stat_changed(StatOpView::Add(name, v), params, ctx, n) matches Ok(p) && stat_is(p, name, y)
            && (other != name ==> lookup(p, other) == lookup(params, other)),
{
    law_put_then_lookup(params, name, ValueView::Number(y), other);
}

/// The law of multiplying: the stat becomes the product of what it was and the number, as the host
/// multiplies them; a stat that is no number counts as one. The other stats stay.
pub proof fn law_multiplying(
    params: ArgsView,
    name: Seq<char>,
    v: ValueView,
    c: SkillNumber,
    x: SkillNumber,
    y: SkillNumber,
    ctx: ContextView,
    n: NumbersView,
    other: Seq<char>,
)
    requires
        distinct(params),
        stands_for(v, ctx, n, x),
        stat_is(params, name, c) || (no_number(params, name) && c.bits == 0x3ff0_0000_0000_0000),
        answers(n, NumberOp::Mul, c, x, y),
    ensures
        stat_changed(StatOpView::Mul(name, v), params, ctx, n) matches Ok(p) && stat_is(p, name, y)
            && (other != name ==> lookup(p, other) == lookup(params, other)),
{
    law_put_then_lookup(params, name, ValueView::Number(y), other);
}

/// The law of assigning: the stat becomes the value, worked out, whatever it was. The other stats
/// stay.
pub proof fn law_assigning(
    params: ArgsView,
    name: Seq<char>,
    v: ValueView,
    w: ValueView,
    ctx: ContextView,
    n: NumbersView,
    other: Seq<char>,
)
    requires
        distinct(params),
        resolved(v, ctx, n) == Ok::<ValueView, ErrorView>(w),
    ensures
        stat_changed(StatOpView::Assign(name, v), params, ctx, n) matches Ok(p) && lookup(p, name)
            == Some(w) && (other != name ==> lookup(p, other) == lookup(params, other)),
{
    law_put_then_lookup(params, name, w, other);
}

/// The law of faults: a sum or a product with something that stands for no number fails.
pub proof fn law_no_number_no_sum(
    params: ArgsView,
    name: Seq<char>,
    v: ValueView,
    ctx: ContextView,
    n: NumbersView,
)
    requires
        forall|x: SkillNumber| !stands_for(v, ctx, n, x),
    ensures
        stat_changed(StatOpView::Add(name, v), params, ctx, n) is Err,
        stat_changed(StatOpView::Mul(name, v), params, ctx, n) is Err,
{
    if v is Number {
        assert(stands_for(v, ctx, n, v->Number_0));
    }
    if v is Special && v->Special_0 is Expr {
        match expr_value(v->Special_0->Expr_0, ctx, n) {
            Ok(ValueView::Number(x)) => {
                assert(stands_for(v, ctx, n, x));
            },
            _ => {},
        }
    }
}

proof fn lemma_changes_behind(
    a: Seq<StatOpView>,
    b: Seq<StatOpView>,
    k: int,
    params: ArgsView,
    ctx: ContextView,
    n: NumbersView,
)
    requires
        0 <= k,
    ensures
        stats_changed(a + b, a.len() + k, params, ctx, n) == stats_changed(b, k, params, ctx, n),
        stats_left(a + b, a.len() + k, params, ctx, n) == stats_left(b, k, params, ctx, n),
    decreases b.len() - k,
{
    if k < b.len() {
        assert((a + b)[a.len() + k] == b[k]);
        match stat_changed(b[k], params, ctx, n) {
            Ok(p) => lemma_changes_behind(a, b, k + 1, p, ctx, n),
            Err(_) => {},
        }
    }
}

proof fn lemma_changes_in_order(
    a: Seq<StatOpView>,
    b: Seq<StatOpView>,
    k: int,
    params: ArgsView,
    ctx: ContextView,
    n: NumbersView,
)
    requires
        0 <= k <= a.len(),
    ensures
        stats_changed(a + b, k, params, ctx, n) == match stats_changed(a, k, params, ctx, n) {
            Ok(p) => stats_changed(b, 0, p, ctx, n),
            Err(e) => Err(e),
        },
        stats_left(a + b, k, params, ctx, n) == match stats_changed(a, k, params, ctx, n) {
            Ok(p) => stats_left(b, 0, p, ctx, n),
            Err(e) => stats_left(a, k, params, ctx, n),
        },
    decreases a.len() - k,
{
    if k < a.len() {
        assert((a + b)[k] == a[k]);
        match stat_changed(a[k], params, ctx, n) {
            Ok(p) => lemma_changes_in_order(a, b, k + 1, p, ctx, n),
            Err(_) => {},
        }
    } else {
        lemma_changes_behind(a, b, 0, params, ctx, n);
    }
}

/// The law of changes: changes are made one after another, each on what those before it have left;
/// the first that fails ends it, and those before it stay made.
pub proof fn law_changes_in_order(
    a: Seq<StatOpView>,
    op: StatOpView,
    b: Seq<StatOpView>,
    params: ArgsView,
    ctx: ContextView,
    n: NumbersView,
)
    ensures
        stats_changed(Seq::empty(), 0, params, ctx, n) == Ok::<ArgsView, ErrorView>(params),
        stats_changed(seq![op], 0, params, ctx, n) == stat_changed(op, params, ctx, n),
        stats_changed(a + b, 0, params, ctx, n) == match stats_changed(a, 0, params, ctx, n) {
            Ok(p) => stats_changed(b, 0, p, ctx, n),
            Err(e) => Err(e),
        },
        stats_changed(a, 0, params, ctx, n) matches Ok(p) ==> (stat_changed(op, p, ctx, n) is Err
            ==> stats_left(a + seq![op] + b, 0, params, ctx, n) == p),
{
    let one = seq![op];
    assert(one[0] == op);
    match stat_changed(op, params, ctx, n) {
        Ok(p) => {
            assert(stats_changed(one, 1, p, ctx, n) == Ok::<ArgsView, ErrorView>(p));
        },
        Err(_) => {},
    }
    lemma_changes_in_order(a, b, 0, params, ctx, n);
    lemma_changes_in_order(a, one + b, 0, params, ctx, n);
    assert(a + one + b =~= a + (one + b));
    match stats_changed(a, 0, params, ctx, n) {
        Ok(p) => {
            assert((one + b)[0] == op);
        },
        Err(_) => {},
    }
}

/// The law of tags: a modifier is meant for the skills that have one of its tags, and one without
/// tags for all.
pub proof fn law_modifiers_follow_tags(m: StatModifier, tags: Seq<Seq<char>>)
    ensures
        m.applies_to(tags) <==> m.tags() =~= Seq::<Seq<char>>::empty() || exists|t: Seq<char>|
            m.tags().contains(t) && #[trigger] tags.contains(t),
{
    if m.applies_to(tags) && m.tags().len() > 0 {
        let i = choose|i: int|
            0 <= i < m.tags().len() && tags.contains(#[trigger] m.tags()[i]);
        assert(m.tags().contains(m.tags()[i]) && tags.contains(m.tags()[i]));
    }
    if exists|t: Seq<char>| m.tags().contains(t) && #[trigger] tags.contains(t) {
        let t = choose|t: Seq<char>| m.tags().contains(t) && #[trigger] tags.contains(t);
        let i = m.tags().index_of(t);
        assert(tags.contains(m.tags()[i]));
    }
}

proof fn lemma_modified_behind(
    a: Seq<Seq<char>>,
    b: Seq<Seq<char>>,
    k: int,
    params: ArgsView,
    ctx: ContextView,
    m: Seq<(Seq<char>, ModifierSlot)>,
    n: NumbersView,
)
    requires
        0 <= k,
    ensures
        modified(a + b, a.len() + k, params, ctx, m, n) == modified(b, k, params, ctx, m, n),
    decreases b.len() - k,
{
    if k < b.len() {
        assert((a + b)[a.len() + k] == b[k]);
        match lookup(m, b[k]) {
            Some(slot) => {
                if slot.applies_to(ctx.tags) {
                    match slot.changes(params, ctx, n) {
                        Ok(p) => lemma_modified_behind(
                            a,
                            b,
                            k + 1,
                            p,
                            ContextView { stats: p, ..ctx },
                            m,
                            n,
                        ),
                        Err(_) => {},
                    }
                } else {
                    lemma_modified_behind(a, b, k + 1, params, ctx, m, n);
                }
            },
            None => {},
        }
    }
}

proof fn lemma_modified_in_order(
    a: Seq<Seq<char>>,
    b: Seq<Seq<char>>,
    k: int,
    params: ArgsView,
    ctx: ContextView,
    m: Seq<(Seq<char>, ModifierSlot)>,
    n: NumbersView,
)
    requires
        0 <= k <= a.len(),
        ctx.stats == params,
    ensures
        modified(a + b, k, params, ctx, m, n) == match modified(a, k, params, ctx, m, n) {
            Ok(p) => modified(b, 0, p, ContextView { stats: p, ..ctx }, m, n),
            Err(e) => Err(e),
        },
    decreases a.len() - k,
{
    if k < a.len() {
        assert((a + b)[k] == a[k]);
        match lookup(m, a[k]) {
            Some(slot) => {
                if slot.applies_to(ctx.tags) {
                    match slot.changes(params, ctx, n) {
                        Ok(p) => lemma_modified_in_order(
                            a,
                            b,
                            k + 1,
                            p,
                            ContextView { stats: p, ..ctx },
                            m,
                            n,
                        ),
                        Err(_) => {},
                    }
                } else {
                    lemma_modified_in_order(a, b, k + 1, params, ctx, m, n);
                }
            },
            None => {},
        }
    } else {
        lemma_modified_behind(a, b, 0, params, ctx, m, n);
        assert(ctx == ContextView { stats: params, ..ctx });
    }
}

/// The law of modifiers: the modifiers of a skill work one after another; each sees the stats that
/// those before it have left; one that is not meant for the tags of the skill changes nothing; and
/// one that is not registered is an error.
pub proof fn law_modifiers_in_order(
    a: Seq<Seq<char>>,
    id: Seq<char>,
    b: Seq<Seq<char>>,
    params: ArgsView,
    ctx: ContextView,
    m: Seq<(Seq<char>, ModifierSlot)>,
    n: NumbersView,
)
    requires
        ctx.stats == params,
    ensures
        modified(Seq::empty(), 0, params, ctx, m, n) == Ok::<ArgsView, ErrorView>(params),
        modified(a + b, 0, params, ctx, m, n) == match modified(a, 0, params, ctx, m, n) {
            Ok(p) => modified(b, 0, p, ContextView { stats: p, ..ctx }, m, n),
            Err(e) => Err(e),
        },
        lookup(m, id) is None ==> modified(seq![id], 0, params, ctx, m, n) == Err::<
            ArgsView,
            ErrorView,
        >(ErrorView::UnknownModifier(id)),
        lookup(m, id) matches Some(slot) ==> modified(seq![id], 0, params, ctx, m, n)
            == if slot.applies_to(ctx.tags) {
            slot.changes(params, ctx, n)
        } else {
            Ok::<ArgsView, ErrorView>(params)
        },
{
    let one = seq![id];
    assert(one[0] == id);
    match lookup(m, id) {
        Some(slot) => {
            if slot.applies_to(ctx.tags) {
                match slot.changes(params, ctx, n) {
                    Ok(p) => {
                        assert(modified(one, 1, p, ContextView { stats: p, ..ctx }, m, n) == Ok::<
                            ArgsView,
                            ErrorView,
                        >(p));
                    },
                    Err(_) => {},
                }
            } else {
                assert(modified(one, 1, params, ctx, m, n) == Ok::<ArgsView, ErrorView>(params));
            }
        },
        None => {},
    }
    lemma_modified_in_order(a, b, 0, params, ctx, m, n);
}

/// The law of compiling: what is compiled keeps the identifier, the cast model and the requirements
/// of the definition; the stats of its plan are the parameters of its graph, as the modifiers leave
/// those of the definition; and the modifiers see the parameters of the definition as stats.
pub proof fn law_compiling_keeps_the_definition(skill: DefView, registry: RegistryView, n: NumbersView)
    requires
        compiled(skill, registry, n) is Ok,
    ensures
        ({
            let c = compiled(skill, registry, n)->Ok_0;
            &&& c.id == skill.id && c.graph.id == skill.id
            &&& c.cast_model == skill.cast_model
            &&& c.requirements == skill.requirements
            &&& c.graph.params == c.plan.stats
            &&& c.graph.tags == c.tags
            &&& exists|ctx: ContextView| #[trigger]
                modified(skill.modifiers, 0, skill.params, ctx, registry.modifiers, n) == Ok::<
                    ArgsView,
                    ErrorView,
                >(c.plan.stats) && ctx.stats == skill.params && ctx.tags == c.tags && ctx.skill_id
                    == skill.id && ctx.vars.len() == 0 && ctx.source_event is None && ctx.caster
                    is None
        }),
{
    let c = compiled(skill, registry, n)->Ok_0;
    let tags = first_occurrences(skill.tags);
    let ctx = crate::context::fresh_context(skill.id, skill.params, tags, None, 0);
    assert(modified(skill.modifiers, 0, skill.params, ctx, registry.modifiers, n) == Ok::<
        ArgsView,
        ErrorView,
    >(c.plan.stats));
    lemma_graph_keeps(c.plan.root, crate::graph::GraphView {
        id: skill.id,
        tags,
        params: c.plan.stats,
        root: None,
        nodes: Seq::empty(),
    });
}

proof fn lemma_graph_keeps(n: crate::value::NodeView, g: crate::graph::GraphView)
    ensures
        crate::append::appended(n, g) matches Ok((h, _)) ==> h.id == g.id && h.tags == g.tags
            && h.params == g.params && h.root == g.root,
{
    crate::link_laws::lemma_fields(n, g);
}

} // verus!
