//! What wakes suspended branches, and what becomes of them.
use crate::action::ResolvedView;
use crate::branch::{BranchView, SkillTimer, WaitView};
use crate::context::{ContextView, SignalView};
use crate::error::ErrorView;
use crate::execute::EnvView;
use crate::expr::{entity_value, named_value};
use crate::frame_laws::run_of;
use crate::number::QuestionView;
use crate::resume::{
    advanced, first_settlement, first_signal, left_with, woken, ActiveView, AdvancedView, EndView,
    TriggerView, WakeView,
};
use crate::spelling_laws::{below, dotless, law_names_lead, law_paths_lead_through_tables};
use crate::table::lookup;
use vstd::prelude::*;

verus! {

/// A settlement answers the request that a branch waits for.
pub open spec fn answers_branch(r: ResolvedView, b: BranchView) -> bool {
    b.wait matches WaitView::EffectResolved { request_id } && r.request_id == request_id
        && r.execution_id == b.ctx.execution_id
}

/// The `i`-th settlement is the first that answers the request that the branch waits for.
pub open spec fn first_answer(l: Seq<ResolvedView>, i: int, b: BranchView) -> bool {
    &&& 0 <= i < l.len()
    &&& answers_branch(l[i], b)
    &&& forall|j: int| 0 <= j < i ==> !answers_branch(#[trigger] l[j], b)
}

proof fn lemma_first_answer(l: Seq<ResolvedView>, i: int, k: int, b: BranchView)
    requires
        first_answer(l, i, b),
        0 <= k <= i,
    ensures
        first_settlement(l, k, b.wait->request_id, b.ctx.execution_id) == Some(l[i]),
    decreases i - k,
{
    if k < i {
        assert(!answers_branch(l[k], b));
        lemma_first_answer(l, i, k + 1, b);
    }
}

/// The law of settlements: a branch that a settlement wakes runs with that settlement as its event,
/// with its payload, its source as the caster and its target, and with everything else as it was; so
/// every key of the payload can be read as `event.key`.
pub proof fn law_settlements_are_seen(l: Seq<ResolvedView>, i: int, b: BranchView, key: Seq<char>)
    requires
        first_answer(l, i, b),
    ensures
        woken(TriggerView::Settled(l), b) matches WakeView::Run(ctx) && {
            &&& ctx.source_event matches Some(e) && e.name == l[i].kind + "_resolved"@ && e.payload
                == l[i].payload && e.caster == l[i].source && e.target == l[i].target
                && e.execution_id == Some(l[i].execution_id) && e.skill_entity is None
            &&& ctx == ContextView { source_event: ctx.source_event, ..b.ctx }
            &&& dotless(key) && key.len() > 0 && lookup(l[i].payload, key) is Some ==> named_value(
                below("event"@, key),
                ctx,
            ) == lookup(l[i].payload, key)
            &&& lookup(l[i].payload, "target"@) is None && l[i].target is Some ==> named_value(
                below("event"@, "target"@),
                ctx,
            ) == Some(entity_value(l[i].target->0))
            &&& lookup(l[i].payload, "caster"@) is None && l[i].source is Some ==> named_value(
                below("event"@, "caster"@),
                ctx,
            ) == Some(entity_value(l[i].source->0))
        },
{
    lemma_first_answer(l, i, 0, b);
    let ctx = woken(TriggerView::Settled(l), b)->Run_0;
    lemma_plain_names();
    if dotless(key) && key.len() > 0 {
        law_paths_lead_through_tables(l[i].payload, key, Seq::empty());
        law_names_lead(key, "x"@, ctx);
    }
    law_paths_lead_through_tables(l[i].payload, "target"@, Seq::empty());
    law_paths_lead_through_tables(l[i].payload, "caster"@, Seq::empty());
    law_names_lead("target"@, "x"@, ctx);
    law_names_lead("caster"@, "x"@, ctx);
}

proof fn lemma_plain_names()
    ensures
        dotless("x"@),
        dotless("target"@),
        dotless("caster"@),
        "target"@.len() > 0,
        "caster"@.len() > 0,
        !crate::spelling_laws::is_reserved("x"@),
{
    reveal_strlit("x");
    reveal_strlit("target");
    reveal_strlit("caster");
    reveal_strlit("stat");
    reveal_strlit("var");
    reveal_strlit("vars");
    reveal_strlit("event");
    reveal_strlit("skill");
    assert("x"@.len() == 1);
    assert("stat"@.len() == 4);
    assert("var"@.len() == 3);
    assert("vars"@.len() == 4);
    assert("event"@.len() == 5);
    assert("skill"@.len() == 5);
}

/// A signal is meant for a branch: it has the name that the branch waits for, and is meant for every
/// execution or for that of the branch, and for every entity or for that of the branch.
pub open spec fn meant_for(s: SignalView, b: BranchView) -> bool {
    &&& b.wait == WaitView::Signal(s.name)
    &&& s.execution_id is None || s.execution_id == Some(b.ctx.execution_id)
    &&& s.skill_entity is None || s.skill_entity == b.ctx.skill_entity
}

/// The `i`-th signal is the first that is meant for the branch.
pub open spec fn first_meant(l: Seq<SignalView>, i: int, b: BranchView) -> bool {
    &&& 0 <= i < l.len()
    &&& meant_for(l[i], b)
    &&& forall|j: int| 0 <= j < i ==> !meant_for(#[trigger] l[j], b)
}

proof fn lemma_first_meant(l: Seq<SignalView>, i: int, k: int, b: BranchView)
    requires
        first_meant(l, i, b),
        0 <= k <= i,
    ensures
        first_signal(l, k, b.wait->Signal_0, b.ctx) == Some(l[i]),
    decreases i - k,
{
    if k < i {
        assert(!meant_for(l[k], b));
        lemma_first_meant(l, i, k + 1, b);
    }
}

proof fn lemma_none_meant(l: Seq<SignalView>, k: int, b: BranchView)
    requires
        0 <= k <= l.len(),
        b.wait is Signal,
        forall|j: int| 0 <= j < l.len() ==> !meant_for(#[trigger] l[j], b),
    ensures
        first_signal(l, k, b.wait->Signal_0, b.ctx) is None,
    decreases l.len() - k,
{
    if k < l.len() {
        assert(!meant_for(l[k], b));
        lemma_none_meant(l, k + 1, b);
    }
}

proof fn lemma_no_answer(l: Seq<ResolvedView>, k: int, b: BranchView)
    requires
        0 <= k <= l.len(),
        b.wait is EffectResolved,
        forall|j: int| 0 <= j < l.len() ==> !answers_branch(#[trigger] l[j], b),
    ensures
        first_settlement(l, k, b.wait->request_id, b.ctx.execution_id) is None,
    decreases l.len() - k,
{
    if k < l.len() {
        assert(!answers_branch(l[k], b));
        lemma_no_answer(l, k + 1, b);
    }
}

/// The law of signals: a branch that a signal wakes runs with the first signal that is meant for it
/// as its event, at the target of that signal where it has one and else at its own, and with
/// everything else as it was.
pub proof fn law_signals_are_seen(l: Seq<SignalView>, i: int, b: BranchView)
    requires
        first_meant(l, i, b),
    ensures
        woken(TriggerView::Signals(l), b) matches WakeView::Run(ctx) && {
            &&& ctx.source_event == Some(l[i])
            &&& l[i].target is Some ==> ctx.current_target == l[i].target
            &&& l[i].target is None ==> ctx.current_target == b.ctx.current_target
            &&& ctx == ContextView {
                source_event: ctx.source_event,
                current_target: ctx.current_target,
                ..b.ctx
            }
        },
{
    lemma_first_meant(l, i, 0, b);
}

/// The law of waiting: a branch goes on waiting, as it is, where no signal is meant for it and no
/// settlement answers its request.
pub proof fn law_others_wait_on(s: Seq<SignalView>, r: Seq<ResolvedView>, b: BranchView)
    ensures
        (forall|j: int| 0 <= j < s.len() ==> !meant_for(#[trigger] s[j], b)) ==> woken(
            TriggerView::Signals(s),
            b,
        ) == WakeView::Keep(b),
        (forall|j: int| 0 <= j < r.len() ==> !answers_branch(#[trigger] r[j], b)) ==> woken(
            TriggerView::Settled(r),
            b,
        ) == WakeView::Keep(b),
{
    if b.wait is Signal && forall|j: int| 0 <= j < s.len() ==> !meant_for(#[trigger] s[j], b) {
        lemma_none_meant(s, 0, b);
    }
    if b.wait is EffectResolved && forall|j: int|
        0 <= j < r.len() ==> !answers_branch(#[trigger] r[j], b) {
        lemma_no_answer(r, 0, b);
    }
}

/// The law of time: a branch that waits for a while runs, in its own context, when that time has
/// passed, and until then it waits on for what is left, with the same to do.
pub proof fn law_time_wakes(t: SkillTimer, delta: u128, b: BranchView)
    requires
        b.wait == WaitView::Delay(t),
        !t.finished,
    ensures
        t.elapsed + delta >= t.duration ==> woken(TriggerView::Time(delta), b) == WakeView::Run(
            b.ctx,
        ),
        t.elapsed + delta < t.duration ==> (woken(TriggerView::Time(delta), b) matches WakeView::Keep(
            c,
        ) && c.continuation == b.continuation && c.ctx == b.ctx && c.wait == WaitView::Delay(
            SkillTimer {
                duration: t.duration,
                elapsed: (t.elapsed + delta) as u128,
                finished: false,
            },
        )),
{
}

/// An execution after a trigger.
pub open spec fn after_trigger(
    t: TriggerView,
    branches: Seq<BranchView>,
    entity: u64,
    a: ActiveView,
    env: EnvView,
) -> Result<AdvancedView, QuestionView> {
    advanced(t, branches, 0, Seq::empty(), Seq::empty(), entity, a, env)
}

/// The branches that are left of an execution that has not failed.
pub open spec fn still_waiting(e: EndView) -> Seq<BranchView> {
    match e {
        EndView::Stored(l) => l,
        _ => Seq::empty(),
    }
}

/// An execution ends, or waits on, with these branches.
pub open spec fn goes_on_with(e: EndView, l: Seq<BranchView>, a: ActiveView) -> bool {
    if l.len() > 0 {
        e == EndView::Stored(l)
    } else {
        e matches EndView::Finished(f) && f.skill == a.skill_id && f.execution_id == a.execution_id
            && f.caster == a.caster && f.target == a.target
    }
}

proof fn lemma_gathered(
    t: TriggerView,
    l: Seq<BranchView>,
    k: int,
    next: Seq<BranchView>,
    outs: Seq<crate::branch::OutputView>,
    entity: u64,
    a: ActiveView,
    env: EnvView,
)
    requires
        0 <= k,
    ensures
        ({
            let x = advanced(t, l, k, next, outs, entity, a, env);
            match advanced(t, l, k, Seq::empty(), Seq::empty(), entity, a, env) {
                Err(q) => x == Err::<AdvancedView, QuestionView>(q),
                Ok(y) => x == Ok::<AdvancedView, QuestionView>(
                    AdvancedView {
                        outputs: outs + y.outputs,
                        end: if y.end is Failed {
                            y.end
                        } else {
                            left_with(next + still_waiting(y.end), a)
                        },
                    },
                ),
            }
        }),
    decreases l.len() - k,
{
    let none = Seq::<BranchView>::empty();
    let nothing = Seq::<crate::branch::OutputView>::empty();
    if k < l.len() {
        match woken(t, l[k]) {
            WakeView::Keep(b) => {
                lemma_gathered(t, l, k + 1, next.push(b), outs, entity, a, env);
                lemma_gathered(t, l, k + 1, none.push(b), nothing, entity, a, env);
                match advanced(t, l, k + 1, none, nothing, entity, a, env) {
                    Ok(y) => {
                        let w = still_waiting(y.end);
                        assert(next.push(b) + w =~= next + (none.push(b) + w));
                        assert(nothing + y.outputs =~= y.outputs);
                        assert(none.push(b) + w =~= seq![b] + w);
                        assert((none.push(b) + w).len() > 0);
                    },
                    Err(_) => {},
                }
            },
            WakeView::Run(ctx) => {
                match run_of(l[k].continuation, ctx, env).out {
                    Ok(o) => {
                        lemma_gathered(
                            t,
                            l,
                            k + 1,
                            next + o.branches,
                            outs.push(o),
                            entity,
                            a,
                            env,
                        );
                        lemma_gathered(
                            t,
                            l,
                            k + 1,
                            none + o.branches,
                            nothing.push(o),
                            entity,
                            a,
                            env,
                        );
                        match advanced(t, l, k + 1, none, nothing, entity, a, env) {
                            Ok(y) => {
                                let w = still_waiting(y.end);
                                let own = (none + o.branches) + w;
                                assert((next + o.branches) + w =~= next + own);
                                assert(outs.push(o) + y.outputs =~= outs + (nothing.push(o)
                                    + y.outputs));
                                if own.len() == 0 {
                                    assert(own =~= none);
                                }
                            },
                            Err(_) => {},
                        }
                    },
                    Err(e) => {
                        assert(outs + nothing =~= outs);
                    },
                }
            },
        }
    } else {
        assert(outs + nothing =~= outs);
        assert(next + none =~= next);
    }
}

proof fn lemma_behind(
    t: TriggerView,
    x: Seq<BranchView>,
    y: Seq<BranchView>,
    k: int,
    next: Seq<BranchView>,
    outs: Seq<crate::branch::OutputView>,
    entity: u64,
    a: ActiveView,
    env: EnvView,
)
    requires
        0 <= k,
    ensures
        advanced(t, x + y, x.len() + k, next, outs, entity, a, env) == advanced(
            t,
            y,
            k,
            next,
            outs,
            entity,
            a,
            env,
        ),
    decreases y.len() - k,
{
    if k < y.len() {
        assert((x + y)[x.len() + k] == y[k]);
        match woken(t, y[k]) {
            WakeView::Keep(b) => {
                lemma_behind(t, x, y, k + 1, next.push(b), outs, entity, a, env);
            },
            WakeView::Run(ctx) => {
                match run_of(y[k].continuation, ctx, env).out {
                    Ok(o) => {
                        lemma_behind(
                            t,
                            x,
                            y,
                            k + 1,
                            next + o.branches,
                            outs.push(o),
                            entity,
                            a,
                            env,
                        );
                    },
                    Err(_) => {},
                }
            },
        }
    }
}

proof fn lemma_one_by_one(
    t: TriggerView,
    x: Seq<BranchView>,
    y: Seq<BranchView>,
    k: int,
    next: Seq<BranchView>,
    outs: Seq<crate::branch::OutputView>,
    entity: u64,
    a: ActiveView,
    env: EnvView,
)
    requires
        0 <= k <= x.len(),
    ensures
        ({
            let w = advanced(t, x + y, k, next, outs, entity, a, env);
            match advanced(t, x, k, next, outs, entity, a, env) {
                Err(q) => w == Err::<AdvancedView, QuestionView>(q),
                Ok(p) => if p.end is Failed {
                    w == Ok::<AdvancedView, QuestionView>(p)
                } else {
                    w == advanced(
                        t,
                        y,
                        0,
                        still_waiting(p.end),
                        p.outputs,
                        entity,
                        a,
                        env,
                    )
                },
            }
        }),
    decreases x.len() - k,
{
    if k < x.len() {
        assert((x + y)[k] == x[k]);
        match woken(t, x[k]) {
            WakeView::Keep(b) => {
                lemma_one_by_one(t, x, y, k + 1, next.push(b), outs, entity, a, env);
            },
            WakeView::Run(ctx) => {
                match run_of(x[k].continuation, ctx, env).out {
                    Ok(o) => {
                        lemma_one_by_one(
                            t,
                            x,
                            y,
                            k + 1,
                            next + o.branches,
                            outs.push(o),
                            entity,
                            a,
                            env,
                        );
                    },
                    Err(_) => {},
                }
            },
        }
    } else {
        lemma_behind(t, x, y, 0, next, outs, entity, a, env);
        if next.len() == 0 {
            assert(next =~= Seq::empty());
        }
    }
}

/// The law of executions: the branches of an execution are seen to one after another; what they hand
/// out and what is left of them is kept in order, and a failure ends the execution at once.
pub proof fn law_branches_are_seen_to_in_order(
    t: TriggerView,
    x: Seq<BranchView>,
    y: Seq<BranchView>,
    entity: u64,
    a: ActiveView,
    env: EnvView,
)
    ensures
        ({
            let w = after_trigger(t, x + y, entity, a, env);
            match after_trigger(t, x, entity, a, env) {
                Err(q) => w == Err::<AdvancedView, QuestionView>(q),
                Ok(p) => if p.end is Failed {
                    w == Ok::<AdvancedView, QuestionView>(p)
                } else {
                    match after_trigger(t, y, entity, a, env) {
                        Err(q) => w == Err::<AdvancedView, QuestionView>(q),
                        Ok(r) => {
                            &&& w matches Ok(z)
                            &&& z.outputs == p.outputs + r.outputs
                            &&& r.end is Failed ==> z.end == r.end
                            &&& !(r.end is Failed) ==> goes_on_with(
                                z.end,
                                still_waiting(p.end) + still_waiting(r.end),
                                a,
                            )
                        },
                    }
                },
            }
        }),
{
    lemma_one_by_one(t, x, y, 0, Seq::empty(), Seq::empty(), entity, a, env);
    match after_trigger(t, x, entity, a, env) {
        Ok(p) => {
            if !(p.end is Failed) {
                lemma_gathered(
                    t,
                    y,
                    0,
                    still_waiting(p.end),
                    p.outputs,
                    entity,
                    a,
                    env,
                );
            }
        },
        Err(_) => {},
    }
}

/// The law of executions: a branch that goes on waiting hands out nothing; one that runs does what
/// it has to do in the context in which it was woken, and is replaced by the branches that come of
/// it; an execution without branches is finished, and a failure says which execution has failed.
pub proof fn law_one_branch_alone(
    t: TriggerView,
    b: BranchView,
    entity: u64,
    a: ActiveView,
    env: EnvView,
)
    ensures
        after_trigger(t, Seq::empty(), entity, a, env) matches Ok(z) && z.outputs.len() == 0
            && goes_on_with(z.end, Seq::empty(), a),
        woken(t, b) matches WakeView::Keep(c) ==> (after_trigger(t, seq![b], entity, a, env)
            matches Ok(z) && z.outputs.len() == 0 && z.end == EndView::Stored(seq![c])),
        woken(t, b) matches WakeView::Run(ctx) ==> match run_of(b.continuation, ctx, env).out {
            Ok(o) => after_trigger(t, seq![b], entity, a, env) matches Ok(z) && z.outputs == seq![o]
                && goes_on_with(z.end, o.branches, a),
            Err(ErrorView::Unanswered(q)) => after_trigger(t, seq![b], entity, a, env) == Err::<
                AdvancedView,
                QuestionView,
            >(q),
            Err(e) => after_trigger(t, seq![b], entity, a, env) matches Ok(z) && z.outputs.len() == 0
                && (z.end matches EndView::Failed(f) && f.skill == Some(a.skill_id)
                && f.execution_id == Some(a.execution_id) && f.skill_entity == Some(entity)
                && f.error == e),
        },
{
    let l = seq![b];
    let none = Seq::<BranchView>::empty();
    let nothing = Seq::<crate::branch::OutputView>::empty();
    assert(l[0] == b);
    match woken(t, b) {
        WakeView::Keep(c) => {
            assert(none.push(c) =~= seq![c]);
            assert(advanced(t, l, 1, none.push(c), nothing, entity, a, env) == Ok::<
                AdvancedView,
                QuestionView,
            >(AdvancedView { outputs: nothing, end: left_with(none.push(c), a) }));
        },
        WakeView::Run(ctx) => {
            match run_of(b.continuation, ctx, env).out {
                Ok(o) => {
                    assert(nothing.push(o) =~= seq![o]);
                    assert(none + o.branches =~= o.branches);
                    assert(advanced(t, l, 1, none + o.branches, nothing.push(o), entity, a, env)
                        == Ok::<AdvancedView, QuestionView>(
                        AdvancedView {
                            outputs: nothing.push(o),
                            end: left_with(none + o.branches, a),
                        },
                    ));
                },
                Err(_) => {},
            }
        },
    }
}

} // verus!
