//! What holds of signals, settlements and timers between the runtime and a game.
use crate::action::{
    settled, ActionOutputView, InputView, RequestView, ResolvedView, SkillAction, SkillActionWait,
};
use crate::branch::{ticked, BranchView, SkillTimer};
use crate::context::{ContextView, SignalView};
use crate::execute::{action_outcome, EnvView};
use crate::gameplay::{arg_number, hit_signal, mode_of, one_arg, DamageAction, ProjectileHit};
use crate::number::{num_zero, NumbersView, SkillNumber};
use crate::resume::{
    advanced, first_settlement, first_signal, left_with, signal_matches, woken, ActiveView,
    AdvancedView, EndView, TriggerView, WakeView,
};
use crate::table::{distinct, law_put_then_lookup, lookup};
use crate::value::{ArgsView, ValueView};
use vstd::prelude::*;

verus! {

/// A law of timers: time that passes in two parts passes as in one.
pub proof fn law_time_adds_up(t: SkillTimer, a: u128, b: u128)
    requires
        a + b <= u128::MAX,
    ensures
        ticked(ticked(t, a), b) == ticked(t, (a + b) as u128),
{
}

/// A law of timers: a timer that was just started runs out exactly when its time has passed.
pub proof fn law_fresh_timer_runs_out(duration: u128, delta: u128)
    ensures
        ticked(crate::branch::fresh_timer(duration), delta).finished <==> delta >= duration,
{
}

/// A branch waits for another kind of trigger.
pub open spec fn waits_for_other(t: TriggerView, b: BranchView) -> bool {
    match t {
        TriggerView::Time(_) => !(b.wait is Delay),
        TriggerView::Signals(_) => !(b.wait is Signal),
        TriggerView::Settled(_) => !(b.wait is EffectResolved),
    }
}

/// A law of waiting: a branch that waits for another kind of trigger goes on waiting.
pub proof fn law_other_triggers_do_nothing(t: TriggerView, b: BranchView)
    requires
        waits_for_other(t, b),
    ensures
        woken(t, b) == WakeView::Keep(b),
{
}

proof fn lemma_first_signal(l: Seq<SignalView>, k: int, name: Seq<char>, ctx: ContextView)
    requires
        0 <= k,
    ensures
        first_signal(l, k, name, ctx) matches Some(s) ==> signal_matches(s, name, ctx)
            && l.contains(s),
        (exists|i: int| k <= i < l.len() && signal_matches(#[trigger] l[i], name, ctx)) <==> first_signal(
            l,
            k,
            name,
            ctx,
        ) is Some,
    decreases l.len() - k,
{
    if k < l.len() {
        lemma_first_signal(l, k + 1, name, ctx);
        if signal_matches(l[k], name, ctx) {
            assert(l.contains(l[k]));
        }
    }
}

/// The law of signals: a branch that waits for a signal runs if and only if one of the signals is
/// meant for it, by name, execution and entity.
pub proof fn law_signals_wake_their_branches(l: Seq<SignalView>, b: BranchView)
    requires
        b.wait is Signal,
    ensures
        woken(TriggerView::Signals(l), b) is Run <==> exists|i: int|
            0 <= i < l.len() && signal_matches(#[trigger] l[i], b.wait->Signal_0, b.ctx),
        woken(TriggerView::Signals(l), b) matches WakeView::Run(ctx) ==> ctx.source_event is Some
            && l.contains(ctx.source_event->0) && signal_matches(
            ctx.source_event->0,
            b.wait->Signal_0,
            b.ctx,
        ),
{
    lemma_first_signal(l, 0, b.wait->Signal_0, b.ctx);
}

proof fn lemma_first_settlement(l: Seq<ResolvedView>, k: int, request_id: u64, execution_id: u64)
    requires
        0 <= k,
    ensures
        (exists|i: int|
            k <= i < l.len() && (#[trigger] l[i]).execution_id == execution_id && l[i].request_id
                == request_id) <==> first_settlement(l, k, request_id, execution_id) is Some,
    decreases l.len() - k,
{
    if k < l.len() {
        lemma_first_settlement(l, k + 1, request_id, execution_id);
    }
}

/// The law of settlements: a branch that waits for a settlement runs if and only if its request of
/// its execution is settled.
pub proof fn law_settlements_wake_their_branches(l: Seq<ResolvedView>, b: BranchView)
    requires
        b.wait is EffectResolved,
    ensures
        woken(TriggerView::Settled(l), b) is Run <==> exists|i: int|
            0 <= i < l.len() && (#[trigger] l[i]).execution_id == b.ctx.execution_id
                && l[i].request_id == b.wait->request_id,
{
    lemma_first_settlement(l, 0, b.wait->request_id, b.ctx.execution_id);
}

proof fn lemma_all_kept(
    t: TriggerView,
    branches: Seq<BranchView>,
    k: int,
    entity: u64,
    a: ActiveView,
    env: EnvView,
)
    requires
        0 <= k <= branches.len(),
        forall|i: int|
            0 <= i < branches.len() ==> woken(t, #[trigger] branches[i]) == WakeView::Keep(
                branches[i],
            ),
    ensures
        advanced(
            t,
            branches,
            k,
            branches.subrange(0, k),
            Seq::empty(),
            entity,
            a,
            env,
        ) == Ok::<AdvancedView, crate::number::QuestionView>(
            AdvancedView { outputs: Seq::empty(), end: left_with(branches, a) },
        ),
    decreases branches.len() - k,
{
    if k < branches.len() {
        assert(woken(t, branches[k]) == WakeView::Keep(branches[k]));
        assert(branches.subrange(0, k).push(branches[k]) =~= branches.subrange(0, k + 1));
        lemma_all_kept(t, branches, k + 1, entity, a, env);
    } else {
        assert(branches.subrange(0, k) =~= branches);
    }
}

/// The law of rest: a trigger that concerns none of the branches of an execution changes nothing.
pub proof fn law_unconcerned_execution_rests(
    t: TriggerView,
    branches: Seq<BranchView>,
    entity: u64,
    a: ActiveView,
    env: EnvView,
)
    requires
        branches.len() > 0,
        forall|i: int|
            0 <= i < branches.len() ==> woken(t, #[trigger] branches[i]) == WakeView::Keep(
                branches[i],
            ),
    ensures
        advanced(t, branches, 0, Seq::empty(), Seq::empty(), entity, a, env) == Ok::<
            AdvancedView,
            crate::number::QuestionView,
        >(AdvancedView { outputs: Seq::empty(), end: EndView::Stored(branches) }),
{
    assert(branches.subrange(0, 0) =~= Seq::empty());
    lemma_all_kept(t, branches, 0, entity, a, env);
}

/// What damage comes to where nothing is in its way.
pub open spec fn damage_done(
    ctx: ContextView,
    input: InputView,
    out: ActionOutputView,
    n: NumbersView,
) -> bool {
    ctx.skill_entity is Some && ctx.caster is Some && ctx.current_target is Some && arg_number(
        input.args,
        "amount"@,
        n,
    ) is Ok && mode_of(input.args, n) is Ok
}

/// The amount of damage.
pub open spec fn damage_amount(args: ArgsView, n: NumbersView) -> SkillNumber {
    match arg_number(args, "amount"@, n) {
        Ok(Some(x)) => x,
        _ => num_zero(),
    }
}

/// The law of damage: damage at a target makes exactly one request, with its amount. Settled at
/// once it is answered by exactly one settlement of that request, and its amount can be read from
/// `last_damage_amount`; settled later on request it makes nothing wait; awaited it makes its branch
/// wait for that request.
pub proof fn law_damage_settlement(
    ctx: ContextView,
    input: InputView,
    out: ActionOutputView,
    n: NumbersView,
)
    requires
        distinct(out.vars),
        damage_done(ctx, input, out, n),
    ensures
        ({
            let amount = damage_amount(input.args, n);
            let mode = mode_of(input.args, n)->Ok_0;
            let q = RequestView {
                request_id: crate::action::request_number(
                    ctx,
                    out.effect_requests.len() as u64,
                ),
                execution_id: ctx.execution_id,
                source: ctx.caster,
                target: ctx.current_target,
                kind: "damage"@,
                payload: one_arg("amount"@, ValueView::Number(amount)),
                mode,
            };
            &&& DamageAction.emits(ctx, input, out, n) is Ok
            &&& ({
                let o = DamageAction.emits(ctx, input, out, n)->Ok_0;
                &&& o.effect_requests == out.effect_requests.push(q)
                &&& mode is Sync ==> o.effect_resolved == out.effect_resolved.push(settled(q))
                    && o.waits == out.waits && lookup(o.vars, "last_damage_amount"@) == Some(
                    ValueView::Number(amount),
                )
                &&& mode is Request ==> o.effect_resolved == out.effect_resolved && o.waits
                    == out.waits && o.vars == out.vars
                &&& mode is Await ==> o.effect_resolved == out.effect_resolved && o.waits
                    == out.waits.push(
                    SkillActionWait::EffectResolved { request_id: q.request_id },
                ) && o.vars == out.vars
            })
        }),
{
    let amount = damage_amount(input.args, n);
    law_put_then_lookup(
        out.vars,
        "last_damage_amount"@,
        ValueView::Number(amount),
        "last_damage_amount"@,
    );
}

/// The law of awaiting: an action that waits for a settlement suspends its branch, and the
/// settlement of that request wakes it, with the settlement as its event.
pub proof fn law_awaited_settlement_resumes(o: ActionOutputView, ctx: ContextView, i: int, r: ResolvedView)
    requires
        0 <= i < o.waits.len(),
        r.request_id == o.waits[i]->request_id,
        r.execution_id == ctx.execution_id,
    ensures
        ({
            let ran = action_outcome(o, ctx);
            let branch = ran.out->Ok_0.branches[i];
            &&& ran.out is Ok
            &&& ran.out->Ok_0.branches.len() == o.waits.len()
            &&& woken(TriggerView::Settled(seq![r]), branch) == WakeView::Run(
                ContextView {
                    source_event: Some(crate::resume::settlement_signal(r)),
                    ..branch.ctx
                },
            )
        }),
{
    let branch = action_outcome(o, ctx).out->Ok_0.branches[i];
    assert(first_settlement(seq![r], 0, branch.wait->request_id, branch.ctx.execution_id) == Some(
        r,
    ));
}

/// The law of hits: a hit wakes the branches of its execution that wait for `hit` or for
/// `projectile_hit`, and no branch of another execution.
pub proof fn law_hits_wake_their_execution(hit: ProjectileHit, name: Seq<char>, ctx: ContextView)
    ensures
        signal_matches(hit_signal(hit, name), name, ctx) <==> ctx.execution_id
            == hit.execution_id,
{
}

} // verus!
