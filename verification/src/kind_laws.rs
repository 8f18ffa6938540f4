//! What each kind of node does when it runs.
use crate::action::{no_action_output, ActionSlot, InputView};
use crate::branch::{no_output, FrameView, OutputView, WaitView};
use crate::context::ContextView;
use crate::error::{ErrorView, ExecutionErrorView, MessageView};
use crate::execute::{
    all_put, frame_run, frames_run, node_frames, node_run, repeat_frames, role_of, EnvView,
};
use crate::expr::{expr_value, resolved_args};
use crate::frame_laws::{has_more_to_do, law_frames_run_in_order, run_of, side_by_side};
use crate::meaning_laws::{counts_as_false, law_truth};
use crate::node::{
    payload_table, record_of, slot_children, slot_payloads, ComponentsView, EmitView, ExtensionView,
    RepeatView, RoleView, SetVarView,
};
use crate::number::SkillNumber;
use crate::table::{
    distinct, has_key, key_index, law_put_then_lookup, law_take_out_then_lookup, lemma_distinct,
    lemma_found, lookup, put,
};
use crate::value::{ArgsView, ValueView};
use vstd::prelude::*;

verus! {

/// The node has these components.
pub open spec fn made_of(env: EnvView, node: u64, c: ComponentsView) -> bool {
    record_of(env.nodes, node) matches Some(r) && r.components == c
}

/// None of the components.
pub open spec fn bare() -> ComponentsView {
    ComponentsView {
        sequence: false,
        parallel: false,
        delay: None,
        repeat: None,
        if_node: None,
        set_var: None,
        wait_event: None,
        emit: None,
        with_context: false,
        extension: None,
    }
}

/// The context, one step further.
pub open spec fn step_taken(ctx: ContextView) -> ContextView {
    ContextView { step_budget_remaining: (ctx.step_budget_remaining - 1) as u32, ..ctx }
}

/// Each frame runs the node of the same place.
pub open spec fn frames_for(frames: Seq<FrameView>, nodes: Seq<u64>) -> bool {
    frames.len() == nodes.len() && forall|i: int|
        0 <= i < nodes.len() ==> #[trigger] frames[i] == FrameView::Node(nodes[i])
}

/// Nothing but one branch.
pub open spec fn only_a_branch(o: OutputView) -> bool {
    &&& o.branches.len() == 1
    &&& o.intents.len() == 0
    &&& o.signals.len() == 0
    &&& o.effect_requests.len() == 0
    &&& o.effect_resolved.len() == 0
    &&& o.effects.len() == 0
}

/// A branch waits for a while that has just begun, and then runs a node.
pub open spec fn waits_then_runs(o: OutputView, span: u128, node: u64, ctx: ContextView) -> bool {
    &&& only_a_branch(o)
    &&& o.branches[0].wait matches WaitView::Delay(t) && t.duration == span && t.elapsed == 0
        && !t.finished
    &&& o.branches[0].continuation.len() == 1
    &&& o.branches[0].continuation[0] == FrameView::Node(node)
    &&& o.branches[0].ctx == ctx
}

/// A number of seconds that is known to last for a while.
pub open spec fn lasts(e: Seq<char>, ctx: ContextView, env: EnvView, x: SkillNumber, span: u128) -> bool {
    expr_value(e, ctx, env.numbers) == Ok::<ValueView, ErrorView>(ValueView::Number(x))
        && env.numbers.spans.contains_pair(x, span)
}

/// The law of sequences: a sequence runs its items one after another, in order.
pub proof fn law_sequence(node: u64, frames: Seq<FrameView>, ctx: ContextView, env: EnvView)
    requires
        ctx.step_budget_remaining > 0,
        made_of(env, node, ComponentsView { sequence: true, ..bare() }),
        frames_for(frames, slot_children(env.nodes, node, "items"@)),
    ensures
        node_run(node, ctx, env) == run_of(frames, step_taken(ctx), env),
{
    assert(role_of(env.nodes, node) is Sequence);
    assert(node_frames(slot_children(env.nodes, node, "items"@)) =~= frames);
}

/// The law of parallels: a parallel runs all its branches.
pub proof fn law_parallel(node: u64, ctx: ContextView, env: EnvView)
    requires
        ctx.step_budget_remaining > 0,
        made_of(env, node, ComponentsView { parallel: true, ..bare() }),
    ensures
        node_run(node, ctx, env) == side_by_side(
            slot_children(env.nodes, node, "branches"@),
            step_taken(ctx),
            env,
        ),
{
    assert(role_of(env.nodes, node) is Parallel);
}

/// The law of delays: a delay runs nothing yet; it waits for its time and then runs its child.
pub proof fn law_delay(
    node: u64,
    seconds: Seq<char>,
    child: u64,
    x: SkillNumber,
    span: u128,
    ctx: ContextView,
    env: EnvView,
)
    requires
        ctx.step_budget_remaining > 0,
        made_of(env, node, ComponentsView { delay: Some(seconds), ..bare() }),
        slot_children(env.nodes, node, "then"@) == seq![child],
        lasts(seconds, step_taken(ctx), env, x, span),
    ensures
        node_run(node, ctx, env).ctx == step_taken(ctx),
        node_run(node, ctx, env).out matches Ok(o) && waits_then_runs(
            o,
            span,
            child,
            step_taken(ctx),
        ),
{
    assert(role_of(env.nodes, node) == RoleView::Delay(seconds));
}

/// The law of delays: a frame with a delay waits for its time and then runs its node; it costs no
/// step.
pub proof fn law_delayed_frame(
    seconds: Seq<char>,
    node: u64,
    x: SkillNumber,
    span: u128,
    ctx: ContextView,
    env: EnvView,
)
    requires
        lasts(seconds, ctx, env, x, span),
    ensures
        run_of(seq![FrameView::DelayThen { seconds, node }], ctx, env).ctx == ctx,
        run_of(seq![FrameView::DelayThen { seconds, node }], ctx, env).out matches Ok(o)
            && waits_then_runs(o, span, node, ctx),
{
    let f = seq![FrameView::DelayThen { seconds, node }];
    assert(f[0] == FrameView::DelayThen { seconds, node });
    let ran = frame_run(f[0], ctx, env);
    let rest = f.subrange(0int + 1, f.len() as int);
    assert(rest =~= Seq::empty());
    let o = ran.out->Ok_0;
    assert(o.branches.len() == 1);
    assert(o.branches[0].continuation + rest =~= o.branches[0].continuation);
    assert(frames_run(f, 0, no_output(), ctx, env) == crate::execute::done(
        crate::branch::both(no_output(), crate::execute::with_rest(o, rest)),
        ran.ctx,
    ));
}

/// How often a body is to run: once where nothing is said, and else the whole part of the number.
pub open spec fn runs_times(r: RepeatView, ctx: ContextView, env: EnvView, n: nat) -> bool {
    match r.times {
        None => n == 1,
        Some(e) => exists|x: SkillNumber, c: usize|
            expr_value(e, ctx, env.numbers) == Ok::<ValueView, ErrorView>(ValueView::Number(x))
                && #[trigger] env.numbers.counts.contains_pair(x, c) && c == n,
    }
}

/// The law of repetition: a body runs as often as it is to, one time after another, and where there
/// is an interval, it waits for it before each time.
pub proof fn law_repeat(
    node: u64,
    r: RepeatView,
    body: u64,
    times: nat,
    frames: Seq<FrameView>,
    ctx: ContextView,
    env: EnvView,
)
    requires
        ctx.step_budget_remaining > 0,
        made_of(env, node, ComponentsView { repeat: Some(r), ..bare() }),
        slot_children(env.nodes, node, "body"@) == seq![body],
        runs_times(r, step_taken(ctx), env, times),
        frames.len() == times,
        forall|i: int|
            0 <= i < times ==> #[trigger] frames[i] == match r.interval {
                None => FrameView::Node(body),
                Some(seconds) => FrameView::DelayThen { seconds, node: body },
            },
    ensures
        node_run(node, ctx, env) == run_of(frames, step_taken(ctx), env),
{
    assert(role_of(env.nodes, node) == RoleView::Repeat(r));
    assert(repeat_frames(times, r.interval, body) =~= frames);
}

/// The law of repetition: a body that is to run several times with an interval waits first, and then
/// has itself and all its further times still to do.
pub proof fn law_repeat_with_interval(
    node: u64,
    r: RepeatView,
    body: u64,
    times: nat,
    x: SkillNumber,
    span: u128,
    ctx: ContextView,
    env: EnvView,
)
    requires
        ctx.step_budget_remaining > 0,
        made_of(env, node, ComponentsView { repeat: Some(r), ..bare() }),
        slot_children(env.nodes, node, "body"@) == seq![body],
        runs_times(r, step_taken(ctx), env, times),
        times > 0,
        r.interval is Some,
        lasts(r.interval->0, step_taken(ctx), env, x, span),
    ensures
        node_run(node, ctx, env).out matches Ok(o) && {
            &&& only_a_branch(o)
            &&& o.branches[0].wait matches WaitView::Delay(t) && t.duration == span && t.elapsed
                == 0
            &&& o.branches[0].continuation.len() == times
            &&& o.branches[0].continuation[0] == FrameView::Node(body)
            &&& forall|i: int|
                1 <= i < times ==> #[trigger] o.branches[0].continuation[i]
                    == (FrameView::DelayThen { seconds: r.interval->0, node: body })
        },
{
    let c = step_taken(ctx);
    let f = FrameView::DelayThen { seconds: r.interval->0, node: body };
    let first = seq![f];
    let rest = Seq::new((times - 1) as nat, |i: int| f);
    let all = first + rest;
    law_repeat(node, r, body, times, all, ctx, env);
    law_delayed_frame(r.interval->0, body, x, span, c, env);
    law_frames_run_in_order(first, rest, c, env);
    let a = run_of(first, c, env).out->Ok_0;
    let w = run_of(all, c, env).out->Ok_0;
    assert(has_more_to_do(w.branches[0], a.branches[0], rest));
}

/// The law of conditions: a condition that counts as true runs what stands under `then`, and any
/// other what stands under `else`.
pub proof fn law_if(
    node: u64,
    condition: Seq<char>,
    v: ValueView,
    frames: Seq<FrameView>,
    ctx: ContextView,
    env: EnvView,
)
    requires
        ctx.step_budget_remaining > 0,
        made_of(env, node, ComponentsView { if_node: Some(condition), ..bare() }),
        expr_value(condition, step_taken(ctx), env.numbers) == Ok::<ValueView, ErrorView>(v),
        counts_as_false(v) ==> frames_for(frames, slot_children(env.nodes, node, "else"@)),
        !counts_as_false(v) ==> frames_for(frames, slot_children(env.nodes, node, "then"@)),
    ensures
        node_run(node, ctx, env) == run_of(frames, step_taken(ctx), env),
{
    law_truth(v);
    assert(role_of(env.nodes, node) == RoleView::If(condition));
    if counts_as_false(v) {
        assert(node_frames(slot_children(env.nodes, node, "else"@)) =~= frames);
    } else {
        assert(node_frames(slot_children(env.nodes, node, "then"@)) =~= frames);
    }
}

/// The law of contexts: a context node runs what stands under `then`.
pub proof fn law_with_context(node: u64, frames: Seq<FrameView>, ctx: ContextView, env: EnvView)
    requires
        ctx.step_budget_remaining > 0,
        made_of(env, node, ComponentsView { with_context: true, ..bare() }),
        frames_for(frames, slot_children(env.nodes, node, "then"@)),
    ensures
        node_run(node, ctx, env) == run_of(frames, step_taken(ctx), env),
{
    assert(role_of(env.nodes, node) is WithContext);
    assert(node_frames(slot_children(env.nodes, node, "then"@)) =~= frames);
}

/// The law of variables: the child runs with the variable set to the value as it is written, and
/// everything else as before; what comes out is what comes out of the child; afterwards the variable
/// is what it was, and the others are as the child leaves them.
pub proof fn law_let(
    node: u64,
    x: SetVarView,
    child: u64,
    inner: ContextView,
    ctx: ContextView,
    env: EnvView,
    other: Seq<char>,
)
    requires
        ctx.step_budget_remaining > 0,
        distinct(ctx.vars),
        made_of(env, node, ComponentsView { set_var: Some(x), ..bare() }),
        slot_children(env.nodes, node, "then"@) == seq![child],
        inner == (ContextView { vars: put(ctx.vars, x.name, x.value), ..step_taken(ctx) }),
        distinct(node_run(child, inner, env).ctx.vars),
    ensures
        lookup(inner.vars, x.name) == Some(x.value),
        other != x.name ==> lookup(inner.vars, other) == lookup(ctx.vars, other),
        node_run(node, ctx, env).out == node_run(child, inner, env).out,
        lookup(node_run(node, ctx, env).ctx.vars, x.name) == lookup(ctx.vars, x.name),
        other != x.name ==> lookup(node_run(node, ctx, env).ctx.vars, other) == lookup(
            node_run(child, inner, env).ctx.vars,
            other,
        ),
        node_run(node, ctx, env).ctx.step_budget_remaining == node_run(
            child,
            inner,
            env,
        ).ctx.step_budget_remaining,
{
    assert(role_of(env.nodes, node) == RoleView::SetVar(x));
    law_put_then_lookup(ctx.vars, x.name, x.value, other);
    let after = node_run(child, inner, env).ctx.vars;
    match lookup(ctx.vars, x.name) {
        Some(v) => law_put_then_lookup(after, x.name, v, other),
        None => law_take_out_then_lookup(after, x.name, other),
    }
}

/// The law of waiting: a wait runs nothing yet; it waits for its event and then runs its payloads,
/// in order.
pub proof fn law_on(node: u64, event: Seq<char>, ctx: ContextView, env: EnvView)
    requires
        ctx.step_budget_remaining > 0,
        made_of(env, node, ComponentsView { wait_event: Some(event), ..bare() }),
    ensures
        node_run(node, ctx, env).ctx == step_taken(ctx),
        node_run(node, ctx, env).out matches Ok(o) && {
            &&& only_a_branch(o)
            &&& o.branches[0].wait == WaitView::Signal(event)
            &&& frames_for(o.branches[0].continuation, slot_payloads(env.nodes, node, event))
            &&& o.branches[0].ctx == step_taken(ctx)
        },
{
    assert(role_of(env.nodes, node) == RoleView::WaitEvent(event));
}

/// The law of events: an event is raised once, with its payload worked out, for this execution, from
/// its caster and at its target.
pub proof fn law_emit(node: u64, x: EmitView, payload: ArgsView, ctx: ContextView, env: EnvView)
    requires
        ctx.step_budget_remaining > 0,
        made_of(env, node, ComponentsView { emit: Some(x), ..bare() }),
        resolved_args(x.payload, step_taken(ctx), env.numbers) == Ok::<ArgsView, ErrorView>(payload),
    ensures
        node_run(node, ctx, env).ctx == step_taken(ctx),
        node_run(node, ctx, env).out matches Ok(o) && {
            &&& o.signals.len() == 1
            &&& o.signals[0].name == x.event
            &&& o.signals[0].payload == payload
            &&& o.signals[0].execution_id == Some(ctx.execution_id)
            &&& o.signals[0].skill_entity == ctx.skill_entity
            &&& o.signals[0].caster == ctx.caster
            &&& o.signals[0].target == ctx.current_target
            &&& o.branches.len() == 0 && o.intents.len() == 0 && o.effect_requests.len() == 0
                && o.effect_resolved.len() == 0 && o.effects.len() == 0
        },
{
    assert(role_of(env.nodes, node) == RoleView::Emit(x));
}

proof fn lemma_all_put(vars: ArgsView, t: ArgsView, k: nat, key: Seq<char>)
    requires
        distinct(vars),
        distinct(t),
        k <= t.len(),
    ensures
        distinct(all_put(vars, t, k)),
        lookup(all_put(vars, t, k), key) == if has_key(t, key) && key_index(t, key) < k {
            lookup(t, key)
        } else {
            lookup(vars, key)
        },
    decreases k,
{
    if has_key(t, key) {
        let i = key_index(t, key);
        assert(0 <= i < t.len() && t[i].0 == key);
    }
    if k > 0 {
        let before = all_put(vars, t, (k - 1) as nat);
        lemma_all_put(vars, t, (k - 1) as nat, key);
        lemma_distinct(before, t[k - 1].0, t[k - 1].1);
        law_put_then_lookup(before, t[k - 1].0, t[k - 1].1, key);
        lemma_found(t, k - 1);
    }
}

/// The law of actions: an action that is registered gets its arguments worked out and its payloads;
/// all that it asks for is handed out, the variables that it sets are set, and each wait that it asks
/// for suspends a branch, in order, with nothing to do yet.
pub proof fn law_action(
    node: u64,
    x: ExtensionView,
    slot: ActionSlot,
    args: ArgsView,
    ctx: ContextView,
    env: EnvView,
    key: Seq<char>,
)
    requires
        ctx.step_budget_remaining > 0,
        distinct(ctx.vars),
        made_of(env, node, ComponentsView { extension: Some(x), ..bare() }),
        lookup(env.actions, x.constructor) == Some(slot),
        resolved_args(x.args, step_taken(ctx), env.numbers) == Ok::<ArgsView, ErrorView>(args),
    ensures
        ({
            let input = InputView { args, payloads: payload_table(env.nodes, node) };
            let ran = node_run(node, ctx, env);
            match slot.emits(step_taken(ctx), input, no_action_output(), env.numbers) {
                Err(e) => ran.out == Err::<OutputView, ErrorView>(e) && ran.ctx == step_taken(ctx),
                Ok(asked) => {
                    &&& ran.out matches Ok(o)
                    &&& o.intents == asked.intents
                    &&& o.effect_requests == asked.effect_requests
                    &&& o.effect_resolved == asked.effect_resolved
                    &&& o.effects == asked.effects
                    &&& o.signals.len() == 0
                    &&& o.branches.len() == asked.waits.len()
                    &&& forall|i: int|
                        0 <= i < o.branches.len() ==> (#[trigger] o.branches[i]).wait
                            == (WaitView::EffectResolved {
                            request_id: asked.waits[i]->request_id,
                        }) && o.branches[i].continuation.len() == 0 && o.branches[i].ctx == ran.ctx
                    &&& ran.ctx == ContextView { vars: ran.ctx.vars, ..step_taken(ctx) }
                    &&& distinct(asked.vars) ==> lookup(ran.ctx.vars, key) == if has_key(
                        asked.vars,
                        key,
                    ) {
                        lookup(asked.vars, key)
                    } else {
                        lookup(ctx.vars, key)
                    }
                },
            }
        }),
{
    assert(role_of(env.nodes, node) == RoleView::Extension(x));
    let input = InputView { args, payloads: payload_table(env.nodes, node) };
    match slot.emits(step_taken(ctx), input, no_action_output(), env.numbers) {
        Ok(asked) => {
            if distinct(asked.vars) {
                lemma_all_put(ctx.vars, asked.vars, asked.vars.len(), key);
                if has_key(asked.vars, key) {
                    let i = key_index(asked.vars, key);
                    assert(0 <= i < asked.vars.len() && asked.vars[i].0 == key);
                }
            }
        },
        Err(_) => {},
    }
}

/// The law of faults: a node fails if its action is not registered, if it has none of the
/// components, or if no steps are left; and a delay, a repetition or a variable without exactly one
/// child fails.
pub proof fn law_faults(node: u64, ctx: ContextView, env: EnvView)
    ensures
        ctx.step_budget_remaining == 0 ==> node_run(node, ctx, env).out == Err::<
            OutputView,
            ErrorView,
        >(
            ErrorView::Runtime(
                MessageView::Execution(
                    ExecutionErrorView::StepBudgetExhausted { steps: ctx.step_budget },
                ),
            ),
        ) && node_run(node, ctx, env).ctx == ctx,
        ctx.step_budget_remaining > 0 && (record_of(env.nodes, node) is None || made_of(
            env,
            node,
            bare(),
        )) ==> node_run(node, ctx, env).out == Err::<OutputView, ErrorView>(
            ErrorView::Runtime(MessageView::NoComponent { node }),
        ),
        ctx.step_budget_remaining > 0 && record_of(env.nodes, node) is Some && ({
            let c = record_of(env.nodes, node)->0.components;
            c.extension is Some && c == (ComponentsView { extension: c.extension, ..bare() })
                && lookup(env.actions, c.extension->0.constructor) is None
        }) ==> node_run(node, ctx, env).out == Err::<OutputView, ErrorView>(
            ErrorView::UnknownAction(
                record_of(env.nodes, node)->0.components.extension->0.constructor,
            ),
        ),
        ctx.step_budget_remaining > 0 && record_of(env.nodes, node) is Some && ({
            let c = record_of(env.nodes, node)->0.components;
            c.set_var is Some && c == (ComponentsView { set_var: c.set_var, ..bare() })
                && slot_children(env.nodes, node, "then"@).len() != 1
        }) ==> node_run(node, ctx, env).out is Err,
        ctx.step_budget_remaining > 0 && record_of(env.nodes, node) is Some && ({
            let c = record_of(env.nodes, node)->0.components;
            c.delay is Some && c == (ComponentsView { delay: c.delay, ..bare() })
                && slot_children(env.nodes, node, "then"@).len() != 1
        }) ==> node_run(node, ctx, env).out is Err,
        ctx.step_budget_remaining > 0 && record_of(env.nodes, node) is Some && ({
            let c = record_of(env.nodes, node)->0.components;
            c.repeat is Some && c == (ComponentsView { repeat: c.repeat, ..bare() })
                && slot_children(env.nodes, node, "body"@).len() != 1
        }) ==> node_run(node, ctx, env).out is Err,
{
}

} // verus!
