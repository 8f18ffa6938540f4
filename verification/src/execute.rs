//! Running skill nodes.
use crate::action::{
    no_action_output, ActionOutputView, InputView, SkillActionInput, SkillActionOutput,
    SkillActionRegistry, SkillActionWait,
};
use crate::branch::{
    both, branches_view, copy_frames, frames_view, fresh_timer, no_output, one_branch, one_signal,
    BranchView, ExecutionOutput, FrameView, OutputView, SkillBranch, SkillContinuation, SkillTimer,
    SkillWait, WaitView,
};
use crate::compile::Actions;
use crate::context::{ContextView, SignalView, SkillContext, SkillRuntimeSignal};
use crate::error::{
    ErrorView, ExecutionErrorView, MessageView, SkillError, SkillExecutionError, SkillMessage,
};
use crate::expr::{
    eval_skill_expr, expr_value, is_truthy, resolve_args, resolved_args, truthy,
};
use crate::node::{
    node_children, node_payload_map, node_payloads, only_child, payload_table, record_of,
    single_child, slot_children, slot_payloads, ExtensionView, RecordView, RoleView,
    SkillExtension, SkillNodeQueries,
};
use crate::number::{ask_count, ask_span, NumberTable, NumbersView, SkillNumber};
use crate::table::{lookup, put, take_out};
use crate::value::{
    arg, args_view, copy_value, drop_arg, expr_view, set_arg, ArgsView, SkillArgs, SkillExpr,
    SkillValue, ValueView,
};
use vstd::prelude::*;

verus! {

/// What a running skill can look at.
pub struct EnvView {
    pub actions: Actions,
    pub nodes: Seq<RecordView>,
    pub numbers: NumbersView,
}

/// What a running skill can look at.
pub open spec fn env(
    registry: SkillActionRegistry,
    nodes: SkillNodeQueries,
    numbers: NumberTable,
) -> EnvView {
    EnvView { actions: registry@, nodes: nodes@, numbers: numbers@ }
}

/// The outcome of a run, and the context that it leaves, which counts after a failure too.
pub struct RanView {
    pub out: Result<OutputView, ErrorView>,
    pub ctx: ContextView,
}

pub open spec fn stopped(e: ErrorView, ctx: ContextView) -> RanView {
    RanView { out: Err(e), ctx }
}

pub open spec fn done(o: OutputView, ctx: ContextView) -> RanView {
    RanView { out: Ok(o), ctx }
}

/// The context with one step less to go.
pub open spec fn spent(ctx: ContextView) -> ContextView {
    ContextView { step_budget_remaining: (ctx.step_budget_remaining - 1) as u32, ..ctx }
}

/// The error of an execution that has used up its steps.
pub open spec fn budget_error(ctx: ContextView) -> ErrorView {
    ErrorView::Runtime(
        MessageView::Execution(
            ExecutionErrorView::StepBudgetExhausted { steps: ctx.step_budget },
        ),
    )
}

/// The number that an expression has as its value.
pub open spec fn expr_number(e: Seq<char>, ctx: ContextView, n: NumbersView) -> Result<
    SkillNumber,
    ErrorView,
> {
    match expr_value(e, ctx, n) {
        Ok(ValueView::Number(x)) => Ok(x),
        Ok(v) => Err(ErrorView::Runtime(MessageView::ExpectedNumber(v))),
        Err(e) => Err(e),
    }
}

/// The timer for a number of seconds.
pub open spec fn timer_for(seconds: SkillNumber, n: NumbersView) -> Result<SkillTimer, ErrorView> {
    match ask_span(n, seconds) {
        Ok(d) => Ok(fresh_timer(d)),
        Err(q) => Err(ErrorView::Unanswered(q)),
    }
}

/// How often a body is run.
pub open spec fn repeat_times(times: Option<Seq<char>>, ctx: ContextView, n: NumbersView) -> Result<
    nat,
    ErrorView,
> {
    match times {
        None => Ok(1),
        Some(e) => match expr_number(e, ctx, n) {
            Ok(x) => match ask_count(n, x) {
                Ok(c) => Ok(c as nat),
                Err(q) => Err(ErrorView::Unanswered(q)),
            },
            Err(e) => Err(e),
        },
    }
}

/// The frames of a repeated body: each waits for the interval first, where there is one.
pub open spec fn repeat_frames(times: nat, interval: Option<Seq<char>>, body: u64) -> Seq<
    FrameView,
> {
    Seq::new(
        times,
        |i: int|
            match interval {
                Some(seconds) => FrameView::DelayThen { seconds, node: body },
                None => FrameView::Node(body),
            },
    )
}

/// The frames that run nodes one after another.
pub open spec fn node_frames(l: Seq<u64>) -> Seq<FrameView> {
    Seq::new(l.len(), |i: int| FrameView::Node(l[i]))
}

/// A branch that runs a node after a while.
pub open spec fn delayed(timer: SkillTimer, node: u64, ctx: ContextView) -> BranchView {
    BranchView {
        wait: WaitView::Delay(timer),
        continuation: seq![FrameView::Node(node)],
        ctx,
    }
}

/// The outcome with more to do at the end of each branch.
pub open spec fn with_rest(o: OutputView, rest: Seq<FrameView>) -> OutputView {
    OutputView {
        branches: Seq::new(
            o.branches.len(),
            |i: int|
                BranchView {
                    continuation: o.branches[i].continuation + rest,
                    ..o.branches[i]
                },
        ),
        ..o
    }
}

/// The variables with the first `k` of others set.
pub open spec fn all_put(vars: ArgsView, t: ArgsView, k: nat) -> ArgsView
    decreases k,
{
    if 0 < k <= t.len() {
        put(all_put(vars, t, (k - 1) as nat), t[k - 1].0, t[k - 1].1)
    } else {
        vars
    }
}

/// The variables with one set back to what it was.
pub open spec fn restored(vars: ArgsView, name: Seq<char>, previous: Option<ValueView>) -> ArgsView {
    match previous {
        Some(v) => put(vars, name, v),
        None => take_out(vars, name),
    }
}

/// What a node does.
pub open spec fn role_of(s: Seq<RecordView>, e: u64) -> RoleView {
    match record_of(s, e) {
        Some(r) => r.role(),
        None => RoleView::Nothing,
    }
}

/// The signal that a node raises.
pub open spec fn raised(event: Seq<char>, payload: ArgsView, ctx: ContextView) -> SignalView {
    SignalView {
        name: event,
        payload,
        execution_id: Some(ctx.execution_id),
        skill_entity: ctx.skill_entity,
        caster: ctx.caster,
        target: ctx.current_target,
    }
}

/// What comes of what an action has asked for.
pub open spec fn action_outcome(o: ActionOutputView, ctx: ContextView) -> RanView {
    let after = ContextView { vars: all_put(ctx.vars, o.vars, o.vars.len()), ..ctx };
    done(
        OutputView {
            branches: Seq::new(
                o.waits.len(),
                |i: int|
                    BranchView {
                        wait: WaitView::EffectResolved { request_id: o.waits[i]->request_id },
                        continuation: Seq::empty(),
                        ctx: after,
                    },
            ),
            intents: o.intents,
            signals: Seq::empty(),
            effect_requests: o.effect_requests,
            effect_resolved: o.effect_resolved,
            effects: o.effects,
        },
        after,
    )
}

/// The run of an action.
pub open spec fn action_run(node: u64, x: ExtensionView, ctx: ContextView, env: EnvView) -> RanView {
    match lookup(env.actions, x.constructor) {
        None => stopped(ErrorView::UnknownAction(x.constructor), ctx),
        Some(slot) => match resolved_args(x.args, ctx, env.numbers) {
            Err(e) => stopped(e, ctx),
            Ok(args) => match slot.emits(
                ctx,
                InputView { args, payloads: payload_table(env.nodes, node) },
                no_action_output(),
                env.numbers,
            ) {
                Err(e) => stopped(e, ctx),
                Ok(o) => action_outcome(o, ctx),
            },
        },
    }
}

/// The run of a node. It costs a step.
pub open spec fn node_run(node: u64, start: ContextView, env: EnvView) -> RanView
    decreases start.step_budget_remaining, 0nat,
{
    if start.step_budget_remaining == 0 {
        stopped(budget_error(start), start)
    } else {
        let ctx = spent(start);
        match role_of(env.nodes, node) {
            RoleView::Sequence => frames_run(
                node_frames(slot_children(env.nodes, node, "items"@)),
                0,
                no_output(),
                ctx,
                env,
            ),
            RoleView::Parallel => parallel_run(
                slot_children(env.nodes, node, "branches"@),
                0,
                no_output(),
                ctx,
                env,
            ),
            RoleView::Delay(seconds) => match expr_number(seconds, ctx, env.numbers) {
                Err(e) => stopped(e, ctx),
                Ok(x) => match only_child(env.nodes, node, "then"@) {
                    Err(e) => stopped(e, ctx),
                    Ok(child) => match timer_for(x, env.numbers) {
                        Err(e) => stopped(e, ctx),
                        Ok(timer) => done(one_branch(delayed(timer, child, ctx)), ctx),
                    },
                },
            },
            RoleView::Repeat(r) => match repeat_times(r.times, ctx, env.numbers) {
                Err(e) => stopped(e, ctx),
                Ok(times) => match only_child(env.nodes, node, "body"@) {
                    Err(e) => stopped(e, ctx),
                    Ok(body) => frames_run(
                        repeat_frames(times, r.interval, body),
                        0,
                        no_output(),
                        ctx,
                        env,
                    ),
                },
            },
            RoleView::If(condition) => match expr_value(condition, ctx, env.numbers) {
                Err(e) => stopped(e, ctx),
                Ok(v) => frames_run(
                    node_frames(
                        slot_children(
                            env.nodes,
                            node,
                            if is_truthy(v) {
                                "then"@
                            } else {
                                "else"@
                            },
                        ),
                    ),
                    0,
                    no_output(),
                    ctx,
                    env,
                ),
            },
            RoleView::SetVar(x) => match only_child(env.nodes, node, "then"@) {
                Err(e) => stopped(e, ctx),
                Ok(child) => {
                    let ran = node_run(
                        child,
                        ContextView { vars: put(ctx.vars, x.name, x.value), ..ctx },
                        env,
                    );
                    RanView {
                        out: ran.out,
                        ctx: ContextView {
                            vars: restored(ran.ctx.vars, x.name, lookup(ctx.vars, x.name)),
                            ..ran.ctx
                        },
                    }
                },
            },
            RoleView::WaitEvent(event) => done(
                one_branch(
                    BranchView {
                        wait: WaitView::Signal(event),
                        continuation: node_frames(slot_payloads(env.nodes, node, event)),
                        ctx,
                    },
                ),
                ctx,
            ),
            RoleView::Emit(x) => match resolved_args(x.payload, ctx, env.numbers) {
                Err(e) => stopped(e, ctx),
                Ok(payload) => done(one_signal(raised(x.event, payload, ctx)), ctx),
            },
            RoleView::WithContext => frames_run(
                node_frames(slot_children(env.nodes, node, "then"@)),
                0,
                no_output(),
                ctx,
                env,
            ),
            RoleView::Extension(x) => action_run(node, x, ctx, env),
            RoleView::Nothing => stopped(
                ErrorView::Runtime(MessageView::NoComponent { node }),
                ctx,
            ),
        }
    }
}

/// The run of one frame.
pub open spec fn frame_run(frame: FrameView, ctx: ContextView, env: EnvView) -> RanView
    decreases ctx.step_budget_remaining, 1nat,
{
    match frame {
        FrameView::Node(node) => node_run(node, ctx, env),
        FrameView::DelayThen { seconds, node } => match expr_number(seconds, ctx, env.numbers) {
            Err(e) => stopped(e, ctx),
            Ok(x) => match timer_for(x, env.numbers) {
                Err(e) => stopped(e, ctx),
                Ok(timer) => done(one_branch(delayed(timer, node, ctx)), ctx),
            },
        },
    }
}

/// The run of the frames from the `k`-th on, behind what has come out so far. The first frame that
/// suspends takes the frames behind it along.
pub open spec fn frames_run(
    frames: Seq<FrameView>,
    k: int,
    so_far: OutputView,
    ctx: ContextView,
    env: EnvView,
) -> RanView
    decreases ctx.step_budget_remaining, (frames.len() - k + 2) as nat,
{
    if 0 <= k < frames.len() {
        let ran = frame_run(frames[k], ctx, env);
        match ran.out {
            Err(e) => stopped(e, ran.ctx),
            Ok(o) => if o.branches.len() > 0 {
                done(
                    both(
                        so_far,
                        with_rest(o, frames.subrange(k + 1, frames.len() as int)),
                    ),
                    ran.ctx,
                )
            } else if ran.ctx.step_budget_remaining <= ctx.step_budget_remaining {
                frames_run(frames, k + 1, both(so_far, o), ran.ctx, env)
            } else {
                arbitrary()
            },
        }
    } else {
        done(so_far, ctx)
    }
}

/// The run of all nodes from the `k`-th on, behind what has come out so far.
pub open spec fn parallel_run(
    l: Seq<u64>,
    k: int,
    so_far: OutputView,
    ctx: ContextView,
    env: EnvView,
) -> RanView
    decreases ctx.step_budget_remaining, (l.len() - k + 2) as nat,
{
    if 0 <= k < l.len() {
        let ran = node_run(l[k], ctx, env);
        match ran.out {
            Err(e) => stopped(e, ran.ctx),
            Ok(o) => if ran.ctx.step_budget_remaining <= ctx.step_budget_remaining {
                parallel_run(l, k + 1, both(so_far, o), ran.ctx, env)
            } else {
                arbitrary()
            },
        }
    } else {
        done(so_far, ctx)
    }
}

pub open spec fn run_outcome(r: Result<ExecutionOutput, SkillError>) -> Result<
    OutputView,
    ErrorView,
> {
    match r {
        Ok(o) => Ok(o@),
        Err(e) => Err(e@),
    }
}

/// The number that a value is.
pub fn number(value: &SkillValue) -> (r: Result<SkillNumber, SkillError>)
    ensures
        match r {
            Ok(x) => value@ == ValueView::Number(x),
            Err(e) => !(value@ is Number) && e@ == ErrorView::Runtime(
                MessageView::ExpectedNumber(value@),
            ),
        },
{
    match value {
        SkillValue::Number(x) => Ok(*x),
        other => Err(SkillError::Runtime(SkillMessage::ExpectedNumber(copy_value(other)))),
    }
}

/// The number that an expression has as its value.
pub fn eval_number(expr: &SkillExpr, ctx: &SkillContext, numbers: &NumberTable) -> (r: Result<
    SkillNumber,
    SkillError,
>)
    ensures
        match r {
            Ok(x) => expr_number(expr@, ctx@, numbers@) == Ok::<SkillNumber, ErrorView>(x),
            Err(e) => expr_number(expr@, ctx@, numbers@) == Err::<SkillNumber, ErrorView>(e@),
        },
{
    match eval_skill_expr(expr, ctx, numbers) {
        Ok(v) => number(&v),
        Err(e) => Err(e),
    }
}

fn start_timer(seconds: SkillNumber, numbers: &NumberTable) -> (r: Result<SkillTimer, SkillError>)
    ensures
        match r {
            Ok(t) => timer_for(seconds, numbers@) == Ok::<SkillTimer, ErrorView>(t),
            Err(e) => timer_for(seconds, numbers@) == Err::<SkillTimer, ErrorView>(e@),
        },
{
    match numbers.span(seconds) {
        Ok(d) => Ok(SkillTimer::new(d)),
        Err(q) => Err(SkillError::Unanswered(q)),
    }
}

fn delay_output(timer: SkillTimer, node: u64, ctx: &SkillContext) -> (r: ExecutionOutput)
    ensures
        r@ == one_branch(delayed(timer, node, ctx@)),
{
    let mut continuation: Vec<SkillContinuation> = Vec::new();
    continuation.push(SkillContinuation::Node(node));
    assert(frames_view(continuation@) =~= seq![FrameView::Node(node)]);
    ExecutionOutput::of_branch(
        SkillBranch { wait: SkillWait::Delay(timer), continuation, ctx: ctx.clone() },
    )
}

fn frames_of(l: &Vec<u64>) -> (r: Vec<SkillContinuation>)
    ensures
        frames_view(r@) == node_frames(l@),
{
    let mut out: Vec<SkillContinuation> = Vec::new();
    let n: usize = l.len();
    let mut i: usize = 0;
    while i < n
        invariant
            i <= n,
            n == l@.len(),
            out@.len() == i,
            forall|j: int| 0 <= j < i ==> (#[trigger] out@[j])@ == FrameView::Node(l@[j]),
        decreases n - i,
    {
        out.push(SkillContinuation::Node(l[i]));
        i = i + 1;
    }
    assert(frames_view(out@) =~= node_frames(l@));
    out
}

fn repeated(times: usize, interval: &Option<SkillExpr>, body: u64) -> (r: Vec<SkillContinuation>)
    ensures
        frames_view(r@) == repeat_frames(times as nat, expr_view(*interval), body),
{
    let mut out: Vec<SkillContinuation> = Vec::new();
    let mut i: usize = 0;
    while i < times
        invariant
            i <= times,
            out@.len() == i,
            forall|j: int|
                0 <= j < i ==> (#[trigger] out@[j])@ == repeat_frames(
                    times as nat,
                    expr_view(*interval),
                    body,
                )[j],
        decreases times - i,
    {
        match interval {
            Some(seconds) => out.push(
                SkillContinuation::DelayThen { seconds: seconds.clone(), node: body },
            ),
            None => out.push(SkillContinuation::Node(body)),
        }
        i = i + 1;
    }
    assert(frames_view(out@) =~= repeat_frames(times as nat, expr_view(*interval), body));
    out
}

fn count_times(times: &Option<SkillExpr>, ctx: &SkillContext, numbers: &NumberTable) -> (r: Result<
    usize,
    SkillError,
>)
    ensures
        match r {
            Ok(c) => repeat_times(expr_view(*times), ctx@, numbers@) == Ok::<nat, ErrorView>(
                c as nat,
            ),
            Err(e) => repeat_times(expr_view(*times), ctx@, numbers@) == Err::<nat, ErrorView>(e@),
        },
{
    match times {
        None => Ok(1),
        Some(e) => match eval_number(e, ctx, numbers) {
            Ok(x) => match numbers.count(x) {
                Ok(c) => Ok(c),
                Err(q) => Err(SkillError::Unanswered(q)),
            },
            Err(e) => Err(e),
        },
    }
}

/// Takes a step of the budget.
pub fn spend_step(ctx: &mut SkillContext) -> (r: Result<(), SkillError>)
    ensures
        if old(ctx).step_budget_remaining == 0 {
            r matches Err(e) && e@ == budget_error(old(ctx)@) && *final(ctx) == *old(ctx)
        } else {
            r is Ok && final(ctx)@ == spent(old(ctx)@)
        },
{
    if ctx.step_budget_remaining == 0 {
        return Err(
            SkillError::Runtime(
                SkillMessage::Execution(
                    SkillExecutionError::StepBudgetExhausted { steps: ctx.step_budget },
                ),
            ),
        );
    }
    ctx.step_budget_remaining = ctx.step_budget_remaining - 1;
    Ok(())
}

fn set_all(vars: &mut SkillArgs, t: &SkillArgs)
    ensures
        args_view(*final(vars)) == all_put(
            args_view(*old(vars)),
            args_view(*t),
            args_view(*t).len(),
        ),
{
    let n: usize = t.len();
    let mut i: usize = 0;
    while i < n
        invariant
            i <= n,
            n == t@.len(),
            args_view(*vars) == all_put(args_view(*old(vars)), args_view(*t), i as nat),
        decreases n - i,
    {
        set_arg(vars, t.key(i).clone(), copy_value(t.value(i)));
        i = i + 1;
        assert(args_view(*t)[i - 1] == (t@[i - 1].0, t@[i - 1].1@));
    }
}

fn waiting(waits: &Vec<SkillActionWait>, ctx: &SkillContext) -> (r: Vec<SkillBranch>)
    ensures
        branches_view(r@) == Seq::new(
            waits@.len(),
            |i: int|
                BranchView {
                    wait: WaitView::EffectResolved { request_id: waits@[i]->request_id },
                    continuation: Seq::empty(),
                    ctx: ctx@,
                },
        ),
{
    let mut out: Vec<SkillBranch> = Vec::new();
    let n: usize = waits.len();
    let mut i: usize = 0;
    while i < n
        invariant
            i <= n,
            n == waits@.len(),
            out@.len() == i,
            forall|j: int|
                0 <= j < i ==> (#[trigger] out@[j])@ == (BranchView {
                    wait: WaitView::EffectResolved { request_id: waits@[j]->request_id },
                    continuation: Seq::empty(),
                    ctx: ctx@,
                }),
        decreases n - i,
    {
        let SkillActionWait::EffectResolved { request_id } = waits[i];
        let branch = SkillBranch {
            wait: SkillWait::EffectResolved { request_id },
            continuation: Vec::new(),
            ctx: ctx.clone(),
        };
        assert(frames_view(branch.continuation@) =~= Seq::empty());
        out.push(branch);
        i = i + 1;
    }
    assert(branches_view(out@) =~= Seq::new(
        waits@.len(),
        |i: int|
            BranchView {
                wait: WaitView::EffectResolved { request_id: waits@[i]->request_id },
                continuation: Seq::empty(),
                ctx: ctx@,
            },
    ));
    out
}

/// What comes of what an action has asked for, in its context afterwards.
pub fn finish_action(output: SkillActionOutput, ctx: &mut SkillContext) -> (r: ExecutionOutput)
    ensures
        action_outcome(output@, old(ctx)@) == done(r@, final(ctx)@),
        final(ctx).step_budget_remaining == old(ctx).step_budget_remaining,
{
    set_all(&mut ctx.vars, &output.vars);
    let branches = waiting(&output.waits, ctx);
    let r = ExecutionOutput {
        branches,
        intents: output.intents,
        signals: Vec::new(),
        effect_requests: output.effect_requests,
        effect_resolved: output.effect_resolved,
        effects: output.effects,
    };
    assert(r@.signals =~= Seq::empty());
    assert(action_outcome(output@, old(ctx)@).out->Ok_0 =~= r@);
    r
}

fn execute_action(
    node: u64,
    extension: &SkillExtension,
    ctx: &mut SkillContext,
    registry: &SkillActionRegistry,
    nodes: &SkillNodeQueries,
    numbers: &NumberTable,
) -> (r: Result<ExecutionOutput, SkillError>)
    ensures
        ({
            let ran = action_run(
                node,
                ExtensionView {
                    constructor: extension.constructor@,
                    args: args_view(extension.args),
                },
                old(ctx)@,
                env(*registry, *nodes, *numbers),
            );
            run_outcome(r) == ran.out && final(ctx)@ == ran.ctx
        }),
        final(ctx).step_budget_remaining == old(ctx).step_budget_remaining,
{
    let slot = match registry.action(extension.constructor.as_str()) {
        Some(slot) => slot,
        None => return Err(SkillError::UnknownAction(extension.constructor.clone())),
    };
    let args = match resolve_args(&extension.args, ctx, numbers) {
        Ok(a) => a,
        Err(e) => return Err(e),
    };
    let input = SkillActionInput { args, payloads: node_payload_map(nodes, node) };
    let mut output = SkillActionOutput::new();
    match slot.emit(ctx, &input, &mut output, numbers) {
        Ok(_) => {},
        Err(e) => return Err(e),
    }
    Ok(finish_action(output, ctx))
}

fn append_rest(output: &mut ExecutionOutput, frames: &Vec<SkillContinuation>, from: usize)
    requires
        from <= frames@.len(),
    ensures
        final(output)@ == with_rest(
            old(output)@,
            frames_view(frames@).subrange(from as int, frames@.len() as int),
        ),
{
    let ghost rest = frames_view(frames@).subrange(from as int, frames@.len() as int);
    let ghost start = output@;
    let n: usize = output.branches.len();
    let mut i: usize = 0;
    while i < n
        invariant
            i <= n,
            from <= frames@.len(),
            n == output.branches@.len(),
            n == start.branches.len(),
            rest == frames_view(frames@).subrange(from as int, frames@.len() as int),
            output@.intents == start.intents,
            output@.signals == start.signals,
            output@.effect_requests == start.effect_requests,
            output@.effect_resolved == start.effect_resolved,
            output@.effects == start.effects,
            forall|j: int|
                0 <= j < i ==> (#[trigger] output.branches@[j])@ == (BranchView {
                    continuation: start.branches[j].continuation + rest,
                    ..start.branches[j]
                }),
            forall|j: int|
                i <= j < n ==> (#[trigger] output.branches@[j])@ == start.branches[j],
        decreases n - i,
    {
        let mut more: Vec<SkillContinuation> = copy_frames(frames, from);
        let ghost was = output.branches@[i as int].continuation@;
        let ghost added = more@;
        assert(frames_view(added) =~= rest);
        output.branches[i].continuation.append(&mut more);
        assert(frames_view(output.branches@[i as int].continuation@) =~= frames_view(was) + rest);
        i = i + 1;
    }
    assert(output@.branches =~= with_rest(start, rest).branches);
}

/// Runs frames one after another, as [`frames_run`] describes.
pub fn execute_continuation(
    frames: &Vec<SkillContinuation>,
    ctx: &mut SkillContext,
    registry: &SkillActionRegistry,
    nodes: &SkillNodeQueries,
    numbers: &NumberTable,
) -> (r: Result<ExecutionOutput, SkillError>)
    ensures
        ({
            let ran = frames_run(
                frames_view(frames@),
                0,
                no_output(),
                old(ctx)@,
                env(*registry, *nodes, *numbers),
            );
            run_outcome(r) == ran.out && final(ctx)@ == ran.ctx
        }),
        final(ctx).step_budget_remaining <= old(ctx).step_budget_remaining,
    decreases old(ctx).step_budget_remaining, 2nat,
{
    let mut output = ExecutionOutput::new();
    let ghost all = frames_view(frames@);
    let ghost e = env(*registry, *nodes, *numbers);
    let n: usize = frames.len();
    let mut i: usize = 0;
    while i < n
        invariant
            i <= n,
            n == frames@.len(),
            all == frames_view(frames@),
            e == env(*registry, *nodes, *numbers),
            ctx.step_budget_remaining <= old(ctx).step_budget_remaining,
            frames_run(all, 0, no_output(), old(ctx)@, e) == frames_run(
                all,
                i as int,
                output@,
                ctx@,
                e,
            ),
        decreases n - i,
    {
        assert(all[i as int] == frames@[i as int]@);
        let mut child = match execute_frame(&frames[i], ctx, registry, nodes, numbers) {
            Ok(o) => o,
            Err(e) => return Err(e),
        };
        if child.branches.len() > 0 {
            append_rest(&mut child, frames, i + 1);
            output.extend(child);
            return Ok(output);
        }
        output.extend(child);
        i = i + 1;
    }
    Ok(output)
}

fn execute_frame(
    frame: &SkillContinuation,
    ctx: &mut SkillContext,
    registry: &SkillActionRegistry,
    nodes: &SkillNodeQueries,
    numbers: &NumberTable,
) -> (r: Result<ExecutionOutput, SkillError>)
    ensures
        ({
            let ran = frame_run(frame@, old(ctx)@, env(*registry, *nodes, *numbers));
            run_outcome(r) == ran.out && final(ctx)@ == ran.ctx
        }),
        final(ctx).step_budget_remaining <= old(ctx).step_budget_remaining,
    decreases old(ctx).step_budget_remaining, 1nat,
{
    match frame {
        SkillContinuation::Node(node) => execute_node(*node, ctx, registry, nodes, numbers),
        SkillContinuation::DelayThen { seconds, node } => match eval_number(
            seconds,
            ctx,
            numbers,
        ) {
            Ok(x) => match start_timer(x, numbers) {
                Ok(timer) => Ok(delay_output(timer, *node, ctx)),
                Err(e) => Err(e),
            },
            Err(e) => Err(e),
        },
    }
}

fn execute_parallel(
    children: &Vec<u64>,
    ctx: &mut SkillContext,
    registry: &SkillActionRegistry,
    nodes: &SkillNodeQueries,
    numbers: &NumberTable,
) -> (r: Result<ExecutionOutput, SkillError>)
    ensures
        ({
            let ran = parallel_run(
                children@,
                0,
                no_output(),
                old(ctx)@,
                env(*registry, *nodes, *numbers),
            );
            run_outcome(r) == ran.out && final(ctx)@ == ran.ctx
        }),
        final(ctx).step_budget_remaining <= old(ctx).step_budget_remaining,
    decreases old(ctx).step_budget_remaining, 2nat,
{
    let mut output = ExecutionOutput::new();
    let ghost e = env(*registry, *nodes, *numbers);
    let n: usize = children.len();
    let mut i: usize = 0;
    while i < n
        invariant
            i <= n,
            n == children@.len(),
            e == env(*registry, *nodes, *numbers),
            ctx.step_budget_remaining <= old(ctx).step_budget_remaining,
            parallel_run(children@, 0, no_output(), old(ctx)@, e) == parallel_run(
                children@,
                i as int,
                output@,
                ctx@,
                e,
            ),
        decreases n - i,
    {
        let child = match execute_node(children[i], ctx, registry, nodes, numbers) {
            Ok(o) => o,
            Err(e) => return Err(e),
        };
        output.extend(child);
        i = i + 1;
    }
    Ok(output)
}

/// Runs a node, as [`node_run`] describes.
pub fn execute_node(
    node: u64,
    ctx: &mut SkillContext,
    registry: &SkillActionRegistry,
    nodes: &SkillNodeQueries,
    numbers: &NumberTable,
) -> (r: Result<ExecutionOutput, SkillError>)
    ensures
        ({
            let ran = node_run(node, old(ctx)@, env(*registry, *nodes, *numbers));
            run_outcome(r) == ran.out && final(ctx)@ == ran.ctx
        }),
        final(ctx).step_budget_remaining <= old(ctx).step_budget_remaining,
    decreases old(ctx).step_budget_remaining, 0nat,
{
    match spend_step(ctx) {
        Ok(_) => {},
        Err(e) => return Err(e),
    }
    let record = match nodes.get(node) {
        Some(r) => r,
        None => return Err(SkillError::Runtime(SkillMessage::NoComponent { node })),
    };
    if record.sequence.is_some() {
        let frames = frames_of(&node_children(nodes, node, "items"));
        return execute_continuation(&frames, ctx, registry, nodes, numbers);
    }
    if record.parallel.is_some() {
        let children = node_children(nodes, node, "branches");
        return execute_parallel(&children, ctx, registry, nodes, numbers);
    }
    if let Some(delay) = &record.delay {
        let seconds = match eval_number(&delay.seconds, ctx, numbers) {
            Ok(x) => x,
            Err(e) => return Err(e),
        };
        let child = match single_child(nodes, node, "then") {
            Ok(c) => c,
            Err(e) => return Err(e),
        };
        return match start_timer(seconds, numbers) {
            Ok(timer) => Ok(delay_output(timer, child, ctx)),
            Err(e) => Err(e),
        };
    }
    if let Some(repeat) = &record.repeat {
        let times: usize = match count_times(&repeat.times, ctx, numbers) {
            Ok(c) => c,
            Err(e) => return Err(e),
        };
        let body = match single_child(nodes, node, "body") {
            Ok(c) => c,
            Err(e) => return Err(e),
        };
        let frames = repeated(times, &repeat.interval, body);
        return execute_continuation(&frames, ctx, registry, nodes, numbers);
    }
    if let Some(if_node) = &record.if_node {
        let value = match eval_skill_expr(&if_node.condition, ctx, numbers) {
            Ok(v) => v,
            Err(e) => return Err(e),
        };
        let slot = if truthy(&value) {
            "then"
        } else {
            "else"
        };
        let frames = frames_of(&node_children(nodes, node, slot));
        return execute_continuation(&frames, ctx, registry, nodes, numbers);
    }
    if let Some(set_var) = &record.set_var {
        let child = match single_child(nodes, node, "then") {
            Ok(c) => c,
            Err(e) => return Err(e),
        };
        let previous = match arg(&ctx.vars, set_var.name.as_str()) {
            Some(v) => Some(copy_value(v)),
            None => None,
        };
        set_arg(&mut ctx.vars, set_var.name.clone(), copy_value(&set_var.value));
        let result = execute_node(child, ctx, registry, nodes, numbers);
        match previous {
            Some(v) => set_arg(&mut ctx.vars, set_var.name.clone(), v),
            None => drop_arg(&mut ctx.vars, set_var.name.as_str()),
        }
        return result;
    }
    if let Some(wait_event) = &record.wait_event {
        let payloads = node_payloads(nodes, node, wait_event.event.as_str());
        let branch = SkillBranch {
            wait: SkillWait::Signal(wait_event.event.clone()),
            continuation: frames_of(&payloads),
            ctx: ctx.clone(),
        };
        return Ok(ExecutionOutput::of_branch(branch));
    }
    if let Some(emit) = &record.emit {
        let payload = match resolve_args(&emit.payload, ctx, numbers) {
            Ok(p) => p,
            Err(e) => return Err(e),
        };
        let signal = SkillRuntimeSignal {
            name: emit.event.clone(),
            payload,
            execution_id: Some(ctx.execution_id),
            skill_entity: ctx.skill_entity,
            caster: ctx.caster,
            target: ctx.current_target,
        };
        return Ok(ExecutionOutput::of_signal(signal));
    }
    if record.with_context.is_some() {
        let frames = frames_of(&node_children(nodes, node, "then"));
        return execute_continuation(&frames, ctx, registry, nodes, numbers);
    }
    if let Some(extension) = &record.extension {
        return execute_action(node, extension, ctx, registry, nodes, numbers);
    }
    Err(SkillError::Runtime(SkillMessage::NoComponent { node }))
}

} // verus!
