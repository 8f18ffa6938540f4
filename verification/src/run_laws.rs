//! What holds of every run.
use crate::branch::{no_output, FrameView, OutputView};
use crate::context::ContextView;
use crate::execute::{
    action_run, all_put, frame_run, frames_run, node_frames, node_run, parallel_run, repeat_frames,
    repeat_times, role_of, spent, EnvView,
};
use crate::expr::{expr_value, is_truthy};
use crate::node::{only_child, slot_children, RoleView};
use crate::table::{
    distinct, law_put_then_lookup, law_take_out_then_lookup, lemma_distinct, lookup, put,
};
use crate::value::ArgsView;
use vstd::prelude::*;

verus! {

/// The contexts differ at most in their variables and in their steps, of which the second has no
/// more.
pub open spec fn goes_on(a: ContextView, b: ContextView) -> bool {
    &&& b.step_budget_remaining <= a.step_budget_remaining
    &&& b == ContextView {
        vars: b.vars,
        step_budget_remaining: b.step_budget_remaining,
        ..a
    }
}

/// The law of runs: a run never gains steps, and keeps who casts, at whom, under which number, with
/// which stats and tags.
pub proof fn law_run_keeps_context(node: u64, ctx: ContextView, env: EnvView)
    ensures
        goes_on(ctx, node_run(node, ctx, env).ctx),
        node_run(node, ctx, env).out is Ok ==> node_run(node, ctx, env).ctx.step_budget_remaining
            < ctx.step_budget_remaining,
    decreases ctx.step_budget_remaining, 0nat,
{
    if ctx.step_budget_remaining > 0 {
        let c = spent(ctx);
        match role_of(env.nodes, node) {
            RoleView::Sequence => {
                lemma_frames(
                    node_frames(slot_children(env.nodes, node, "items"@)),
                    0,
                    no_output(),
                    c,
                    env,
                );
            },
            RoleView::Parallel => {
                lemma_parallel(
                    slot_children(env.nodes, node, "branches"@),
                    0,
                    no_output(),
                    c,
                    env,
                );
            },
            RoleView::Repeat(r) => {
                match repeat_times(r.times, c, env.numbers) {
                    Ok(times) => match only_child(env.nodes, node, "body"@) {
                        Ok(body) => {
                            lemma_frames(
                                repeat_frames(times, r.interval, body),
                                0,
                                no_output(),
                                c,
                                env,
                            );
                        },
                        Err(_) => {},
                    },
                    Err(_) => {},
                }
            },
            RoleView::If(condition) => {
                match expr_value(condition, c, env.numbers) {
                    Ok(v) => {
                        let slot = if is_truthy(v) {
                            "then"@
                        } else {
                            "else"@
                        };
                        lemma_frames(
                            node_frames(slot_children(env.nodes, node, slot)),
                            0,
                            no_output(),
                            c,
                            env,
                        );
                    },
                    Err(_) => {},
                }
            },
            RoleView::SetVar(x) => {
                match only_child(env.nodes, node, "then"@) {
                    Ok(child) => {
                        law_run_keeps_context(
                            child,
                            ContextView { vars: put(c.vars, x.name, x.value), ..c },
                            env,
                        );
                    },
                    Err(_) => {},
                }
            },
            RoleView::WithContext => {
                lemma_frames(
                    node_frames(slot_children(env.nodes, node, "then"@)),
                    0,
                    no_output(),
                    c,
                    env,
                );
            },
            _ => {},
        }
    }
}

/// The run of a frame never gains steps, and keeps the rest of its context.
pub proof fn lemma_frame(frame: FrameView, ctx: ContextView, env: EnvView)
    ensures
        goes_on(ctx, frame_run(frame, ctx, env).ctx),
    decreases ctx.step_budget_remaining, 1nat,
{
    match frame {
        FrameView::Node(node) => {
            law_run_keeps_context(node, ctx, env);
        },
        _ => {},
    }
}

proof fn lemma_frames(
    frames: Seq<FrameView>,
    k: int,
    so_far: OutputView,
    ctx: ContextView,
    env: EnvView,
)
    ensures
        goes_on(ctx, frames_run(frames, k, so_far, ctx, env).ctx),
    decreases ctx.step_budget_remaining, (frames.len() - k + 2) as nat,
{
    if 0 <= k < frames.len() {
        lemma_frame(frames[k], ctx, env);
        let ran = frame_run(frames[k], ctx, env);
        match ran.out {
            Ok(o) => {
                if o.branches.len() == 0 {
                    lemma_frames(
                        frames,
                        k + 1,
                        crate::branch::both(so_far, o),
                        ran.ctx,
                        env,
                    );
                }
            },
            Err(_) => {},
        }
    }
}

proof fn lemma_parallel(
    l: Seq<u64>,
    k: int,
    so_far: OutputView,
    ctx: ContextView,
    env: EnvView,
)
    ensures
        goes_on(ctx, parallel_run(l, k, so_far, ctx, env).ctx),
    decreases ctx.step_budget_remaining, (l.len() - k + 2) as nat,
{
    if 0 <= k < l.len() {
        law_run_keeps_context(l[k], ctx, env);
        let ran = node_run(l[k], ctx, env);
        match ran.out {
            Ok(o) => {
                lemma_parallel(l, k + 1, crate::branch::both(so_far, o), ran.ctx, env);
            },
            Err(_) => {},
        }
    }
}

/// The law of resumption: frames that run never gain steps, and keep who casts, at whom, under
/// which number, with which stats and tags.
pub proof fn law_resumption_keeps_context(frames: Seq<FrameView>, ctx: ContextView, env: EnvView)
    ensures
        goes_on(ctx, frames_run(frames, 0, no_output(), ctx, env).ctx),
{
    lemma_frames(frames, 0, no_output(), ctx, env);
}

/// The law of budgets: an execution without steps left cannot run a node, and says so.
pub proof fn law_no_steps_no_run(node: u64, ctx: ContextView, env: EnvView)
    requires
        ctx.step_budget_remaining == 0,
    ensures
        node_run(node, ctx, env) == crate::execute::stopped(
            crate::execute::budget_error(ctx),
            ctx,
        ),
{
}

proof fn lemma_all_put_distinct(vars: ArgsView, t: ArgsView, k: nat)
    requires
        distinct(vars),
    ensures
        distinct(all_put(vars, t, k)),
    decreases k,
{
    if 0 < k <= t.len() {
        lemma_all_put_distinct(vars, t, (k - 1) as nat);
        lemma_distinct(all_put(vars, t, (k - 1) as nat), t[k - 1].0, t[k - 1].1);
    }
}

/// A run keeps the names of variables distinct.
proof fn lemma_vars_distinct(node: u64, ctx: ContextView, env: EnvView)
    requires
        distinct(ctx.vars),
    ensures
        distinct(node_run(node, ctx, env).ctx.vars),
    decreases ctx.step_budget_remaining, 0nat,
{
    if ctx.step_budget_remaining > 0 {
        let c = spent(ctx);
        match role_of(env.nodes, node) {
            RoleView::Sequence => {
                lemma_frames_distinct(
                    node_frames(slot_children(env.nodes, node, "items"@)),
                    0,
                    no_output(),
                    c,
                    env,
                );
            },
            RoleView::Parallel => {
                lemma_parallel_distinct(
                    slot_children(env.nodes, node, "branches"@),
                    0,
                    no_output(),
                    c,
                    env,
                );
            },
            RoleView::Repeat(r) => {
                match repeat_times(r.times, c, env.numbers) {
                    Ok(times) => match only_child(env.nodes, node, "body"@) {
                        Ok(body) => {
                            lemma_frames_distinct(
                                repeat_frames(times, r.interval, body),
                                0,
                                no_output(),
                                c,
                                env,
                            );
                        },
                        Err(_) => {},
                    },
                    Err(_) => {},
                }
            },
            RoleView::If(condition) => {
                match expr_value(condition, c, env.numbers) {
                    Ok(v) => {
                        let slot = if is_truthy(v) {
                            "then"@
                        } else {
                            "else"@
                        };
                        lemma_frames_distinct(
                            node_frames(slot_children(env.nodes, node, slot)),
                            0,
                            no_output(),
                            c,
                            env,
                        );
                    },
                    Err(_) => {},
                }
            },
            RoleView::SetVar(x) => {
                match only_child(env.nodes, node, "then"@) {
                    Ok(child) => {
                        let inner = ContextView { vars: put(c.vars, x.name, x.value), ..c };
                        lemma_distinct(c.vars, x.name, x.value);
                        lemma_vars_distinct(child, inner, env);
                        let after = node_run(child, inner, env).ctx.vars;
                        match lookup(c.vars, x.name) {
                            Some(v) => lemma_distinct(after, x.name, v),
                            None => lemma_distinct(after, x.name, x.value),
                        }
                    },
                    Err(_) => {},
                }
            },
            RoleView::WithContext => {
                lemma_frames_distinct(
                    node_frames(slot_children(env.nodes, node, "then"@)),
                    0,
                    no_output(),
                    c,
                    env,
                );
            },
            RoleView::Extension(x) => {
                let ran = action_run(node, x, c, env);
                if ran.out is Ok {
                    let args = crate::expr::resolved_args(x.args, c, env.numbers)->Ok_0;
                    let o = lookup(env.actions, x.constructor)->0.emits(
                        c,
                        crate::action::InputView {
                            args,
                            payloads: crate::node::payload_table(env.nodes, node),
                        },
                        crate::action::no_action_output(),
                        env.numbers,
                    )->Ok_0;
                    lemma_all_put_distinct(c.vars, o.vars, o.vars.len());
                }
            },
            _ => {},
        }
    }
}

proof fn lemma_frames_distinct(
    frames: Seq<FrameView>,
    k: int,
    so_far: OutputView,
    ctx: ContextView,
    env: EnvView,
)
    requires
        distinct(ctx.vars),
    ensures
        distinct(frames_run(frames, k, so_far, ctx, env).ctx.vars),
    decreases ctx.step_budget_remaining, (frames.len() - k + 2) as nat,
{
    if 0 <= k < frames.len() {
        match frames[k] {
            FrameView::Node(node) => {
                lemma_vars_distinct(node, ctx, env);
            },
            _ => {},
        }
        lemma_frame(frames[k], ctx, env);
        let ran = frame_run(frames[k], ctx, env);
        match ran.out {
            Ok(o) => {
                if o.branches.len() == 0 {
                    lemma_frames_distinct(
                        frames,
                        k + 1,
                        crate::branch::both(so_far, o),
                        ran.ctx,
                        env,
                    );
                }
            },
            Err(_) => {},
        }
    }
}

proof fn lemma_parallel_distinct(
    l: Seq<u64>,
    k: int,
    so_far: OutputView,
    ctx: ContextView,
    env: EnvView,
)
    requires
        distinct(ctx.vars),
    ensures
        distinct(parallel_run(l, k, so_far, ctx, env).ctx.vars),
    decreases ctx.step_budget_remaining, (l.len() - k + 2) as nat,
{
    if 0 <= k < l.len() {
        lemma_vars_distinct(l[k], ctx, env);
        law_run_keeps_context(l[k], ctx, env);
        let ran = node_run(l[k], ctx, env);
        match ran.out {
            Ok(o) => {
                lemma_parallel_distinct(l, k + 1, crate::branch::both(so_far, o), ran.ctx, env);
            },
            Err(_) => {},
        }
    }
}

/// The law of scope: after a node that sets a variable has run, well or not, the variable is what
/// it was before.
pub proof fn law_variable_is_restored(node: u64, ctx: ContextView, env: EnvView)
    requires
        distinct(ctx.vars),
        role_of(env.nodes, node) is SetVar,
    ensures
        lookup(node_run(node, ctx, env).ctx.vars, role_of(env.nodes, node)->SetVar_0.name)
            == lookup(ctx.vars, role_of(env.nodes, node)->SetVar_0.name),
{
    if ctx.step_budget_remaining > 0 {
        let c = spent(ctx);
        let x = role_of(env.nodes, node)->SetVar_0;
        match only_child(env.nodes, node, "then"@) {
            Ok(child) => {
                let inner = ContextView { vars: put(c.vars, x.name, x.value), ..c };
                lemma_distinct(c.vars, x.name, x.value);
                lemma_vars_distinct(child, inner, env);
                let after = node_run(child, inner, env).ctx.vars;
                match lookup(c.vars, x.name) {
                    Some(v) => law_put_then_lookup(after, x.name, v, x.name),
                    None => law_take_out_then_lookup(after, x.name, x.name),
                }
            },
            Err(_) => {},
        }
    }
}

} // verus!
