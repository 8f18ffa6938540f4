//! Effects that last for a while.
use crate::action::{spawns_view, SkillActionRegistry, SkillEffectSpawn, SpawnView};
use crate::branch::{both, ticked, ExecutionOutput, OutputView, SkillTimer};
use crate::context::{ContextView, SkillContext};
use crate::error::{ErrorView, SkillError};
use crate::execute::{env, execute_node, node_run, timer_for, EnvView};
use crate::node::SkillNodeQueries;
use crate::number::{num_max, num_zero, NumberTable, NumbersView, QuestionView, SkillNumber};
use crate::value::SkillId;
use vstd::prelude::*;

verus! {

/// The report of a failed execution.
#[derive(Debug)]
pub struct SkillExecutionFailed {
    pub skill: Option<SkillId>,
    pub execution_id: Option<u64>,
    pub skill_entity: Option<u64>,
    pub error: SkillError,
}

pub struct FailedView {
    pub skill: Option<Seq<char>>,
    pub execution_id: Option<u64>,
    pub skill_entity: Option<u64>,
    pub error: ErrorView,
}

impl SkillExecutionFailed {
    pub open spec fn view(&self) -> FailedView {
        FailedView {
            skill: match self.skill {
                Some(id) => Some(id@),
                None => None,
            },
            execution_id: self.execution_id,
            skill_entity: self.skill_entity,
            error: self.error@,
        }
    }
}

/// An effect that is attached.
#[derive(Debug)]
pub struct ActiveSkillEffect {
    pub execution_id: u64,
    pub skill_id: SkillId,
    pub caster: Option<u64>,
    pub target: Option<u64>,
    pub kind: String,
    pub timer: Option<SkillTimer>,
    pub on_remove: Option<u64>,
    pub ctx: SkillContext,
}

pub struct EffectView {
    pub execution_id: u64,
    pub skill_id: Seq<char>,
    pub caster: Option<u64>,
    pub target: Option<u64>,
    pub kind: Seq<char>,
    pub timer: Option<SkillTimer>,
    pub on_remove: Option<u64>,
    pub ctx: ContextView,
}

impl ActiveSkillEffect {
    pub open spec fn view(&self) -> EffectView {
        EffectView {
            execution_id: self.execution_id,
            skill_id: self.skill_id@,
            caster: self.caster,
            target: self.target,
            kind: self.kind@,
            timer: self.timer,
            on_remove: self.on_remove,
            ctx: self.ctx@,
        }
    }
}

pub open spec fn effects_view(s: Seq<ActiveSkillEffect>) -> Seq<EffectView> {
    Seq::new(s.len(), |i: int| s[i]@)
}

pub open spec fn failures_view(s: Seq<SkillExecutionFailed>) -> Seq<FailedView> {
    Seq::new(s.len(), |i: int| s[i]@)
}

/// The question that an error asks of the host, if it asks one.
pub open spec fn question_of(e: ErrorView) -> Option<QuestionView> {
    match e {
        ErrorView::Unanswered(q) => Some(q),
        _ => None,
    }
}

/// What an execution has handed out while its effects are being attached: the output so far, the
/// effects to come, the last of which is next, the effects that are attached, and the failures of
/// their nodes.
#[derive(Debug)]
pub struct EffectWork {
    pub output: ExecutionOutput,
    pub pending: Vec<SkillEffectSpawn>,
    pub spawned: Vec<ActiveSkillEffect>,
    pub failed: Vec<SkillExecutionFailed>,
}

#[verifier::ext_equal]
pub struct WorkView {
    pub output: OutputView,
    pub pending: Seq<SpawnView>,
    pub spawned: Seq<EffectView>,
    pub failed: Seq<FailedView>,
}

/// The work that an output gives.
pub open spec fn work_of(o: OutputView) -> WorkView {
    WorkView {
        output: OutputView { effects: Seq::empty(), ..o },
        pending: o.effects,
        spawned: Seq::empty(),
        failed: Seq::empty(),
    }
}

/// The timer of an effect. An effect never lasts for less than no time.
pub open spec fn effect_timer(duration: Option<SkillNumber>, n: NumbersView) -> Result<
    Option<SkillTimer>,
    QuestionView,
> {
    match duration {
        None => Ok(None),
        Some(seconds) => match timer_for(num_max(seconds, num_zero()), n) {
            Ok(t) => Ok(Some(t)),
            Err(ErrorView::Unanswered(q)) => Err(q),
            Err(_) => arbitrary(),
        },
    }
}

/// The attached effect.
pub open spec fn attached(s: SpawnView, timer: Option<SkillTimer>, ctx: ContextView) -> EffectView {
    EffectView {
        execution_id: s.request.execution_id,
        skill_id: ctx.skill_id,
        caster: ctx.caster,
        target: s.request.target,
        kind: s.request.kind,
        timer,
        on_remove: s.on_remove,
        ctx,
    }
}

/// The work without the effect that is next, after the node that runs when it comes, and the
/// context in which the effect is attached.
pub open spec fn hook_run(w: WorkView, env: EnvView) -> Result<(WorkView, ContextView), QuestionView> {
    let s = w.pending.last();
    let rest = WorkView { pending: w.pending.drop_last(), ..w };
    match s.on_add {
        None => Ok((rest, s.ctx)),
        Some(node) => {
            let ran = node_run(node, s.ctx, env);
            match ran.out {
                Ok(o) => Ok(
                    (
                        WorkView {
                            output: OutputView { effects: Seq::empty(), ..both(rest.output, o) },
                            pending: rest.pending + (rest.output.effects + o.effects),
                            ..rest
                        },
                        ran.ctx,
                    ),
                ),
                Err(e) => match question_of(e) {
                    Some(q) => Err(q),
                    None => Ok(
                        (
                            WorkView {
                                failed: rest.failed.push(
                                    FailedView {
                                        skill: Some(s.ctx.skill_id),
                                        execution_id: Some(s.ctx.execution_id),
                                        skill_entity: s.ctx.skill_entity,
                                        error: e,
                                    },
                                ),
                                ..rest
                            },
                            ran.ctx,
                        ),
                    ),
                },
            }
        },
    }
}

/// The work after the effect that is next has been attached.
pub open spec fn work_step(w: WorkView, env: EnvView) -> Result<WorkView, QuestionView> {
    let s = w.pending.last();
    match hook_run(w, env) {
        Ok((after, ctx)) => match effect_timer(s.duration_seconds, env.numbers) {
            Ok(timer) => Ok(
                WorkView { spawned: after.spawned.push(attached(s, timer, ctx)), ..after },
            ),
            Err(q) => Err(q),
        },
        Err(q) => Err(q),
    }
}

/// The work after at most `limit` effects have been attached, and the question that stopped it.
pub open spec fn work_steps(w: WorkView, limit: nat, env: EnvView) -> (WorkView, Option<QuestionView>)
    decreases limit,
{
    if limit == 0 || w.pending.len() == 0 {
        (w, None)
    } else {
        match work_step(w, env) {
            Ok(next) => work_steps(next, (limit - 1) as nat, env),
            Err(q) => (w, Some(q)),
        }
    }
}

impl EffectWork {
    pub open spec fn view(&self) -> WorkView {
        WorkView {
            output: self.output@,
            pending: spawns_view(self.pending@),
            spawned: effects_view(self.spawned@),
            failed: failures_view(self.failed@),
        }
    }

    /// The work that an output gives.
    pub fn new(output: ExecutionOutput) -> (r: EffectWork)
        ensures
            r@ == work_of(output@),
    {
        let ghost start = output@;
        let mut output = output;
        let mut pending: Vec<SkillEffectSpawn> = Vec::new();
        std::mem::swap(&mut pending, &mut output.effects);
        let r = EffectWork { output, pending, spawned: Vec::new(), failed: Vec::new() };
        assert(r@ =~= work_of(start));
        r
    }

    fn make_timer(duration: Option<SkillNumber>, numbers: &NumberTable) -> (r: Result<
        Option<SkillTimer>,
        SkillError,
    >)
        ensures
            match effect_timer(duration, numbers@) {
                Ok(t) => r == Ok::<Option<SkillTimer>, SkillError>(t),
                Err(q) => r matches Err(e) && e@ == ErrorView::Unanswered(q),
            },
    {
        match duration {
            None => Ok(None),
            Some(seconds) => match numbers.span(seconds.larger(SkillNumber::zero())) {
                Ok(d) => Ok(Some(SkillTimer::new(d))),
                Err(q) => Err(SkillError::Unanswered(q)),
            },
        }
    }

    /// Attaches the effect that is next. A question leaves the work as it was.
    pub fn process_next(
        &mut self,
        registry: &SkillActionRegistry,
        nodes: &SkillNodeQueries,
        numbers: &NumberTable,
    ) -> (r: Result<(), SkillError>)
        requires
            old(self).pending@.len() > 0,
        ensures
            match work_step(old(self)@, env(*registry, *nodes, *numbers)) {
                Ok(w) => r is Ok && final(self)@ == w,
                Err(q) => r matches Err(e) && e@ == ErrorView::Unanswered(q) && *final(self)
                    == *old(self),
            },
    {
        let ghost start = self@;
        let ghost e = env(*registry, *nodes, *numbers);
        let last: usize = self.pending.len() - 1;
        assert(start.pending.last() == self.pending@[last as int]@);
        let mut ctx = self.pending[last].ctx.clone();
        let duration = self.pending[last].duration_seconds;
        let hook: Option<Result<ExecutionOutput, SkillError>> = match self.pending[last].on_add {
            Some(node) => match execute_node(node, &mut ctx, registry, nodes, numbers) {
                Err(SkillError::Unanswered(q)) => return Err(SkillError::Unanswered(q)),
                other => Some(other),
            },
            None => None,
        };
        let timer = match EffectWork::make_timer(duration, numbers) {
            Ok(t) => t,
            Err(e) => return Err(e),
        };
        let spawn = match self.pending.pop() {
            Some(s) => s,
            None => vstd::pervasive::unreached(),
        };
        assert(spawn@ == start.pending.last());
        assert(spawns_view(self.pending@) =~= start.pending.drop_last());
        match hook {
            Some(Ok(output)) => {
                self.output.extend(output);
                let ghost before = self.pending@;
                let ghost more = self.output.effects@;
                self.pending.append(&mut self.output.effects);
                assert(spawns_view(self.pending@) =~= spawns_view(before) + spawns_view(more));
                assert(self@.output =~= OutputView {
                    effects: Seq::empty(),
                    ..both(start.output, output@)
                });
            },
            Some(Err(error)) => {
                let failure = SkillExecutionFailed {
                    skill: Some(spawn.ctx.skill_id.clone()),
                    execution_id: Some(spawn.ctx.execution_id),
                    skill_entity: spawn.ctx.skill_entity,
                    error,
                };
                self.failed.push(failure);
                assert(failures_view(self.failed@) =~= start.failed.push(failure@));
            },
            None => {},
        }
        assert(hook_run(start, e) matches Ok((w, c)) && w =~= self@ && c == ctx@);
        let SkillEffectSpawn { request, on_remove, .. } = spawn;
        let effect = ActiveSkillEffect {
            execution_id: request.execution_id,
            skill_id: ctx.skill_id.clone(),
            caster: ctx.caster,
            target: request.target,
            kind: request.kind,
            timer,
            on_remove,
            ctx,
        };
        let ghost before = self@;
        self.spawned.push(effect);
        assert(effects_view(self.spawned@) =~= before.spawned.push(effect@));
        Ok(())
    }

    /// Attaches effects, at most `limit` of them: those of the output, those that their nodes
    /// bring, and so on.
    pub fn process_effect_spawns(
        &mut self,
        limit: usize,
        registry: &SkillActionRegistry,
        nodes: &SkillNodeQueries,
        numbers: &NumberTable,
    ) -> (r: Result<(), SkillError>)
        ensures
            ({
                let (w, q) = work_steps(
                    old(self)@,
                    limit as nat,
                    env(*registry, *nodes, *numbers),
                );
                final(self)@ == w && match q {
                    None => r is Ok,
                    Some(q) => r matches Err(e) && e@ == ErrorView::Unanswered(q),
                }
            }),
    {
        let ghost e = env(*registry, *nodes, *numbers);
        let mut left: usize = limit;
        while left > 0 && self.pending.len() > 0
            invariant
                left <= limit,
                e == env(*registry, *nodes, *numbers),
                work_steps(old(self)@, limit as nat, e) == work_steps(self@, left as nat, e),
            decreases left,
        {
            match self.process_next(registry, nodes, numbers) {
                Ok(_) => {},
                Err(e) => return Err(e),
            }
            left = left - 1;
        }
        Ok(())
    }
}

/// What becomes of an attached effect as time passes.
#[derive(Debug)]
pub enum EffectTick {
    /// It lasts for ever.
    Unchanged,
    /// Its timer goes on.
    Running(SkillTimer),
    /// It is over; this is what the node that runs then has handed out.
    Expired(Option<ExecutionOutput>),
    /// It is over, and the node that runs then has failed.
    ExpiredWithFailure(SkillExecutionFailed),
}

pub enum EffectTickView {
    Unchanged,
    Running(SkillTimer),
    Expired(Option<OutputView>),
    ExpiredWithFailure(FailedView),
}

impl EffectTick {
    pub open spec fn view(&self) -> EffectTickView {
        match self {
            EffectTick::Unchanged => EffectTickView::Unchanged,
            EffectTick::Running(t) => EffectTickView::Running(*t),
            EffectTick::Expired(Some(o)) => EffectTickView::Expired(Some(o@)),
            EffectTick::Expired(None) => EffectTickView::Expired(None),
            EffectTick::ExpiredWithFailure(f) => EffectTickView::ExpiredWithFailure(f@),
        }
    }
}

/// What becomes of an attached effect as time passes.
pub open spec fn effect_ticked(x: EffectView, delta: u128, env: EnvView) -> Result<
    EffectTickView,
    QuestionView,
> {
    match x.timer {
        None => Ok(EffectTickView::Unchanged),
        Some(t) => if !ticked(t, delta).finished {
            Ok(EffectTickView::Running(ticked(t, delta)))
        } else {
            match x.on_remove {
                None => Ok(EffectTickView::Expired(None)),
                Some(node) => match node_run(node, x.ctx, env).out {
                    Ok(o) => Ok(EffectTickView::Expired(Some(o))),
                    Err(e) => match question_of(e) {
                        Some(q) => Err(q),
                        None => Ok(
                            EffectTickView::ExpiredWithFailure(
                                FailedView {
                                    skill: Some(x.skill_id),
                                    execution_id: Some(x.execution_id),
                                    skill_entity: None,
                                    error: e,
                                },
                            ),
                        ),
                    },
                },
            }
        },
    }
}

/// Lets time pass for an attached effect.
pub fn tick_skill_effects(
    effect: &ActiveSkillEffect,
    delta: u128,
    registry: &SkillActionRegistry,
    nodes: &SkillNodeQueries,
    numbers: &NumberTable,
) -> (r: Result<EffectTick, SkillError>)
    ensures
        match effect_ticked(effect@, delta, env(*registry, *nodes, *numbers)) {
            Ok(t) => r matches Ok(x) && x@ == t,
            Err(q) => r matches Err(e) && e@ == ErrorView::Unanswered(q),
        },
{
    let timer = match effect.timer {
        Some(t) => t.tick(delta),
        None => return Ok(EffectTick::Unchanged),
    };
    if !timer.finished {
        return Ok(EffectTick::Running(timer));
    }
    match effect.on_remove {
        None => Ok(EffectTick::Expired(None)),
        Some(node) => {
            let mut ctx = effect.ctx.clone();
            match execute_node(node, &mut ctx, registry, nodes, numbers) {
                Ok(o) => Ok(EffectTick::Expired(Some(o))),
                Err(SkillError::Unanswered(q)) => Err(SkillError::Unanswered(q)),
                Err(error) => Ok(
                    EffectTick::ExpiredWithFailure(
                        SkillExecutionFailed {
                            skill: Some(effect.skill_id.clone()),
                            execution_id: Some(effect.execution_id),
                            skill_entity: None,
                            error,
                        },
                    ),
                ),
            }
        },
    }
}

} // verus!
