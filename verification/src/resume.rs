//! Waking suspended executions.
use crate::action::{settled_view, ResolvedView, SkillActionRegistry, SkillEffectResolved};
use crate::branch::{
    branches_view, copy_branches, no_output, signals_view, ticked, BranchView, ExecutionOutput,
    OutputView, SkillBranch, SkillWait, WaitView,
};
use crate::context::{ContextView, SignalView, SkillContext, SkillRuntimeSignal};
use crate::effect::{question_of, FailedView, SkillExecutionFailed};
use crate::error::{ErrorView, SkillError};
use crate::execute::{env, execute_continuation, frames_run, EnvView};
use crate::node::SkillNodeQueries;
use crate::number::{NumberTable, QuestionView};
use crate::value::{copy_args, SkillId};
use vstd::prelude::*;

verus! {

/// A running execution.
#[derive(Debug)]
pub struct ActiveSkill {
    pub skill_id: SkillId,
    pub execution_id: u64,
    pub compiled_skill: u64,
    pub caster: u64,
    pub target: Option<u64>,
}

pub struct ActiveView {
    pub skill_id: Seq<char>,
    pub execution_id: u64,
    pub compiled_skill: u64,
    pub caster: u64,
    pub target: Option<u64>,
}

impl ActiveSkill {
    pub open spec fn view(&self) -> ActiveView {
        ActiveView {
            skill_id: self.skill_id@,
            execution_id: self.execution_id,
            compiled_skill: self.compiled_skill,
            caster: self.caster,
            target: self.target,
        }
    }
}

impl Clone for ActiveSkill {
    fn clone(&self) -> (r: ActiveSkill)
        ensures
            r == *self,
    {
        ActiveSkill {
            skill_id: self.skill_id.clone(),
            execution_id: self.execution_id,
            compiled_skill: self.compiled_skill,
            caster: self.caster,
            target: self.target,
        }
    }
}

/// The suspended branches of an execution.
#[derive(Debug)]
pub struct SkillExecutionState {
    pub branches: Vec<SkillBranch>,
}

impl SkillExecutionState {
    pub open spec fn view(&self) -> Seq<BranchView> {
        branches_view(self.branches@)
    }

    pub fn new(branches: Vec<SkillBranch>) -> (r: SkillExecutionState)
        ensures
            r@ == branches_view(branches@),
    {
        SkillExecutionState { branches }
    }
}

impl Clone for SkillExecutionState {
    fn clone(&self) -> (r: SkillExecutionState)
        ensures
            r@ == self@,
    {
        SkillExecutionState { branches: copy_branches(&self.branches) }
    }
}

/// The report of a finished execution.
#[derive(Debug)]
pub struct SkillExecutionFinished {
    pub skill: SkillId,
    pub execution_id: u64,
    pub caster: u64,
    pub target: Option<u64>,
}

pub struct FinishedView {
    pub skill: Seq<char>,
    pub execution_id: u64,
    pub caster: u64,
    pub target: Option<u64>,
}

impl SkillExecutionFinished {
    pub open spec fn view(&self) -> FinishedView {
        FinishedView {
            skill: self.skill@,
            execution_id: self.execution_id,
            caster: self.caster,
            target: self.target,
        }
    }
}

/// The report of an execution that is finished.
pub open spec fn finished(a: ActiveView) -> FinishedView {
    FinishedView {
        skill: a.skill_id,
        execution_id: a.execution_id,
        caster: a.caster,
        target: a.target,
    }
}

/// The report of an execution that has failed.
pub open spec fn failure(entity: u64, a: ActiveView, e: ErrorView) -> FailedView {
    FailedView {
        skill: Some(a.skill_id),
        execution_id: Some(a.execution_id),
        skill_entity: Some(entity),
        error: e,
    }
}

/// What wakes branches.
pub enum SkillTrigger<'a> {
    /// Time, in nanoseconds.
    Time(u128),
    Signals(&'a Vec<SkillRuntimeSignal>),
    Settled(&'a Vec<SkillEffectResolved>),
}

pub enum TriggerView {
    Time(u128),
    Signals(Seq<SignalView>),
    Settled(Seq<ResolvedView>),
}

impl<'a> SkillTrigger<'a> {
    pub open spec fn view(&self) -> TriggerView {
        match self {
            SkillTrigger::Time(delta) => TriggerView::Time(*delta),
            SkillTrigger::Signals(l) => TriggerView::Signals(signals_view(l@)),
            SkillTrigger::Settled(l) => TriggerView::Settled(settled_view(l@)),
        }
    }
}

/// A signal is meant for a branch that waits for the name: for every execution, or for its
/// execution, and for every entity, or for its entity.
pub open spec fn signal_matches(s: SignalView, name: Seq<char>, ctx: ContextView) -> bool {
    s.name == name && (s.execution_id is None || s.execution_id->0 == ctx.execution_id) && (
    s.skill_entity is None || s.skill_entity == ctx.skill_entity)
}

/// The first signal from the `k`-th on that is meant for the branch.
pub open spec fn first_signal(l: Seq<SignalView>, k: int, name: Seq<char>, ctx: ContextView) -> Option<
    SignalView,
>
    decreases l.len() - k,
{
    if 0 <= k < l.len() {
        if signal_matches(l[k], name, ctx) {
            Some(l[k])
        } else {
            first_signal(l, k + 1, name, ctx)
        }
    } else {
        None
    }
}

/// The first settlement from the `k`-th on of the request of the execution.
pub open spec fn first_settlement(
    l: Seq<ResolvedView>,
    k: int,
    request_id: u64,
    execution_id: u64,
) -> Option<ResolvedView>
    decreases l.len() - k,
{
    if 0 <= k < l.len() {
        if l[k].execution_id == execution_id && l[k].request_id == request_id {
            Some(l[k])
        } else {
            first_settlement(l, k + 1, request_id, execution_id)
        }
    } else {
        None
    }
}

/// The signal that a settlement is to the branch that it wakes.
pub open spec fn settlement_signal(r: ResolvedView) -> SignalView {
    SignalView {
        name: r.kind + "_resolved"@,
        payload: r.payload,
        execution_id: Some(r.execution_id),
        skill_entity: None,
        caster: r.source,
        target: r.target,
    }
}

/// What a trigger does to a branch.
pub enum WakeView {
    /// It goes on waiting.
    Keep(BranchView),
    /// It runs in this context.
    Run(ContextView),
}

/// What a trigger does to a branch.
pub open spec fn woken(t: TriggerView, b: BranchView) -> WakeView {
    match (t, b.wait) {
        (TriggerView::Time(delta), WaitView::Delay(timer)) => if ticked(timer, delta).finished {
            WakeView::Run(b.ctx)
        } else {
            WakeView::Keep(BranchView { wait: WaitView::Delay(ticked(timer, delta)), ..b })
        },
        (TriggerView::Signals(l), WaitView::Signal(name)) => match first_signal(
            l,
            0,
            name,
            b.ctx,
        ) {
            Some(s) => WakeView::Run(
                ContextView {
                    source_event: Some(s),
                    current_target: match s.target {
                        Some(e) => Some(e),
                        None => b.ctx.current_target,
                    },
                    ..b.ctx
                },
            ),
            None => WakeView::Keep(b),
        },
        (TriggerView::Settled(l), WaitView::EffectResolved { request_id }) => {
            match first_settlement(l, 0, request_id, b.ctx.execution_id) {
                Some(r) => WakeView::Run(
                    ContextView { source_event: Some(settlement_signal(r)), ..b.ctx },
                ),
                None => WakeView::Keep(b),
            }
        },
        _ => WakeView::Keep(b),
    }
}

/// What becomes of an execution.
pub enum EndView {
    Stored(Seq<BranchView>),
    Finished(FinishedView),
    Failed(FailedView),
}

/// What comes out of an execution, branch by branch, and what becomes of it.
pub struct AdvancedView {
    pub outputs: Seq<OutputView>,
    pub end: EndView,
}

/// What becomes of an execution with these branches left.
pub open spec fn left_with(next: Seq<BranchView>, a: ActiveView) -> EndView {
    if next.len() == 0 {
        EndView::Finished(finished(a))
    } else {
        EndView::Stored(next)
    }
}

/// An execution after a trigger, from its `k`-th branch on: each branch that runs is replaced by
/// the branches that come out of it; a failure ends the whole execution.
pub open spec fn advanced(
    t: TriggerView,
    branches: Seq<BranchView>,
    k: int,
    next: Seq<BranchView>,
    outputs: Seq<OutputView>,
    entity: u64,
    a: ActiveView,
    env: EnvView,
) -> Result<AdvancedView, QuestionView>
    decreases branches.len() - k,
{
    if 0 <= k < branches.len() {
        match woken(t, branches[k]) {
            WakeView::Keep(b) => advanced(
                t,
                branches,
                k + 1,
                next.push(b),
                outputs,
                entity,
                a,
                env,
            ),
            WakeView::Run(ctx) => match frames_run(
                branches[k].continuation,
                0,
                no_output(),
                ctx,
                env,
            ).out {
                Ok(o) => advanced(
                    t,
                    branches,
                    k + 1,
                    next + o.branches,
                    outputs.push(o),
                    entity,
                    a,
                    env,
                ),
                Err(e) => match question_of(e) {
                    Some(q) => Err(q),
                    None => Ok(
                        AdvancedView { outputs, end: EndView::Failed(failure(entity, a, e)) },
                    ),
                },
            },
        }
    } else {
        Ok(AdvancedView { outputs, end: left_with(next, a) })
    }
}

/// What becomes of an execution.
#[derive(Debug)]
pub enum AdvanceEnd {
    /// It waits on with these branches.
    Stored(SkillExecutionState),
    Finished(SkillExecutionFinished),
    Failed(SkillExecutionFailed),
}

impl AdvanceEnd {
    pub open spec fn view(&self) -> EndView {
        match self {
            AdvanceEnd::Stored(s) => EndView::Stored(s@),
            AdvanceEnd::Finished(f) => EndView::Finished(f@),
            AdvanceEnd::Failed(f) => EndView::Failed(f@),
        }
    }
}

/// What comes out of an execution, branch by branch, and what becomes of it.
#[derive(Debug)]
pub struct Advance {
    pub outputs: Vec<ExecutionOutput>,
    pub end: AdvanceEnd,
}

pub open spec fn outputs_view(s: Seq<ExecutionOutput>) -> Seq<OutputView> {
    Seq::new(s.len(), |i: int| s[i]@)
}

impl Advance {
    pub open spec fn view(&self) -> AdvancedView {
        AdvancedView { outputs: outputs_view(self.outputs@), end: self.end@ }
    }
}

enum Wake {
    Keep(SkillBranch),
    Run(SkillContext),
}

/// The signal that a settlement is to the branch that it wakes.
pub fn effect_resolved_signal(resolved: &SkillEffectResolved) -> (r: SkillRuntimeSignal)
    ensures
        r@ == settlement_signal(resolved@),
{
    let mut name: String = resolved.kind.clone();
    name.append("_resolved");
    SkillRuntimeSignal {
        name,
        payload: copy_args(&resolved.payload),
        execution_id: Some(resolved.execution_id),
        skill_entity: None,
        caster: resolved.source,
        target: resolved.target,
    }
}

fn find_signal<'a>(l: &'a Vec<SkillRuntimeSignal>, name: &String, ctx: &SkillContext) -> (r: Option<
    &'a SkillRuntimeSignal,
>)
    ensures
        match r {
            Some(s) => first_signal(signals_view(l@), 0, name@, ctx@) == Some(s@),
            None => first_signal(signals_view(l@), 0, name@, ctx@) is None,
        },
{
    let ghost all = signals_view(l@);
    let n: usize = l.len();
    let mut i: usize = 0;
    while i < n
        invariant
            i <= n,
            n == l@.len(),
            all == signals_view(l@),
            first_signal(all, 0, name@, ctx@) == first_signal(all, i as int, name@, ctx@),
        decreases n - i,
    {
        assert(all[i as int] == l@[i as int]@);
        let s = &l[i];
        let for_execution: bool = match s.execution_id {
            Some(id) => id == ctx.execution_id,
            None => true,
        };
        let for_entity: bool = match (s.skill_entity, ctx.skill_entity) {
            (Some(a), Some(b)) => a == b,
            (Some(_), None) => false,
            (None, _) => true,
        };
        if s.name == *name && for_execution && for_entity {
            return Some(s);
        }
        i = i + 1;
    }
    None
}

fn find_settlement<'a>(l: &'a Vec<SkillEffectResolved>, request_id: u64, execution_id: u64) -> (r:
    Option<&'a SkillEffectResolved>)
    ensures
        match r {
            Some(s) => first_settlement(settled_view(l@), 0, request_id, execution_id) == Some(s@),
            None => first_settlement(settled_view(l@), 0, request_id, execution_id) is None,
        },
{
    let ghost all = settled_view(l@);
    let n: usize = l.len();
    let mut i: usize = 0;
    while i < n
        invariant
            i <= n,
            n == l@.len(),
            all == settled_view(l@),
            first_settlement(all, 0, request_id, execution_id) == first_settlement(
                all,
                i as int,
                request_id,
                execution_id,
            ),
        decreases n - i,
    {
        assert(all[i as int] == l@[i as int]@);
        if l[i].execution_id == execution_id && l[i].request_id == request_id {
            return Some(&l[i]);
        }
        i = i + 1;
    }
    None
}

fn wake(trigger: &SkillTrigger, branch: &SkillBranch) -> (r: Wake)
    ensures
        match woken(trigger@, branch@) {
            WakeView::Keep(b) => r matches Wake::Keep(x) && x@ == b,
            WakeView::Run(c) => r matches Wake::Run(x) && x@ == c,
        },
{
    match (trigger, &branch.wait) {
        (SkillTrigger::Time(delta), SkillWait::Delay(timer)) => {
            let after = timer.tick(*delta);
            if after.finished {
                Wake::Run(branch.ctx.clone())
            } else {
                let mut kept = branch.clone();
                kept.wait = SkillWait::Delay(after);
                Wake::Keep(kept)
            }
        },
        (SkillTrigger::Signals(l), SkillWait::Signal(name)) => match find_signal(
            l,
            name,
            &branch.ctx,
        ) {
            Some(s) => {
                let mut ctx = branch.ctx.clone();
                ctx.source_event = Some(s.clone());
                if s.target.is_some() {
                    ctx.current_target = s.target;
                }
                Wake::Run(ctx)
            },
            None => Wake::Keep(branch.clone()),
        },
        (SkillTrigger::Settled(l), SkillWait::EffectResolved { request_id }) => {
            match find_settlement(l, *request_id, branch.ctx.execution_id) {
                Some(s) => {
                    let mut ctx = branch.ctx.clone();
                    ctx.source_event = Some(effect_resolved_signal(s));
                    Wake::Run(ctx)
                },
                None => Wake::Keep(branch.clone()),
            }
        },
        _ => Wake::Keep(branch.clone()),
    }
}

/// What becomes of an execution with these branches left.
pub fn finish_or_store(active: &ActiveSkill, next: Vec<SkillBranch>) -> (r: AdvanceEnd)
    ensures
        r@ == left_with(branches_view(next@), active@),
{
    if next.len() == 0 {
        AdvanceEnd::Finished(
            SkillExecutionFinished {
                skill: active.skill_id.clone(),
                execution_id: active.execution_id,
                caster: active.caster,
                target: active.target,
            },
        )
    } else {
        AdvanceEnd::Stored(SkillExecutionState::new(next))
    }
}

/// Lets a trigger work on an execution, as [`advanced`] describes.
pub fn advance(
    trigger: &SkillTrigger,
    entity: u64,
    active: &ActiveSkill,
    state: &SkillExecutionState,
    registry: &SkillActionRegistry,
    nodes: &SkillNodeQueries,
    numbers: &NumberTable,
) -> (r: Result<Advance, SkillError>)
    ensures
        match advanced(
            trigger@,
            state@,
            0,
            Seq::empty(),
            Seq::empty(),
            entity,
            active@,
            env(*registry, *nodes, *numbers),
        ) {
            Ok(x) => r matches Ok(a) && a@ == x,
            Err(q) => r matches Err(e) && e@ == ErrorView::Unanswered(q),
        },
{
    let ghost e = env(*registry, *nodes, *numbers);
    let mut next: Vec<SkillBranch> = Vec::new();
    let mut outputs: Vec<ExecutionOutput> = Vec::new();
    assert(branches_view(next@) =~= Seq::empty());
    assert(outputs_view(outputs@) =~= Seq::empty());
    let n: usize = state.branches.len();
    let mut i: usize = 0;
    while i < n
        invariant
            i <= n,
            n == state.branches@.len(),
            e == env(*registry, *nodes, *numbers),
            advanced(trigger@, state@, 0, Seq::empty(), Seq::empty(), entity, active@, e)
                == advanced(
                trigger@,
                state@,
                i as int,
                branches_view(next@),
                outputs_view(outputs@),
                entity,
                active@,
                e,
            ),
        decreases n - i,
    {
        let branch = &state.branches[i];
        assert(state@[i as int] == branch@);
        let ghost kept = next@;
        let ghost written = outputs@;
        match wake(trigger, branch) {
            Wake::Keep(b) => {
                next.push(b);
                assert(branches_view(next@) =~= branches_view(kept).push(b@));
            },
            Wake::Run(ctx) => {
                let mut ctx = ctx;
                match execute_continuation(
                    &branch.continuation,
                    &mut ctx,
                    registry,
                    nodes,
                    numbers,
                ) {
                    Ok(output) => {
                        let mut more = copy_branches(&output.branches);
                        let ghost added = more@;
                        next.append(&mut more);
                        assert(branches_view(next@) =~= branches_view(kept) + branches_view(added));
                        outputs.push(output);
                        assert(outputs_view(outputs@) =~= outputs_view(written).push(output@));
                    },
                    Err(SkillError::Unanswered(q)) => return Err(SkillError::Unanswered(q)),
                    Err(error) => {
                        let end = AdvanceEnd::Failed(
                            SkillExecutionFailed {
                                skill: Some(active.skill_id.clone()),
                                execution_id: Some(active.execution_id),
                                skill_entity: Some(entity),
                                error,
                            },
                        );
                        return Ok(Advance { outputs, end });
                    },
                }
            },
        }
        i = i + 1;
    }
    let end = finish_or_store(active, next);
    Ok(Advance { outputs, end })
}

/// Lets time pass for an execution.
pub fn tick_skill_delays(
    entity: u64,
    active: &ActiveSkill,
    state: &SkillExecutionState,
    delta: u128,
    registry: &SkillActionRegistry,
    nodes: &SkillNodeQueries,
    numbers: &NumberTable,
) -> (r: Result<Advance, SkillError>)
    ensures
        match advanced(
            TriggerView::Time(delta),
            state@,
            0,
            Seq::empty(),
            Seq::empty(),
            entity,
            active@,
            env(*registry, *nodes, *numbers),
        ) {
            Ok(x) => r matches Ok(a) && a@ == x,
            Err(q) => r matches Err(e) && e@ == ErrorView::Unanswered(q),
        },
{
    advance(&SkillTrigger::Time(delta), entity, active, state, registry, nodes, numbers)
}

/// Lets signals reach an execution. Without signals nothing happens to it.
pub fn resume_skill_signals(
    entity: u64,
    active: &ActiveSkill,
    state: &SkillExecutionState,
    incoming: &Vec<SkillRuntimeSignal>,
    registry: &SkillActionRegistry,
    nodes: &SkillNodeQueries,
    numbers: &NumberTable,
) -> (r: Result<Option<Advance>, SkillError>)
    ensures
        incoming@.len() == 0 ==> r matches Ok(None),
        incoming@.len() > 0 ==> match advanced(
            TriggerView::Signals(signals_view(incoming@)),
            state@,
            0,
            Seq::empty(),
            Seq::empty(),
            entity,
            active@,
            env(*registry, *nodes, *numbers),
        ) {
            Ok(x) => r matches Ok(Some(a)) && a@ == x,
            Err(q) => r matches Err(e) && e@ == ErrorView::Unanswered(q),
        },
{
    if incoming.len() == 0 {
        return Ok(None);
    }
    match advance(
        &SkillTrigger::Signals(incoming),
        entity,
        active,
        state,
        registry,
        nodes,
        numbers,
    ) {
        Ok(a) => Ok(Some(a)),
        Err(e) => Err(e),
    }
}

/// Lets settlements reach an execution. Without settlements nothing happens to it.
pub fn resume_effect_resolved(
    entity: u64,
    active: &ActiveSkill,
    state: &SkillExecutionState,
    incoming: &Vec<SkillEffectResolved>,
    registry: &SkillActionRegistry,
    nodes: &SkillNodeQueries,
    numbers: &NumberTable,
) -> (r: Result<Option<Advance>, SkillError>)
    ensures
        incoming@.len() == 0 ==> r matches Ok(None),
        incoming@.len() > 0 ==> match advanced(
            TriggerView::Settled(settled_view(incoming@)),
            state@,
            0,
            Seq::empty(),
            Seq::empty(),
            entity,
            active@,
            env(*registry, *nodes, *numbers),
        ) {
            Ok(x) => r matches Ok(Some(a)) && a@ == x,
            Err(q) => r matches Err(e) && e@ == ErrorView::Unanswered(q),
        },
{
    if incoming.len() == 0 {
        return Ok(None);
    }
    match advance(
        &SkillTrigger::Settled(incoming),
        entity,
        active,
        state,
        registry,
        nodes,
        numbers,
    ) {
        Ok(a) => Ok(Some(a)),
        Err(e) => Err(e),
    }
}

} // verus!
