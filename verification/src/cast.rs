//! Casting skills.
use crate::action::SkillActionRegistry;
use crate::branch::{ExecutionOutput, OutputView};
use crate::context::{
    fresh_context, ContextView, SkillContext, SkillRuntimeConfig, SkillTags,
};
use crate::def::{requirements_view, RequirementView, SkillRequirement};
use crate::effect::{question_of, FailedView, SkillExecutionFailed};
use crate::error::{ErrorView, SkillError};
use crate::execute::{env, execute_node, node_run, EnvView};
use crate::keys::{copy_keys, key_list};
use crate::ledger::{LedgerMap, SkillCooldowns, SkillResourcePools};
use crate::library::{LibraryView, SkillLibrary};
use crate::node::SkillNodeQueries;
use crate::number::{NumberTable, QuestionView};
use crate::requirement::{
    payment, validate_and_pay_requirements, FailureView, PayError, PaymentView, RequirementFailure,
};
use crate::resume::{
    failure, finished, ActiveSkill, ActiveView, FinishedView, SkillExecutionFinished,
};
use crate::value::{args_view, copy_args, ArgsView, SkillId, SkillParams};
use vstd::prelude::*;

verus! {

/// Numbers executions.
#[derive(Clone, Copy, Debug)]
pub struct SkillRuntimeCounters {
    next_execution_id: u64,
}

impl SkillRuntimeCounters {
    /// The number of the last execution.
    pub closed spec fn last(&self) -> u64 {
        self.next_execution_id
    }

    pub fn new() -> (r: SkillRuntimeCounters)
        ensures
            r.last() == 0,
    {
        SkillRuntimeCounters { next_execution_id: 0 }
    }

    /// Whether all numbers have been used.
    pub fn is_exhausted(&self) -> (r: bool)
        ensures
            r == (self.last() == u64::MAX),
    {
        self.next_execution_id == u64::MAX
    }

    /// The number of the next execution.
    pub fn next_execution_id(&mut self) -> (r: u64)
        requires
            old(self).last() < u64::MAX,
        ensures
            r == old(self).last() + 1,
            final(self).last() == r,
    {
        self.next_execution_id = self.next_execution_id + 1;
        self.next_execution_id
    }
}

/// The wish to cast a skill.
#[derive(Debug)]
pub struct SkillCastRequest {
    pub skill: SkillId,
    pub caster: u64,
    pub target: Option<u64>,
}

pub struct CastRequestView {
    pub skill: Seq<char>,
    pub caster: u64,
    pub target: Option<u64>,
}

impl SkillCastRequest {
    pub open spec fn view(&self) -> CastRequestView {
        CastRequestView { skill: self.skill@, caster: self.caster, target: self.target }
    }
}

/// The report of a cast that has begun.
#[derive(Debug)]
pub struct SkillCastAccepted {
    pub skill: SkillId,
    pub execution_id: u64,
    pub caster: u64,
    pub target: Option<u64>,
}

/// Why a cast was refused.
#[derive(Debug)]
pub enum CastRejection {
    Text(String),
    Requirement(RequirementFailure),
}

pub enum RejectionView {
    Text(Seq<char>),
    Requirement(FailureView),
}

impl CastRejection {
    pub open spec fn view(&self) -> RejectionView {
        match self {
            CastRejection::Text(t) => RejectionView::Text(t@),
            CastRejection::Requirement(f) => RejectionView::Requirement(f@),
        }
    }
}

/// The report of a cast that was refused.
#[derive(Debug)]
pub struct SkillCastRejected {
    pub skill: SkillId,
    pub caster: u64,
    pub target: Option<u64>,
    pub message: CastRejection,
}

/// A compiled skill in the world. An entity without one of the components of a compiled skill has
/// no record.
#[derive(Debug)]
pub struct CompiledSkillRecord {
    pub entity: u64,
    pub id: SkillId,
    pub params: SkillParams,
    pub tags: SkillTags,
    pub requirements: Vec<SkillRequirement>,
    pub roots: Option<Vec<u64>>,
}

pub struct CompiledRecordView {
    pub entity: u64,
    pub id: Seq<char>,
    pub params: ArgsView,
    pub tags: Seq<Seq<char>>,
    pub requirements: Seq<RequirementView>,
    pub roots: Option<Seq<u64>>,
}

/// Root nodes that may be absent.
pub open spec fn roots_view(roots: Option<Vec<u64>>) -> Option<Seq<u64>> {
    match roots {
        Some(l) => Some(l@),
        None => None,
    }
}

/// The first of the root nodes.
pub open spec fn first_root(roots: Option<Seq<u64>>) -> Option<u64> {
    match roots {
        Some(l) => if l.len() > 0 {
            Some(l[0])
        } else {
            None
        },
        None => None,
    }
}

/// The first of the root nodes.
pub fn root_node_from_roots(roots: &Option<Vec<u64>>) -> (r: Option<u64>)
    ensures
        r == first_root(roots_view(*roots)),
{
    match roots {
        Some(l) => if l.len() > 0 {
            Some(l[0])
        } else {
            None
        },
        None => None,
    }
}

impl CompiledSkillRecord {
    pub open spec fn view(&self) -> CompiledRecordView {
        CompiledRecordView {
            entity: self.entity,
            id: self.id@,
            params: args_view(self.params),
            tags: key_list(self.tags),
            requirements: requirements_view(self.requirements@),
            roots: roots_view(self.roots),
        }
    }
}

pub open spec fn records_view(s: Seq<CompiledSkillRecord>) -> Seq<CompiledRecordView> {
    Seq::new(s.len(), |i: int| s[i]@)
}

/// The first record of an entity, from place `k` on.
pub open spec fn compiled_record(s: Seq<CompiledRecordView>, e: u64, k: int) -> Option<
    CompiledRecordView,
>
    decreases s.len() - k,
{
    if 0 <= k < s.len() {
        if s[k].entity == e {
            Some(s[k])
        } else {
            compiled_record(s, e, k + 1)
        }
    } else {
        None
    }
}

fn find_compiled(l: &Vec<CompiledSkillRecord>, entity: u64) -> (r: Option<&CompiledSkillRecord>)
    ensures
        match r {
            Some(x) => compiled_record(records_view(l@), entity, 0) == Some(x@),
            None => compiled_record(records_view(l@), entity, 0) is None,
        },
{
    let ghost s = records_view(l@);
    let n: usize = l.len();
    let mut i: usize = 0;
    while i < n
        invariant
            i <= n,
            n == l@.len(),
            s == records_view(l@),
            compiled_record(s, entity, 0) == compiled_record(s, entity, i as int),
        decreases n - i,
    {
        assert(s[i as int] == l@[i as int]@);
        if l[i].entity == entity {
            return Some(&l[i]);
        }
        i = i + 1;
    }
    None
}

/// What comes of a cast.
#[derive(Debug)]
pub enum CastOutcome {
    Rejected(SkillCastRejected),
    /// It ran to its end at once.
    Finished { active: ActiveSkill, output: ExecutionOutput, finished: SkillExecutionFinished },
    /// It waits; the output holds the branches as well.
    Suspended { active: ActiveSkill, output: ExecutionOutput },
    /// It failed at once.
    Failed { active: ActiveSkill, failed: SkillExecutionFailed },
}

pub enum CastOutcomeView {
    Rejected { request: CastRequestView, message: RejectionView },
    Finished { active: ActiveView, output: OutputView, finished: FinishedView },
    Suspended { active: ActiveView, output: OutputView },
    Failed { active: ActiveView, failed: FailedView },
}

impl CastOutcome {
    pub open spec fn view(&self) -> CastOutcomeView {
        match self {
            CastOutcome::Rejected(x) => CastOutcomeView::Rejected {
                request: CastRequestView {
                    skill: x.skill@,
                    caster: x.caster,
                    target: x.target,
                },
                message: x.message@,
            },
            CastOutcome::Finished { active, output, finished } => CastOutcomeView::Finished {
                active: active@,
                output: output@,
                finished: finished@,
            },
            CastOutcome::Suspended { active, output } => CastOutcomeView::Suspended {
                active: active@,
                output: output@,
            },
            CastOutcome::Failed { active, failed } => CastOutcomeView::Failed {
                active: active@,
                failed: failed@,
            },
        }
    }

    /// The report that a cast has begun, unless it was refused.
    pub fn accepted(&self) -> (r: Option<SkillCastAccepted>)
        ensures
            match self {
                CastOutcome::Rejected(_) => r is None,
                CastOutcome::Finished { active, .. } => r matches Some(x) && accepts(x, active@),
                CastOutcome::Suspended { active, .. } => r matches Some(x) && accepts(x, active@),
                CastOutcome::Failed { active, .. } => r matches Some(x) && accepts(x, active@),
            },
    {
        let active = match self {
            CastOutcome::Rejected(_) => return None,
            CastOutcome::Finished { active, .. } => active,
            CastOutcome::Suspended { active, .. } => active,
            CastOutcome::Failed { active, .. } => active,
        };
        Some(
            SkillCastAccepted {
                skill: active.skill_id.clone(),
                execution_id: active.execution_id,
                caster: active.caster,
                target: active.target,
            },
        )
    }
}

/// The report is that of the execution.
pub open spec fn accepts(x: SkillCastAccepted, a: ActiveView) -> bool {
    x.skill@ == a.skill_id && x.execution_id == a.execution_id && x.caster == a.caster && x.target
        == a.target
}

/// What casts change.
pub struct StakesView {
    pub pools: LedgerMap,
    pub cooldowns: LedgerMap,
    pub last: u64,
}

/// A cast that was refused for a fixed reason.
pub open spec fn refused(q: CastRequestView, t: Seq<char>) -> CastOutcomeView {
    CastOutcomeView::Rejected { request: q, message: RejectionView::Text(t) }
}

/// The context in which the requirements of a skill are worked out.
pub open spec fn requirement_context(c: CompiledRecordView, q: CastRequestView) -> ContextView {
    ContextView {
        current_target: q.target,
        ..fresh_context(c.id, c.params, c.tags, Some(q.caster), 0)
    }
}

/// The context in which a skill begins to run.
pub open spec fn cast_context(
    c: CompiledRecordView,
    q: CastRequestView,
    execution_id: u64,
    skill_entity: u64,
    step_budget: u32,
) -> ContextView {
    ContextView {
        step_budget,
        step_budget_remaining: step_budget,
        current_target: q.target,
        skill_entity: Some(skill_entity),
        ..fresh_context(c.id, c.params, c.tags, Some(q.caster), execution_id)
    }
}

/// What comes of a skill that begins to run.
pub open spec fn begun(
    c: CompiledRecordView,
    root: u64,
    q: CastRequestView,
    execution_id: u64,
    skill_entity: u64,
    step_budget: u32,
    env: EnvView,
) -> Result<CastOutcomeView, QuestionView> {
    let active = ActiveView {
        skill_id: c.id,
        execution_id,
        compiled_skill: c.entity,
        caster: q.caster,
        target: q.target,
    };
    match node_run(root, cast_context(c, q, execution_id, skill_entity, step_budget), env).out {
        Ok(output) => if output.branches.len() == 0 {
            Ok(CastOutcomeView::Finished { active, output, finished: finished(active) })
        } else {
            Ok(CastOutcomeView::Suspended { active, output })
        },
        Err(e) => match question_of(e) {
            Some(q) => Err(q),
            None => Ok(
                CastOutcomeView::Failed { active, failed: failure(skill_entity, active, e) },
            ),
        },
    }
}

/// What comes of a cast, and what it changes: the skill is looked up, its requirements are paid
/// for, and it begins to run under the next number.
pub open spec fn cast(
    q: CastRequestView,
    skill_entity: u64,
    library: LibraryView,
    compiled: Seq<CompiledRecordView>,
    step_budget: u32,
    s: StakesView,
    env: EnvView,
) -> Result<(CastOutcomeView, StakesView), QuestionView> {
    if !library.entities.contains_key(q.skill) {
        Ok((refused(q, "compiled skill not found"@), s))
    } else {
        match compiled_record(compiled, library.entities[q.skill], 0) {
            None => Ok((refused(q, "compiled skill entity is missing runtime components"@), s)),
            Some(c) => match first_root(c.roots) {
                None => Ok((refused(q, "compiled skill has no materialized root node"@), s)),
                Some(root) => match payment(
                    c.id,
                    c.requirements,
                    q.caster,
                    requirement_context(c, q),
                    s.pools,
                    s.cooldowns,
                    env.numbers,
                ) {
                    PaymentView::Ask(x) => Err(x),
                    PaymentView::Refused { failure, pools } => Ok(
                        (
                            CastOutcomeView::Rejected {
                                request: q,
                                message: RejectionView::Requirement(failure),
                            },
                            StakesView { pools, ..s },
                        ),
                    ),
                    PaymentView::Paid { pools, cooldowns } => {
                        let execution_id = (s.last + 1) as u64;
                        match begun(c, root, q, execution_id, skill_entity, step_budget, env) {
                            Ok(outcome) => Ok(
                                (outcome, StakesView { pools, cooldowns, last: execution_id }),
                            ),
                            Err(x) => Err(x),
                        }
                    },
                },
            },
        }
    }
}

fn reject(request: &SkillCastRequest, message: CastRejection) -> (r: CastOutcome)
    ensures
        r@ == (CastOutcomeView::Rejected { request: request@, message: message@ }),
{
    CastOutcome::Rejected(
        SkillCastRejected {
            skill: request.skill.clone(),
            caster: request.caster,
            target: request.target,
            message,
        },
    )
}

fn begin(
    record: &CompiledSkillRecord,
    root: u64,
    request: &SkillCastRequest,
    execution_id: u64,
    skill_entity: u64,
    config: &SkillRuntimeConfig,
    registry: &SkillActionRegistry,
    nodes: &SkillNodeQueries,
    numbers: &NumberTable,
) -> (r: Result<CastOutcome, SkillError>)
    ensures
        match begun(
            record@,
            root,
            request@,
            execution_id,
            skill_entity,
            config.step_budget,
            env(*registry, *nodes, *numbers),
        ) {
            Ok(x) => r matches Ok(o) && o@ == x,
            Err(q) => r matches Err(e) && e@ == ErrorView::Unanswered(q),
        },
{
    let active = ActiveSkill {
        skill_id: record.id.clone(),
        execution_id,
        compiled_skill: record.entity,
        caster: request.caster,
        target: request.target,
    };
    let mut ctx = SkillContext::new(
        record.id.clone(),
        copy_args(&record.params),
        copy_keys(&record.tags),
        Some(request.caster),
        execution_id,
    );
    ctx.step_budget = config.step_budget;
    ctx.step_budget_remaining = config.step_budget;
    ctx.current_target = request.target;
    ctx.skill_entity = Some(skill_entity);
    match execute_node(root, &mut ctx, registry, nodes, numbers) {
        Ok(output) => {
            if output.branches.len() == 0 {
                let finished = SkillExecutionFinished {
                    skill: record.id.clone(),
                    execution_id,
                    caster: request.caster,
                    target: request.target,
                };
                Ok(CastOutcome::Finished { active, output, finished })
            } else {
                Ok(CastOutcome::Suspended { active, output })
            }
        },
        Err(SkillError::Unanswered(q)) => Err(SkillError::Unanswered(q)),
        Err(error) => {
            let failed = SkillExecutionFailed {
                skill: Some(record.id.clone()),
                execution_id: Some(execution_id),
                skill_entity: Some(skill_entity),
                error,
            };
            Ok(CastOutcome::Failed { active, failed })
        },
    }
}

/// What casts change.
pub open spec fn stakes(
    pools: SkillResourcePools,
    cooldowns: SkillCooldowns,
    counters: SkillRuntimeCounters,
) -> StakesView {
    StakesView { pools: pools@, cooldowns: cooldowns@, last: counters.last() }
}

/// Casts a skill. A question leaves everything as it was.
pub fn handle_skill_cast_request(
    request: &SkillCastRequest,
    skill_entity: u64,
    library: &SkillLibrary,
    compiled: &Vec<CompiledSkillRecord>,
    registry: &SkillActionRegistry,
    config: &SkillRuntimeConfig,
    resources: &mut SkillResourcePools,
    cooldowns: &mut SkillCooldowns,
    counters: &mut SkillRuntimeCounters,
    nodes: &SkillNodeQueries,
    numbers: &NumberTable,
) -> (r: Result<CastOutcome, SkillError>)
    requires
        old(counters).last() < u64::MAX,
    ensures
        match cast(
            request@,
            skill_entity,
            library@,
            records_view(compiled@),
            config.step_budget,
            stakes(*old(resources), *old(cooldowns), *old(counters)),
            env(*registry, *nodes, *numbers),
        ) {
            Ok((outcome, s)) => r matches Ok(o) && o@ == outcome && stakes(
                *final(resources),
                *final(cooldowns),
                *final(counters),
            ) == s,
            Err(q) => r matches Err(e) && e@ == ErrorView::Unanswered(q) && *final(resources)
                == *old(resources) && *final(cooldowns) == *old(cooldowns) && *final(counters)
                == *old(counters),
        },
        final(counters).last() <= old(counters).last() + 1,
{
    let entity = match library.get_entity(&request.skill) {
        Some(e) => e,
        None => return Ok(
            reject(request, CastRejection::Text("compiled skill not found".to_owned())),
        ),
    };
    let record = match find_compiled(compiled, entity) {
        Some(c) => c,
        None => return Ok(
            reject(
                request,
                CastRejection::Text(
                    "compiled skill entity is missing runtime components".to_owned(),
                ),
            ),
        ),
    };
    let root = match root_node_from_roots(&record.roots) {
        Some(n) => n,
        None => return Ok(
            reject(
                request,
                CastRejection::Text("compiled skill has no materialized root node".to_owned()),
            ),
        ),
    };
    let mut ctx = SkillContext::new(
        record.id.clone(),
        copy_args(&record.params),
        copy_keys(&record.tags),
        Some(request.caster),
        0,
    );
    ctx.current_target = request.target;
    let mut left = resources.copy();
    let mut cooling = cooldowns.copy();
    match validate_and_pay_requirements(
        &record.id,
        &record.requirements,
        request.caster,
        &ctx,
        &mut left,
        &mut cooling,
        numbers,
    ) {
        Ok(_) => {},
        Err(PayError::Ask(q)) => return Err(SkillError::Unanswered(q)),
        Err(PayError::Refused(f)) => {
            *resources = left;
            return Ok(reject(request, CastRejection::Requirement(f)));
        },
    }
    let mut counted = *counters;
    let execution_id: u64 = counted.next_execution_id();
    let outcome = match begin(
        record,
        root,
        request,
        execution_id,
        skill_entity,
        config,
        registry,
        nodes,
        numbers,
    ) {
        Ok(o) => o,
        Err(e) => return Err(e),
    };
    *resources = left;
    *cooldowns = cooling;
    *counters = counted;
    Ok(outcome)
}

pub open spec fn cast_requests_view(s: Seq<SkillCastRequest>) -> Seq<CastRequestView> {
    Seq::new(s.len(), |i: int| s[i]@)
}

pub open spec fn outcomes_view(s: Seq<CastOutcome>) -> Seq<CastOutcomeView> {
    Seq::new(s.len(), |i: int| s[i]@)
}

/// What comes of casts one after another, from the `k`-th on, behind what has come so far.
pub open spec fn casts(
    requests: Seq<CastRequestView>,
    entities: Seq<u64>,
    k: int,
    so_far: Seq<CastOutcomeView>,
    library: LibraryView,
    compiled: Seq<CompiledRecordView>,
    step_budget: u32,
    s: StakesView,
    env: EnvView,
) -> Result<(Seq<CastOutcomeView>, StakesView), QuestionView>
    decreases requests.len() - k,
{
    if 0 <= k < requests.len() {
        match cast(requests[k], entities[k], library, compiled, step_budget, s, env) {
            Ok((outcome, after)) => casts(
                requests,
                entities,
                k + 1,
                so_far.push(outcome),
                library,
                compiled,
                step_budget,
                after,
                env,
            ),
            Err(q) => Err(q),
        }
    } else {
        Ok((so_far, s))
    }
}

/// Casts skills one after another; each has a fresh entity to run in. A question leaves everything
/// as it was.
pub fn handle_skill_cast_requests(
    requests: &Vec<SkillCastRequest>,
    entities: &Vec<u64>,
    library: &SkillLibrary,
    compiled: &Vec<CompiledSkillRecord>,
    registry: &SkillActionRegistry,
    config: &SkillRuntimeConfig,
    resources: &mut SkillResourcePools,
    cooldowns: &mut SkillCooldowns,
    counters: &mut SkillRuntimeCounters,
    nodes: &SkillNodeQueries,
    numbers: &NumberTable,
) -> (r: Result<Vec<CastOutcome>, SkillError>)
    requires
        entities@.len() == requests@.len(),
        old(counters).last() + requests@.len() <= u64::MAX,
    ensures
        match casts(
            cast_requests_view(requests@),
            entities@,
            0,
            Seq::empty(),
            library@,
            records_view(compiled@),
            config.step_budget,
            stakes(*old(resources), *old(cooldowns), *old(counters)),
            env(*registry, *nodes, *numbers),
        ) {
            Ok((outcomes, s)) => r matches Ok(l) && outcomes_view(l@) == outcomes && stakes(
                *final(resources),
                *final(cooldowns),
                *final(counters),
            ) == s,
            Err(q) => r matches Err(e) && e@ == ErrorView::Unanswered(q) && *final(resources)
                == *old(resources) && *final(cooldowns) == *old(cooldowns) && *final(counters)
                == *old(counters),
        },
{
    let ghost all = cast_requests_view(requests@);
    let ghost e = env(*registry, *nodes, *numbers);
    let ghost start = stakes(*resources, *cooldowns, *counters);
    let mut left = resources.copy();
    let mut cooling = cooldowns.copy();
    let mut counted = *counters;
    let mut outcomes: Vec<CastOutcome> = Vec::new();
    assert(outcomes_view(outcomes@) =~= Seq::empty());
    let n: usize = requests.len();
    let mut i: usize = 0;
    while i < n
        invariant
            i <= n,
            n == requests@.len(),
            entities@.len() == n,
            all == cast_requests_view(requests@),
            e == env(*registry, *nodes, *numbers),
            counted.last() + (n - i) <= u64::MAX,
            *resources == *old(resources),
            *cooldowns == *old(cooldowns),
            *counters == *old(counters),
            start == stakes(*old(resources), *old(cooldowns), *old(counters)),
            casts(
                all,
                entities@,
                0,
                Seq::empty(),
                library@,
                records_view(compiled@),
                config.step_budget,
                start,
                e,
            ) == casts(
                all,
                entities@,
                i as int,
                outcomes_view(outcomes@),
                library@,
                records_view(compiled@),
                config.step_budget,
                stakes(left, cooling, counted),
                e,
            ),
        decreases n - i,
    {
        assert(all[i as int] == requests@[i as int]@);
        let ghost before = outcomes@;
        let outcome = match handle_skill_cast_request(
            &requests[i],
            entities[i],
            library,
            compiled,
            registry,
            config,
            &mut left,
            &mut cooling,
            &mut counted,
            nodes,
            numbers,
        ) {
            Ok(o) => o,
            Err(e) => return Err(e),
        };
        outcomes.push(outcome);
        assert(outcomes_view(outcomes@) =~= outcomes_view(before).push(outcome@));
        i = i + 1;
    }
    *resources = left;
    *cooldowns = cooling;
    *counters = counted;
    Ok(outcomes)
}

/// The law of refused casts: a cast that is refused starts nothing, uses up no number and starts no
/// cooldown.
pub proof fn law_refused_cast_starts_nothing(
    q: CastRequestView,
    skill_entity: u64,
    library: LibraryView,
    compiled: Seq<CompiledRecordView>,
    step_budget: u32,
    s: StakesView,
    env: EnvView,
)
    requires
        cast(q, skill_entity, library, compiled, step_budget, s, env) is Ok,
        cast(q, skill_entity, library, compiled, step_budget, s, env)->Ok_0.0 is Rejected,
    ensures
        cast(q, skill_entity, library, compiled, step_budget, s, env)->Ok_0.1.last == s.last,
        cast(q, skill_entity, library, compiled, step_budget, s, env)->Ok_0.1.cooldowns
            == s.cooldowns,
{
}

/// The law of unknown skills: a skill that is not in the library is refused, and nothing changes.
pub proof fn law_unknown_skill_is_refused(
    q: CastRequestView,
    skill_entity: u64,
    library: LibraryView,
    compiled: Seq<CompiledRecordView>,
    step_budget: u32,
    s: StakesView,
    env: EnvView,
)
    requires
        !library.entities.contains_key(q.skill),
    ensures
        cast(q, skill_entity, library, compiled, step_budget, s, env) == Ok::<
            (CastOutcomeView, StakesView),
            QuestionView,
        >((refused(q, "compiled skill not found"@), s)),
{
}

/// The law of accepted casts: each execution has a number of its own, one above the last.
pub proof fn law_accepted_cast_takes_next_number(
    q: CastRequestView,
    skill_entity: u64,
    library: LibraryView,
    compiled: Seq<CompiledRecordView>,
    step_budget: u32,
    s: StakesView,
    env: EnvView,
)
    requires
        s.last < u64::MAX,
        cast(q, skill_entity, library, compiled, step_budget, s, env) is Ok,
        !(cast(q, skill_entity, library, compiled, step_budget, s, env)->Ok_0.0 is Rejected),
    ensures
        cast(q, skill_entity, library, compiled, step_budget, s, env)->Ok_0.1.last == s.last + 1,
        match cast(q, skill_entity, library, compiled, step_budget, s, env)->Ok_0.0 {
            CastOutcomeView::Finished { active, output, finished } => active.execution_id == s.last
                + 1 && active.caster == q.caster && active.target == q.target,
            CastOutcomeView::Suspended { active, output } => active.execution_id == s.last + 1
                && active.caster == q.caster && active.target == q.target,
            CastOutcomeView::Failed { active, failed } => active.execution_id == s.last + 1
                && active.caster == q.caster && active.target == q.target,
            CastOutcomeView::Rejected { request, message } => true,
        },
{
}

} // verus!
