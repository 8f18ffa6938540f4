//! Components, stages and relations that a game world keeps for skills.
use crate::context::{SkillTags, DEFAULT_STEP_BUDGET};
use crate::def::SkillCompiled;
use crate::error::SkillNodeId;
use crate::keys::{copy_keys, key_list};
use crate::value::{args_view, copy_args, no_args, SkillArgs, SkillId};
use vstd::prelude::*;

verus! {

/// The name of a graph.
#[derive(Debug, Hash)]
pub struct SkillGraphHandle(pub String);

impl From<SkillId> for SkillGraphHandle {
    fn from(value: SkillId) -> (r: SkillGraphHandle)
        ensures
            r.0 == value.0,
    {
        SkillGraphHandle(value.0)
    }
}

impl vstd::std_specs::convert::FromSpecImpl<SkillId> for SkillGraphHandle {
    open spec fn obeys_from_spec() -> bool {
        true
    }

    open spec fn from_spec(value: SkillId) -> SkillGraphHandle {
        SkillGraphHandle(value.0)
    }
}

impl Clone for SkillGraphHandle {
    fn clone(&self) -> (r: SkillGraphHandle)
        ensures
            r == *self,
    {
        SkillGraphHandle(self.0.clone())
    }
}

/// The graph entity of a root node.
#[derive(Clone, Copy, Debug, PartialEq, Eq, Structural)]
pub struct SkillRootOf {
    pub graph: u64,
}

/// The compiled skill of an execution.
#[derive(Clone, Copy, Debug, PartialEq, Eq, Structural)]
pub struct ExecutionOfSkill {
    pub skill: u64,
}

/// The owner of an execution.
#[derive(Clone, Copy, Debug, PartialEq, Eq, Structural)]
pub struct ExecutionOwnedBy {
    pub owner: u64,
}

/// The execution that a projectile comes from.
#[derive(Clone, Copy, Debug, PartialEq, Eq, Structural)]
pub struct ProjectileFromExecution {
    pub execution: u64,
}

/// The execution that a buff comes from.
#[derive(Clone, Copy, Debug, PartialEq, Eq, Structural)]
pub struct BuffFromExecution {
    pub execution: u64,
}

/// The target of an aura.
#[derive(Clone, Copy, Debug, PartialEq, Eq, Structural)]
pub struct AuraAffectsTarget {
    pub target: u64,
}

/// How far an execution has come.
#[derive(Debug)]
pub enum ExecutionState {
    Running,
    Waiting,
    Finished,
    Failed(String),
    Cancelled,
}

/// An execution of a skill.
#[derive(Debug)]
pub struct SkillExecution {
    pub id: u64,
    pub skill: SkillId,
    pub state: ExecutionState,
}

/// A node that is still to be run.
#[derive(Clone, Copy, Debug, PartialEq, Eq, Structural)]
pub struct PendingSkillNode {
    pub node: SkillNodeId,
}

/// The nodes that are still to be run.
#[derive(Debug)]
pub struct ExecutionCursor {
    pub queue: Vec<PendingSkillNode>,
    pub step_budget_remaining: u32,
}

/// Who casts at whom, under which number.
#[derive(Clone, Copy, Debug, PartialEq, Eq, Structural)]
pub struct ExecutionContext {
    pub execution_id: u64,
    pub caster: Option<u64>,
    pub target: Option<u64>,
}

/// The stages of the runtime.
#[derive(Clone, Copy, Debug, PartialEq, Eq, Hash, Structural)]
pub enum SkillRuntimeSet {
    Asset,
    Request,
    Validate,
    Execute,
    Effect,
    Message,
    Trigger,
    Cleanup,
}

/// The stage that follows a stage.
pub open spec fn stage_after(s: SkillRuntimeSet) -> Option<SkillRuntimeSet> {
    match s {
        SkillRuntimeSet::Asset => Some(SkillRuntimeSet::Request),
        SkillRuntimeSet::Request => Some(SkillRuntimeSet::Validate),
        SkillRuntimeSet::Validate => Some(SkillRuntimeSet::Execute),
        SkillRuntimeSet::Execute => Some(SkillRuntimeSet::Effect),
        SkillRuntimeSet::Effect => Some(SkillRuntimeSet::Message),
        SkillRuntimeSet::Message => Some(SkillRuntimeSet::Trigger),
        SkillRuntimeSet::Trigger => Some(SkillRuntimeSet::Cleanup),
        SkillRuntimeSet::Cleanup => None,
    }
}

impl SkillRuntimeSet {
    /// The stage that follows this one.
    pub fn next(self) -> (r: Option<SkillRuntimeSet>)
        ensures
            r == stage_after(self),
    {
        match self {
            SkillRuntimeSet::Asset => Some(SkillRuntimeSet::Request),
            SkillRuntimeSet::Request => Some(SkillRuntimeSet::Validate),
            SkillRuntimeSet::Validate => Some(SkillRuntimeSet::Execute),
            SkillRuntimeSet::Execute => Some(SkillRuntimeSet::Effect),
            SkillRuntimeSet::Effect => Some(SkillRuntimeSet::Message),
            SkillRuntimeSet::Message => Some(SkillRuntimeSet::Trigger),
            SkillRuntimeSet::Trigger => Some(SkillRuntimeSet::Cleanup),
            SkillRuntimeSet::Cleanup => None,
        }
    }
}

/// The runtime as a plugin of a game.
#[derive(Clone, Copy, Debug, Default)]
pub struct SkillEcsPlugin;

/// The skill language as a plugin of a game.
#[derive(Clone, Copy, Debug, Default)]
pub struct SkillDslPlugin;

/// The reference vocabulary as a plugin of a game.
#[derive(Clone, Copy, Debug, Default)]
pub struct SkillGameplayPlugin;

/// What a compiled skill knows before it runs.
#[derive(Debug)]
pub struct SkillCompileContext {
    pub skill_id: SkillId,
    pub vars: SkillArgs,
    pub stats: SkillArgs,
    pub tags: SkillTags,
    pub rng_seed: u64,
    pub execution_id: u64,
    pub step_budget: u32,
    pub step_budget_remaining: u32,
}

impl SkillCompileContext {
    /// The context of a compiled skill: its stats are the parameters of its graph.
    pub fn new(compiled: &SkillCompiled) -> (r: SkillCompileContext)
        ensures
            r.skill_id@ == compiled@.id,
            args_view(r.vars) == Seq::<(Seq<char>, crate::value::ValueView)>::empty(),
            args_view(r.stats) == compiled@.graph.params,
            key_list(r.tags) == compiled@.tags,
            r.rng_seed == 0,
            r.execution_id == 0,
            r.step_budget == DEFAULT_STEP_BUDGET,
            r.step_budget_remaining == DEFAULT_STEP_BUDGET,
    {
        SkillCompileContext {
            skill_id: compiled.id.clone(),
            vars: no_args(),
            stats: copy_args(&compiled.graph.params),
            tags: copy_keys(&compiled.tags),
            rng_seed: 0,
            execution_id: 0,
            step_budget: DEFAULT_STEP_BUDGET,
            step_budget_remaining: DEFAULT_STEP_BUDGET,
        }
    }
}

} // verus!
