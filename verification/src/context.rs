//! What a running skill knows.
use crate::keys::{copy_keys, key_list};
use crate::value::{args_view, copy_args, no_args, ArgsView, SkillArgs, SkillId};
use indexmap::IndexSet;
use vstd::prelude::*;

verus! {

/// An ordered set of tags.
pub type SkillTags = IndexSet<String>;

/// How many steps an execution may take where nothing else is configured.
pub const DEFAULT_STEP_BUDGET: u32 = 1024;

/// The settings of the runtime.
#[derive(Clone, Copy, Debug)]
pub struct SkillRuntimeConfig {
    pub step_budget: u32,
}

impl Default for SkillRuntimeConfig {
    fn default() -> (r: SkillRuntimeConfig)
        ensures
            r.step_budget == DEFAULT_STEP_BUDGET,
    {
        SkillRuntimeConfig { step_budget: DEFAULT_STEP_BUDGET }
    }
}

/// A signal that wakes waiting skills.
#[derive(Debug)]
pub struct SkillRuntimeSignal {
    pub name: String,
    pub payload: SkillArgs,
    pub execution_id: Option<u64>,
    pub skill_entity: Option<u64>,
    pub caster: Option<u64>,
    pub target: Option<u64>,
}

pub struct SignalView {
    pub name: Seq<char>,
    pub payload: ArgsView,
    pub execution_id: Option<u64>,
    pub skill_entity: Option<u64>,
    pub caster: Option<u64>,
    pub target: Option<u64>,
}

impl SkillRuntimeSignal {
    pub open spec fn view(&self) -> SignalView {
        SignalView {
            name: self.name@,
            payload: args_view(self.payload),
            execution_id: self.execution_id,
            skill_entity: self.skill_entity,
            caster: self.caster,
            target: self.target,
        }
    }

    /// A signal that is meant for every execution.
    pub fn new(name: String, payload: SkillArgs) -> (r: SkillRuntimeSignal)
        ensures
            r@ == (SignalView {
                name: name@,
                payload: args_view(payload),
                execution_id: None,
                skill_entity: None,
                caster: None,
                target: None,
            }),
    {
        SkillRuntimeSignal {
            name,
            payload,
            execution_id: None,
            skill_entity: None,
            caster: None,
            target: None,
        }
    }
}

impl Clone for SkillRuntimeSignal {
    fn clone(&self) -> (r: SkillRuntimeSignal)
        ensures
            r@ == self@,
    {
        SkillRuntimeSignal {
            name: self.name.clone(),
            payload: copy_args(&self.payload),
            execution_id: self.execution_id,
            skill_entity: self.skill_entity,
            caster: self.caster,
            target: self.target,
        }
    }
}

/// A request from an observer to raise a signal.
#[derive(Debug)]
pub struct SkillObserverTrigger {
    pub name: String,
    pub payload: SkillArgs,
    pub execution_id: Option<u64>,
    pub skill_entity: Option<u64>,
    pub caster: Option<u64>,
    pub target: Option<u64>,
}

impl SkillObserverTrigger {
    pub open spec fn view(&self) -> SignalView {
        SignalView {
            name: self.name@,
            payload: args_view(self.payload),
            execution_id: self.execution_id,
            skill_entity: self.skill_entity,
            caster: self.caster,
            target: self.target,
        }
    }

    /// A trigger that is meant for every execution.
    pub fn new(name: String, payload: SkillArgs) -> (r: SkillObserverTrigger)
        ensures
            r@ == (SignalView {
                name: name@,
                payload: args_view(payload),
                execution_id: None,
                skill_entity: None,
                caster: None,
                target: None,
            }),
    {
        SkillObserverTrigger {
            name,
            payload,
            execution_id: None,
            skill_entity: None,
            caster: None,
            target: None,
        }
    }
}

/// The signal that an observer's trigger raises.
pub fn skill_observer_trigger_bridge(trigger: &SkillObserverTrigger) -> (r: SkillRuntimeSignal)
    ensures
        r@ == trigger@,
{
    SkillRuntimeSignal {
        name: trigger.name.clone(),
        payload: copy_args(&trigger.payload),
        execution_id: trigger.execution_id,
        skill_entity: trigger.skill_entity,
        caster: trigger.caster,
        target: trigger.target,
    }
}

/// What a running skill knows: who casts, at whom, its variables and its stats.
#[derive(Debug)]
pub struct SkillContext {
    pub skill_entity: Option<u64>,
    pub caster: Option<u64>,
    pub skill_id: SkillId,
    pub current_target: Option<u64>,
    pub source_event: Option<SkillRuntimeSignal>,
    pub vars: SkillArgs,
    pub stats: SkillArgs,
    pub tags: SkillTags,
    pub rng_seed: u64,
    pub execution_id: u64,
    pub step_budget: u32,
    pub step_budget_remaining: u32,
}

pub struct ContextView {
    pub skill_entity: Option<u64>,
    pub caster: Option<u64>,
    pub skill_id: Seq<char>,
    pub current_target: Option<u64>,
    pub source_event: Option<SignalView>,
    pub vars: ArgsView,
    pub stats: ArgsView,
    pub tags: Seq<Seq<char>>,
    pub rng_seed: u64,
    pub execution_id: u64,
    pub step_budget: u32,
    pub step_budget_remaining: u32,
}

/// The content of a signal that may be absent.
pub open spec fn event_view(e: Option<SkillRuntimeSignal>) -> Option<SignalView> {
    match e {
        Some(s) => Some(s@),
        None => None,
    }
}

/// A fresh context.
pub open spec fn fresh_context(
    skill_id: Seq<char>,
    stats: ArgsView,
    tags: Seq<Seq<char>>,
    caster: Option<u64>,
    execution_id: u64,
) -> ContextView {
    ContextView {
        skill_entity: None,
        caster,
        skill_id,
        current_target: None,
        source_event: None,
        vars: Seq::empty(),
        stats,
        tags,
        rng_seed: execution_id,
        execution_id,
        step_budget: DEFAULT_STEP_BUDGET,
        step_budget_remaining: DEFAULT_STEP_BUDGET,
    }
}

impl SkillContext {
    pub open spec fn view(&self) -> ContextView {
        ContextView {
            skill_entity: self.skill_entity,
            caster: self.caster,
            skill_id: self.skill_id@,
            current_target: self.current_target,
            source_event: event_view(self.source_event),
            vars: args_view(self.vars),
            stats: args_view(self.stats),
            tags: key_list(self.tags),
            rng_seed: self.rng_seed,
            execution_id: self.execution_id,
            step_budget: self.step_budget,
            step_budget_remaining: self.step_budget_remaining,
        }
    }

    pub fn new(
        skill_id: SkillId,
        stats: SkillArgs,
        tags: SkillTags,
        caster: Option<u64>,
        execution_id: u64,
    ) -> (r: SkillContext)
        ensures
            r@ == fresh_context(skill_id@, args_view(stats), key_list(tags), caster, execution_id),
    {
        SkillContext {
            skill_entity: None,
            caster,
            skill_id,
            current_target: None,
            source_event: None,
            vars: no_args(),
            stats,
            tags,
            rng_seed: execution_id,
            execution_id,
            step_budget: DEFAULT_STEP_BUDGET,
            step_budget_remaining: DEFAULT_STEP_BUDGET,
        }
    }
}

impl Clone for SkillContext {
    fn clone(&self) -> (r: SkillContext)
        ensures
            r@ == self@,
    {
        SkillContext {
            skill_entity: self.skill_entity,
            caster: self.caster,
            skill_id: self.skill_id.clone(),
            current_target: self.current_target,
            source_event: match &self.source_event {
                Some(s) => Some(s.clone()),
                None => None,
            },
            vars: copy_args(&self.vars),
            stats: copy_args(&self.stats),
            tags: copy_keys(&self.tags),
            rng_seed: self.rng_seed,
            execution_id: self.execution_id,
            step_budget: self.step_budget,
            step_budget_remaining: self.step_budget_remaining,
        }
    }
}

/// The law of triggers: a trigger and the signal that it raises say the same, in everything that
/// they hold.
pub proof fn law_triggers_are_signals(t: SkillObserverTrigger, s: SkillRuntimeSignal)
    requires
        s@ == t@,
    ensures
        s.name@ == t.name@,
        args_view(s.payload) == args_view(t.payload),
        s.execution_id == t.execution_id,
        s.skill_entity == t.skill_entity,
        s.caster == t.caster,
        s.target == t.target,
{
}

/// The law of beginnings: a fresh context has what it was made with, its seed is its number, it has
/// all its steps still to go, and there is no variable, target or event yet.
pub proof fn law_fresh_contexts(
    skill_id: Seq<char>,
    stats: ArgsView,
    tags: Seq<Seq<char>>,
    caster: Option<u64>,
    execution_id: u64,
)
    ensures
        ({
            let c = fresh_context(skill_id, stats, tags, caster, execution_id);
            &&& c.skill_id == skill_id
            &&& c.stats == stats
            &&& c.tags == tags
            &&& c.caster == caster
            &&& c.execution_id == execution_id
            &&& c.rng_seed == execution_id
            &&& c.step_budget == 1024
            &&& c.step_budget_remaining == c.step_budget
            &&& c.vars.len() == 0
            &&& c.skill_entity is None
            &&& c.current_target is None
            &&& c.source_event is None
        }),
{
}

} // verus!
