//! The protocol between the runtime and the actions of a game.
use crate::context::{ContextView, SkillContext};
use crate::error::{runtime_text, ErrorView, SkillError};
use crate::keys::{key_list, key_position};
use crate::number::{NumberTable, NumbersView, SkillNumber};
use crate::table::{distinct, has_key, key_index, lemma_found, lookup, names_of, put, KeyedMap};
use crate::value::{args_view, copy_args, no_args, set_arg, ArgsView, SkillArgs, SkillValue};
use indexmap::IndexSet;
use vstd::prelude::*;

verus! {

/// The outcome of something a skill does.
pub type SkillResult = Result<(), SkillError>;

/// How an effect is settled.
#[derive(Clone, Copy, Debug, PartialEq, Eq, Structural)]
pub enum SettlementMode {
    /// At once.
    Sync,
    /// Later; the skill goes on.
    Request,
    /// Later; the branch waits for it.
    Await,
}

/// Something that a skill wants the game to do.
#[derive(Debug)]
pub struct SkillIntent {
    pub kind: String,
    pub skill_entity: u64,
    pub caster: u64,
    pub target: Option<u64>,
    pub payload: SkillArgs,
}

pub struct IntentView {
    pub kind: Seq<char>,
    pub skill_entity: u64,
    pub caster: u64,
    pub target: Option<u64>,
    pub payload: ArgsView,
}

impl SkillIntent {
    pub open spec fn view(&self) -> IntentView {
        IntentView {
            kind: self.kind@,
            skill_entity: self.skill_entity,
            caster: self.caster,
            target: self.target,
            payload: args_view(self.payload),
        }
    }
}

impl Clone for SkillIntent {
    fn clone(&self) -> (r: SkillIntent)
        ensures
            r@ == self@,
    {
        SkillIntent {
            kind: self.kind.clone(),
            skill_entity: self.skill_entity,
            caster: self.caster,
            target: self.target,
            payload: copy_args(&self.payload),
        }
    }
}

/// A request for an effect.
#[derive(Debug)]
pub struct SkillEffectRequest {
    pub request_id: u64,
    pub execution_id: u64,
    pub source: Option<u64>,
    pub target: Option<u64>,
    pub kind: String,
    pub payload: SkillArgs,
    pub mode: SettlementMode,
}

pub struct RequestView {
    pub request_id: u64,
    pub execution_id: u64,
    pub source: Option<u64>,
    pub target: Option<u64>,
    pub kind: Seq<char>,
    pub payload: ArgsView,
    pub mode: SettlementMode,
}

impl SkillEffectRequest {
    pub open spec fn view(&self) -> RequestView {
        RequestView {
            request_id: self.request_id,
            execution_id: self.execution_id,
            source: self.source,
            target: self.target,
            kind: self.kind@,
            payload: args_view(self.payload),
            mode: self.mode,
        }
    }
}

impl Clone for SkillEffectRequest {
    fn clone(&self) -> (r: SkillEffectRequest)
        ensures
            r@ == self@,
    {
        SkillEffectRequest {
            request_id: self.request_id,
            execution_id: self.execution_id,
            source: self.source,
            target: self.target,
            kind: self.kind.clone(),
            payload: copy_args(&self.payload),
            mode: self.mode,
        }
    }
}

/// The settlement of an effect.
#[derive(Debug)]
pub struct SkillEffectResolved {
    pub request_id: u64,
    pub execution_id: u64,
    pub source: Option<u64>,
    pub target: Option<u64>,
    pub kind: String,
    pub payload: SkillArgs,
}

pub struct ResolvedView {
    pub request_id: u64,
    pub execution_id: u64,
    pub source: Option<u64>,
    pub target: Option<u64>,
    pub kind: Seq<char>,
    pub payload: ArgsView,
}

impl SkillEffectResolved {
    pub open spec fn view(&self) -> ResolvedView {
        ResolvedView {
            request_id: self.request_id,
            execution_id: self.execution_id,
            source: self.source,
            target: self.target,
            kind: self.kind@,
            payload: args_view(self.payload),
        }
    }
}

impl Clone for SkillEffectResolved {
    fn clone(&self) -> (r: SkillEffectResolved)
        ensures
            r@ == self@,
    {
        SkillEffectResolved {
            request_id: self.request_id,
            execution_id: self.execution_id,
            source: self.source,
            target: self.target,
            kind: self.kind.clone(),
            payload: copy_args(&self.payload),
        }
    }
}

/// What an action makes its branch wait for.
#[derive(Clone, Copy, Debug, PartialEq, Eq, Structural)]
pub enum SkillActionWait {
    EffectResolved { request_id: u64 },
}

/// An effect to be attached, with the nodes to run when it comes and when it goes.
#[derive(Debug)]
pub struct SkillEffectSpawn {
    pub request: SkillEffectRequest,
    pub duration_seconds: Option<SkillNumber>,
    pub on_add: Option<u64>,
    pub on_remove: Option<u64>,
    pub ctx: SkillContext,
}

pub struct SpawnView {
    pub request: RequestView,
    pub duration_seconds: Option<SkillNumber>,
    pub on_add: Option<u64>,
    pub on_remove: Option<u64>,
    pub ctx: ContextView,
}

impl SkillEffectSpawn {
    pub open spec fn view(&self) -> SpawnView {
        SpawnView {
            request: self.request@,
            duration_seconds: self.duration_seconds,
            on_add: self.on_add,
            on_remove: self.on_remove,
            ctx: self.ctx@,
        }
    }
}

/// What an action is given: its arguments, and the nodes in its payload slots.
#[derive(Debug)]
pub struct SkillActionInput {
    pub args: SkillArgs,
    pub payloads: KeyedMap<Vec<u64>>,
}

pub struct InputView {
    pub args: ArgsView,
    pub payloads: Seq<(Seq<char>, Seq<u64>)>,
}

/// The entries of a table of entity lists.
pub open spec fn entities_view(m: KeyedMap<Vec<u64>>) -> Seq<(Seq<char>, Seq<u64>)> {
    Seq::new(m.vals().len(), |i: int| (m.names()[i], m.vals()[i]@))
}

/// The entities under a name.
pub open spec fn entities_under(t: Seq<(Seq<char>, Seq<u64>)>, name: Seq<char>) -> Seq<u64> {
    match lookup(t, name) {
        Some(l) => l,
        None => Seq::empty(),
    }
}

/// The first of a list of entities.
pub open spec fn first_entity(l: Seq<u64>) -> Option<u64> {
    if l.len() > 0 {
        Some(l[0])
    } else {
        None
    }
}

pub proof fn lemma_entities(m: KeyedMap<Vec<u64>>, name: Seq<char>)
    requires
        distinct(m@),
    ensures
        distinct(entities_view(m)),
        has_key(entities_view(m), name) == has_key(m@, name),
        has_key(m@, name) ==> key_index(entities_view(m), name) == key_index(m@, name)
            && 0 <= key_index(m@, name) < m@.len(),
{
    assert forall|i: int, j: int|
        0 <= i < entities_view(m).len() && 0 <= j < entities_view(m).len() && (
        #[trigger] entities_view(m)[i]).0 == (#[trigger] entities_view(m)[j]).0 implies i == j by {
        assert(m@[i].0 == m@[j].0);
    }
    if has_key(m@, name) {
        let i = key_index(m@, name);
        assert(0 <= i < m@.len() && m@[i].0 == name);
        assert(entities_view(m)[i].0 == name);
        lemma_found(entities_view(m), i);
    }
    if has_key(entities_view(m), name) {
        let i = key_index(entities_view(m), name);
        assert(entities_view(m)[i].0 == name);
        assert(m@[i].0 == name);
    }
}

impl SkillActionInput {
    pub open spec fn view(&self) -> InputView {
        InputView { args: args_view(self.args), payloads: entities_view(self.payloads) }
    }

    /// The first node in a payload slot.
    pub fn payload(&self, name: &str) -> (r: Option<u64>)
        ensures
            r == first_entity(entities_under(self@.payloads, name@)),
    {
        let found = self.payloads.get(name);
        proof {
            lemma_entities(self.payloads, name@);
        }
        match found {
            Some(l) => if l.len() > 0 {
                Some(l[0])
            } else {
                None
            },
            None => None,
        }
    }

    /// The nodes in a payload slot.
    pub fn payloads(&self, name: &str) -> (r: Vec<u64>)
        ensures
            r@ == entities_under(self@.payloads, name@),
    {
        let found = self.payloads.get(name);
        proof {
            lemma_entities(self.payloads, name@);
        }
        let mut out: Vec<u64> = Vec::new();
        if let Some(l) = found {
            let n: usize = l.len();
            let mut i: usize = 0;
            while i < n
                invariant
                    i <= n,
                    n == l@.len(),
                    out@ == l@.subrange(0, i as int),
                decreases n - i,
            {
                out.push(l[i]);
                i = i + 1;
                assert(out@ =~= l@.subrange(0, i as int));
            }
            assert(out@ =~= l@);
        }
        out
    }
}

/// What an action has asked for.
#[derive(Debug)]
pub struct SkillActionOutput {
    pub intents: Vec<SkillIntent>,
    pub effect_requests: Vec<SkillEffectRequest>,
    pub effect_resolved: Vec<SkillEffectResolved>,
    pub waits: Vec<SkillActionWait>,
    pub effects: Vec<SkillEffectSpawn>,
    pub vars: SkillArgs,
}

pub struct ActionOutputView {
    pub intents: Seq<IntentView>,
    pub effect_requests: Seq<RequestView>,
    pub effect_resolved: Seq<ResolvedView>,
    pub waits: Seq<SkillActionWait>,
    pub effects: Seq<SpawnView>,
    pub vars: ArgsView,
}

pub open spec fn intents_view(s: Seq<SkillIntent>) -> Seq<IntentView> {
    Seq::new(s.len(), |i: int| s[i]@)
}

pub open spec fn requests_view(s: Seq<SkillEffectRequest>) -> Seq<RequestView> {
    Seq::new(s.len(), |i: int| s[i]@)
}

pub open spec fn settled_view(s: Seq<SkillEffectResolved>) -> Seq<ResolvedView> {
    Seq::new(s.len(), |i: int| s[i]@)
}

pub open spec fn spawns_view(s: Seq<SkillEffectSpawn>) -> Seq<SpawnView> {
    Seq::new(s.len(), |i: int| s[i]@)
}

/// What an action has asked for before it has asked for anything.
pub open spec fn no_action_output() -> ActionOutputView {
    ActionOutputView {
        intents: Seq::empty(),
        effect_requests: Seq::empty(),
        effect_resolved: Seq::empty(),
        waits: Seq::empty(),
        effects: Seq::empty(),
        vars: Seq::empty(),
    }
}

/// How many steps an execution has taken, in the context of its last step.
pub open spec fn steps_taken(ctx: ContextView) -> u64 {
    if ctx.step_budget_remaining <= ctx.step_budget {
        (ctx.step_budget - ctx.step_budget_remaining) as u64
    } else {
        0
    }
}

/// The number of a request: the execution in the upper half, the step above the lowest sixteen
/// bits, and the place among the requests of the step.
pub open spec fn request_number(ctx: ContextView, local_index: u64) -> u64 {
    (ctx.execution_id << 32u64) | (steps_taken(ctx) << 16u64) | local_index
}

/// The number of a request.
pub fn next_protocol_request_id(ctx: &SkillContext, local_index: u64) -> (r: u64)
    ensures
        r == request_number(ctx@, local_index),
{
    let step_index: u64 = ctx.step_budget.saturating_sub(ctx.step_budget_remaining) as u64;
    (ctx.execution_id << 32u64) | (step_index << 16u64) | local_index
}

/// A law of request numbers: in those bounds a number is its execution, then the steps that were
/// taken, then its place, each in its own part.
pub proof fn law_request_numbers(ctx: ContextView, i: u64)
    requires
        ctx.execution_id < 0x1_0000_0000,
        ctx.step_budget_remaining <= ctx.step_budget < 0x1_0000,
        i < 0x1_0000,
    ensures
        request_number(ctx, i) == ctx.execution_id * 0x1_0000_0000 + (ctx.step_budget
            - ctx.step_budget_remaining) * 0x1_0000 + i,
{
    let (e, s) = (ctx.execution_id, steps_taken(ctx));
    assert((e << 32u64) | (s << 16u64) | i == e * 0x1_0000_0000 + s * 0x1_0000 + i) by (bit_vector)
        requires
            e < 0x1_0000_0000,
            s < 0x1_0000,
            i < 0x1_0000,
    ;
}

/// A law of request numbers: as long as an execution takes fewer than 65536 steps, a step makes
/// fewer than 65536 requests and executions are numbered below 2^32, a number tells its execution,
/// its step and its place apart from all others.
pub proof fn law_request_numbers_differ(a: ContextView, i: u64, b: ContextView, j: u64)
    requires
        a.execution_id < 0x1_0000_0000,
        b.execution_id < 0x1_0000_0000,
        steps_taken(a) < 0x1_0000,
        steps_taken(b) < 0x1_0000,
        i < 0x1_0000,
        j < 0x1_0000,
        request_number(a, i) == request_number(b, j),
    ensures
        a.execution_id == b.execution_id,
        steps_taken(a) == steps_taken(b),
        i == j,
{
    let (e, s, f, t) = (a.execution_id, steps_taken(a), b.execution_id, steps_taken(b));
    assert(e == f && s == t && i == j) by (bit_vector)
        requires
            e < 0x1_0000_0000,
            f < 0x1_0000_0000,
            s < 0x1_0000,
            t < 0x1_0000,
            i < 0x1_0000,
            j < 0x1_0000,
            (e << 32u64) | (s << 16u64) | i == (f << 32u64) | (t << 16u64) | j,
    ;
}

/// The outcome of asking for an intent.
pub open spec fn intent_emitted(
    o: ActionOutputView,
    ctx: ContextView,
    kind: Seq<char>,
    payload: ArgsView,
) -> Result<ActionOutputView, ErrorView> {
    match (ctx.skill_entity, ctx.caster) {
        (Some(skill_entity), Some(caster)) => Ok(
            ActionOutputView {
                intents: o.intents.push(
                    IntentView { kind, skill_entity, caster, target: ctx.current_target, payload },
                ),
                ..o
            },
        ),
        (None, _) => Err(runtime_text("skill context is missing its entity"@)),
        _ => Err(runtime_text("skill context is missing its caster"@)),
    }
}

/// The request that a context makes next.
pub open spec fn next_request(
    o: ActionOutputView,
    ctx: ContextView,
    kind: Seq<char>,
    target: Option<u64>,
    payload: ArgsView,
    mode: SettlementMode,
) -> RequestView {
    RequestView {
        request_id: request_number(ctx, o.effect_requests.len() as u64),
        execution_id: ctx.execution_id,
        source: ctx.caster,
        target,
        kind,
        payload,
        mode,
    }
}

/// The settlement of a request as it stands.
pub open spec fn settled(q: RequestView) -> ResolvedView {
    ResolvedView {
        request_id: q.request_id,
        execution_id: q.execution_id,
        source: q.source,
        target: q.target,
        kind: q.kind,
        payload: q.payload,
    }
}

/// What has been asked for after a request for an effect.
pub open spec fn effect_requested(o: ActionOutputView, q: RequestView) -> ActionOutputView {
    ActionOutputView {
        effect_requests: o.effect_requests.push(q),
        effect_resolved: if q.mode is Sync {
            o.effect_resolved.push(settled(q))
        } else {
            o.effect_resolved
        },
        waits: if q.mode is Await {
            o.waits.push(SkillActionWait::EffectResolved { request_id: q.request_id })
        } else {
            o.waits
        },
        ..o
    }
}

impl SkillActionOutput {
    pub open spec fn view(&self) -> ActionOutputView {
        ActionOutputView {
            intents: intents_view(self.intents@),
            effect_requests: requests_view(self.effect_requests@),
            effect_resolved: settled_view(self.effect_resolved@),
            waits: self.waits@,
            effects: spawns_view(self.effects@),
            vars: args_view(self.vars),
        }
    }

    pub fn new() -> (r: SkillActionOutput)
        ensures
            r@ == no_action_output(),
    {
        let r = SkillActionOutput {
            intents: Vec::new(),
            effect_requests: Vec::new(),
            effect_resolved: Vec::new(),
            waits: Vec::new(),
            effects: Vec::new(),
            vars: no_args(),
        };
        assert(r@.intents =~= Seq::empty());
        assert(r@.effect_requests =~= Seq::empty());
        assert(r@.effect_resolved =~= Seq::empty());
        assert(r@.effects =~= Seq::empty());
        r
    }

    /// Asks the game to do something.
    pub fn emit_intent(&mut self, ctx: &SkillContext, kind: String, payload: SkillArgs) -> (r:
        SkillResult)
        ensures
            match intent_emitted(old(self)@, ctx@, kind@, args_view(payload)) {
                Ok(o) => r is Ok && final(self)@ == o,
                Err(e) => r matches Err(x) && x@ == e && *final(self) == *old(self),
            },
    {
        let skill_entity: u64 = match ctx.skill_entity {
            Some(e) => e,
            None => return Err(SkillError::runtime("skill context is missing its entity")),
        };
        let caster: u64 = match ctx.caster {
            Some(e) => e,
            None => return Err(SkillError::runtime("skill context is missing its caster")),
        };
        let intent = SkillIntent {
            kind,
            skill_entity,
            caster,
            target: ctx.current_target,
            payload,
        };
        self.intents.push(intent);
        assert(self@.intents =~= old(self)@.intents.push(intent@));
        Ok(())
    }

    /// Sets a variable of the skill.
    pub fn set_var(&mut self, name: String, value: SkillValue)
        ensures
            final(self)@ == (ActionOutputView {
                vars: put(old(self)@.vars, name@, value@),
                ..old(self)@
            }),
    {
        set_arg(&mut self.vars, name, value);
    }

    /// Asks for an effect.
    pub fn emit_effect_request(
        &mut self,
        ctx: &SkillContext,
        kind: String,
        target: Option<u64>,
        payload: SkillArgs,
        mode: SettlementMode,
    ) -> (r: Result<u64, SkillError>)
        ensures
            ({
                let q = next_request(old(self)@, ctx@, kind@, target, args_view(payload), mode);
                r == Ok::<u64, SkillError>(q.request_id) && final(self)@ == effect_requested(
                    old(self)@,
                    q,
                )
            }),
    {
        let request_id: u64 = next_protocol_request_id(ctx, self.effect_requests.len() as u64);
        let request = SkillEffectRequest {
            request_id,
            execution_id: ctx.execution_id,
            source: ctx.caster,
            target,
            kind: kind.clone(),
            payload: copy_args(&payload),
            mode,
        };
        self.effect_requests.push(request);
        assert(self@.effect_requests =~= old(self)@.effect_requests.push(request@));
        match mode {
            SettlementMode::Sync => {
                let resolved = SkillEffectResolved {
                    request_id,
                    execution_id: ctx.execution_id,
                    source: ctx.caster,
                    target,
                    kind,
                    payload,
                };
                self.effect_resolved.push(resolved);
                assert(self@.effect_resolved =~= old(self)@.effect_resolved.push(resolved@));
            },
            SettlementMode::Request => {},
            SettlementMode::Await => {
                self.waits.push(SkillActionWait::EffectResolved { request_id });
            },
        }
        Ok(request_id)
    }

    /// Asks for an effect that lasts for a while.
    pub fn emit_timed_effect(
        &mut self,
        ctx: &SkillContext,
        kind: String,
        target: Option<u64>,
        payload: SkillArgs,
        duration_seconds: Option<SkillNumber>,
        on_add: Option<u64>,
        on_remove: Option<u64>,
    ) -> (r: Result<u64, SkillError>)
        ensures
            ({
                let q = next_request(
                    old(self)@,
                    ctx@,
                    kind@,
                    target,
                    args_view(payload),
                    SettlementMode::Request,
                );
                r == Ok::<u64, SkillError>(q.request_id) && final(self)@ == (ActionOutputView {
                    effect_requests: old(self)@.effect_requests.push(q),
                    effects: old(self)@.effects.push(
                        SpawnView { request: q, duration_seconds, on_add, on_remove, ctx: ctx@ },
                    ),
                    ..old(self)@
                })
            }),
    {
        let request_id: u64 = next_protocol_request_id(ctx, self.effect_requests.len() as u64);
        let request = SkillEffectRequest {
            request_id,
            execution_id: ctx.execution_id,
            source: ctx.caster,
            target,
            kind,
            payload,
            mode: SettlementMode::Request,
        };
        let first = request.clone();
        self.effect_requests.push(first);
        assert(self@.effect_requests =~= old(self)@.effect_requests.push(request@));
        let spawn = SkillEffectSpawn {
            request,
            duration_seconds,
            on_add,
            on_remove,
            ctx: ctx.clone(),
        };
        self.effects.push(spawn);
        assert(self@.effects =~= old(self)@.effects.push(spawn@));
        Ok(request_id)
    }
}

/// The names of the actions that are registered.
#[derive(Clone, Copy)]
pub struct SkillActionNames<'a> {
    names: &'a IndexSet<String>,
}

pub type ActionNamesView = Seq<Seq<char>>;

impl<'a> SkillActionNames<'a> {
    pub closed spec fn view(&self) -> ActionNamesView {
        key_list(*self.names)
    }

    /// Whether there is an action with a name.
    pub fn has_action(&self, id: &str) -> (r: bool)
        ensures
            r == self@.contains(id@),
    {
        key_position(self.names, id).is_some()
    }
}

/// The behaviour of an action. What it does depends on what it is given alone.
pub trait SkillAction: Send + Sync {
    /// Whether the action takes these arguments, beside the actions that are registered.
    spec fn accepts(&self, args: ArgsView, known: ActionNamesView) -> Result<(), ErrorView>;

    /// What has been asked for after the action, or its error.
    spec fn emits(
        &self,
        ctx: ContextView,
        input: InputView,
        out: ActionOutputView,
        n: NumbersView,
    ) -> Result<ActionOutputView, ErrorView>;

    /// What has been asked for when the action fails.
    spec fn leaves(
        &self,
        ctx: ContextView,
        input: InputView,
        out: ActionOutputView,
        n: NumbersView,
    ) -> ActionOutputView;

    fn validate(&self, args: &SkillArgs, known: &SkillActionNames) -> (r: SkillResult)
        ensures
            crate::error::outcome(r) == self.accepts(args_view(*args), known@),
    ;

    fn emit(
        &self,
        ctx: &SkillContext,
        input: &SkillActionInput,
        out: &mut SkillActionOutput,
        numbers: &NumberTable,
    ) -> (r: SkillResult)
        ensures
            match self.emits(ctx@, input@, old(out)@, numbers@) {
                Ok(o) => r is Ok && final(out)@ == o,
                Err(e) => r matches Err(x) && x@ == e && final(out)@ == self.leaves(
                    ctx@,
                    input@,
                    old(out)@,
                    numbers@,
                ),
            },
    ;
}

/// A value that is held as it is.
pub struct Held<X> {
    pub item: X,
}

/// A registered action.
pub struct ActionSlot {
    pub held: Held<Box<dyn SkillAction>>,
}

impl ActionSlot {
    /// Whether the action takes these arguments, beside the actions that are registered.
    pub open spec fn accepts(&self, args: ArgsView, known: ActionNamesView) -> Result<
        (),
        ErrorView,
    > {
        self.held.item.accepts(args, known)
    }

    /// What has been asked for when the action fails.
    pub open spec fn leaves(
        &self,
        ctx: ContextView,
        input: InputView,
        out: ActionOutputView,
        n: NumbersView,
    ) -> ActionOutputView {
        self.held.item.leaves(ctx, input, out, n)
    }

    /// What has been asked for after the action, or its error.
    pub open spec fn emits(
        &self,
        ctx: ContextView,
        input: InputView,
        out: ActionOutputView,
        n: NumbersView,
    ) -> Result<ActionOutputView, ErrorView> {
        self.held.item.emits(ctx, input, out, n)
    }

    pub fn new(action: Box<dyn SkillAction>) -> (r: ActionSlot)
        ensures
            forall|args: ArgsView, known: ActionNamesView| #[trigger]
                r.accepts(args, known) == action.accepts(args, known),
            forall|ctx: ContextView, input: InputView, out: ActionOutputView, n: NumbersView|
                #[trigger]
                r.emits(ctx, input, out, n) == action.emits(ctx, input, out, n),
            forall|ctx: ContextView, input: InputView, out: ActionOutputView, n: NumbersView|
                #[trigger]
                r.leaves(ctx, input, out, n) == action.leaves(ctx, input, out, n),
    {
        let held = Held { item: action };
        ActionSlot { held }
    }

    pub fn validate(&self, args: &SkillArgs, known: &SkillActionNames) -> (r: SkillResult)
        ensures
            crate::error::outcome(r) == self.accepts(args_view(*args), known@),
    {
        self.held.item.validate(args, known)
    }

    pub fn emit(
        &self,
        ctx: &SkillContext,
        input: &SkillActionInput,
        out: &mut SkillActionOutput,
        numbers: &NumberTable,
    ) -> (r: SkillResult)
        ensures
            match self.emits(ctx@, input@, old(out)@, numbers@) {
                Ok(o) => r is Ok && final(out)@ == o,
                Err(e) => r matches Err(x) && x@ == e && final(out)@ == self.leaves(
                    ctx@,
                    input@,
                    old(out)@,
                    numbers@,
                ),
            },
    {
        self.held.item.emit(ctx, input, out, numbers)
    }
}

/// The actions that a game offers, by name.
pub struct SkillActionRegistry {
    actions: KeyedMap<ActionSlot>,
}

impl SkillActionRegistry {
    /// The registered actions by name, in the order in which the names were first registered.
    pub closed spec fn view(&self) -> Seq<(Seq<char>, ActionSlot)> {
        self.actions@
    }

    /// A registry without actions.
    pub fn new() -> (r: SkillActionRegistry)
        ensures
            r@ == Seq::<(Seq<char>, ActionSlot)>::empty(),
    {
        SkillActionRegistry { actions: KeyedMap::new() }
    }

    /// Registers an action; one that had the name before is replaced.
    pub fn register_skill_action(&mut self, id: String, action: ActionSlot)
        ensures
            final(self)@ == put(old(self)@, id@, action),
            distinct(old(self)@),
            distinct(final(self)@),
    {
        let _ = self.actions.insert(id, action);
    }

    /// The action with a name.
    pub fn action(&self, id: &str) -> (r: Option<&ActionSlot>)
        ensures
            distinct(self@),
            match r {
                Some(slot) => lookup(self@, id@) == Some(*slot),
                None => lookup(self@, id@) is None,
            },
    {
        self.actions.get(id)
    }

    /// The names of the actions.
    pub fn names(&self) -> (r: SkillActionNames<'_>)
        ensures
            r@ == names_of(self@),
    {
        SkillActionNames { names: self.actions.key_set() }
    }

    /// Whether there is an action with a name.
    pub fn has_action(&self, id: &str) -> (r: bool)
        ensures
            r == has_key(self@, id@),
    {
        self.actions.contains_key(id)
    }
}

} // verus!
