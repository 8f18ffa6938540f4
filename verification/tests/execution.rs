use skill_flow::action::{
    next_protocol_request_id, SettlementMode, SkillAction, SkillActionInput, SkillActionOutput,
    SkillEffectResolved,
};
use skill_flow::branch::{ExecutionOutput, SkillTimer};
use skill_flow::cast::{
    handle_skill_cast_request, handle_skill_cast_requests, CastOutcome, CastRejection,
    CompiledSkillRecord, SkillCastRequest, SkillRuntimeCounters,
};
use skill_flow::compile::compile_skill;
use skill_flow::context::{
    skill_observer_trigger_bridge, SkillContext, SkillObserverTrigger, SkillRuntimeConfig,
    SkillRuntimeSignal,
};
use skill_flow::def::{default_cast_model, SkillDef, SkillRequirement};
use skill_flow::effect::{tick_skill_effects, EffectTick, EffectWork};
use skill_flow::error::{SkillError, SkillExecutionError, SkillMessage};
use skill_flow::gameplay::{
    projectile_hit_signal_bridge, register_gameplay_primitives, DamageAction, ProjectileHit,
};
use skill_flow::ledger::{tick_skill_cooldowns, SkillCooldowns, SkillResourcePools};
use skill_flow::library::SkillLibrary;
use skill_flow::materialize::{compiled_record_of, materialize_graph};
use skill_flow::node::SkillNodeQueries;
use skill_flow::number::{NumberOp, NumberQuestion, NumberTable, SkillNumber};
use skill_flow::registry::SkillRegistry;
use skill_flow::requirement::RequirementFailure;
use skill_flow::resume::{
    resume_effect_resolved, resume_skill_signals, tick_skill_delays, ActiveSkill, Advance,
    AdvanceEnd, SkillExecutionState,
};
use skill_flow::table::KeyedMap;
use skill_flow::value::{SkillArgs, SkillExpr, SkillId, SkillNode, SkillSpecialValue, SkillValue};

fn num(x: f64) -> SkillNumber {
    SkillNumber { bits: x.to_bits() }
}

fn float(n: SkillNumber) -> f64 {
    f64::from_bits(n.bits)
}

fn answer(question: &NumberQuestion, numbers: &mut NumberTable) {
    match question {
        NumberQuestion::Result(op, a, b) => {
            let (x, y) = (float(*a), float(*b));
            let result = match op {
                NumberOp::Add => x + y,
                NumberOp::Sub => x - y,
                NumberOp::Mul => x * y,
                NumberOp::Div => x / y,
                NumberOp::Single => f64::from(x as f32),
                NumberOp::SubSingle => f64::from(x as f32 - y as f32),
            };
            numbers.learn_result(*op, *a, *b, num(result));
        }
        NumberQuestion::Parse(text) => {
            numbers.learn_parsed(text.clone(), text.parse::<f64>().ok().map(num));
        }
        NumberQuestion::Show(a) => numbers.learn_shown(*a, float(*a).to_string()),
        NumberQuestion::Span(a) => {
            let span = std::time::Duration::from_secs_f32(float(*a) as f32);
            numbers.learn_span(*a, span.as_nanos());
        }
        NumberQuestion::Count(a) => numbers.learn_count(*a, float(*a) as usize),
    }
}

fn ask<T>(
    numbers: &mut NumberTable,
    mut step: impl FnMut(&NumberTable) -> Result<T, SkillError>,
) -> Result<T, SkillError> {
    loop {
        match step(numbers) {
            Err(SkillError::Unanswered(question)) => answer(&question, numbers),
            other => return other,
        }
    }
}

fn text(value: &str) -> SkillValue {
    SkillValue::String(value.to_owned())
}

fn number(value: f64) -> SkillValue {
    SkillValue::Number(num(value))
}

fn expr(value: &str) -> SkillValue {
    SkillValue::Special(SkillSpecialValue::Expr(value.to_owned()))
}

fn args(entries: Vec<(&str, SkillValue)>) -> SkillArgs {
    let mut out = KeyedMap::new();
    for (key, value) in entries {
        out.insert(key.to_owned(), value);
    }
    out
}

fn action(id: &str, entries: Vec<(&str, SkillValue)>) -> SkillNode {
    SkillNode::Action(id.to_owned(), args(entries))
}

fn skill(id: &str, body: SkillNode) -> SkillDef {
    SkillDef {
        id: SkillId::new(id.to_owned()),
        tags: Vec::new(),
        cast_model: default_cast_model(),
        requirements: Vec::new(),
        params: args(vec![]),
        modifiers: Vec::new(),
        body,
    }
}

fn registry() -> SkillRegistry {
    let mut registry = SkillRegistry::with_core();
    register_gameplay_primitives(&mut registry);
    registry
}

struct World {
    registry: SkillRegistry,
    library: SkillLibrary,
    compiled: Vec<CompiledSkillRecord>,
    nodes: SkillNodeQueries,
    config: SkillRuntimeConfig,
    pools: SkillResourcePools,
    cooldowns: SkillCooldowns,
    counters: SkillRuntimeCounters,
    numbers: NumberTable,
    next_entity: u64,
}

impl World {
    fn new(registry: SkillRegistry) -> World {
        World {
            registry,
            library: SkillLibrary::new(),
            compiled: Vec::new(),
            nodes: SkillNodeQueries { records: Vec::new() },
            config: SkillRuntimeConfig::default(),
            pools: SkillResourcePools::new(),
            cooldowns: SkillCooldowns::new(),
            counters: SkillRuntimeCounters::new(),
            numbers: NumberTable::new(),
            next_entity: 100,
        }
    }

    fn entity(&mut self) -> u64 {
        self.next_entity += 1;
        self.next_entity
    }

    fn add(&mut self, def: &SkillDef) -> Result<(), SkillError> {
        let registry = &self.registry;
        let compiled = ask(&mut self.numbers, |n| compile_skill(def, registry, n))?;
        let home = self.entity();
        let count = compiled.graph.nodes.len();
        let entities: Vec<u64> = (0..count).map(|_| self.entity()).collect();
        self.nodes
            .records
            .extend(materialize_graph(&compiled.graph, &entities));
        self.compiled
            .push(compiled_record_of(&compiled, home, &entities));
        let id = compiled.id.clone();
        self.library.insert_compiled(compiled);
        self.library.set_entity(id, home);
        Ok(())
    }

    fn cast(&mut self, skill: &str, caster: u64, target: Option<u64>) -> (u64, CastOutcome) {
        let entity = self.entity();
        let request = SkillCastRequest {
            skill: SkillId::new(skill.to_owned()),
            caster,
            target,
        };
        let World {
            registry,
            library,
            compiled,
            nodes,
            config,
            pools,
            cooldowns,
            counters,
            numbers,
            ..
        } = self;
        let outcome = ask(numbers, |n| {
            handle_skill_cast_request(
                &request,
                entity,
                library,
                compiled,
                registry.actions(),
                config,
                pools,
                cooldowns,
                counters,
                nodes,
                n,
            )
        })
        .unwrap();
        (entity, outcome)
    }

    fn tick(
        &mut self,
        entity: u64,
        active: &ActiveSkill,
        state: &SkillExecutionState,
        nanos: u128,
    ) -> Advance {
        let World { registry, nodes, numbers, .. } = self;
        ask(numbers, |n| {
            tick_skill_delays(entity, active, state, nanos, registry.actions(), nodes, n)
        })
        .unwrap()
    }

    fn signal(
        &mut self,
        entity: u64,
        active: &ActiveSkill,
        state: &SkillExecutionState,
        signals: &Vec<SkillRuntimeSignal>,
    ) -> Option<Advance> {
        let World { registry, nodes, numbers, .. } = self;
        ask(numbers, |n| {
            resume_skill_signals(entity, active, state, signals, registry.actions(), nodes, n)
        })
        .unwrap()
    }

    fn settle(
        &mut self,
        entity: u64,
        active: &ActiveSkill,
        state: &SkillExecutionState,
        settled: &Vec<SkillEffectResolved>,
    ) -> Option<Advance> {
        let World { registry, nodes, numbers, .. } = self;
        ask(numbers, |n| {
            resume_effect_resolved(entity, active, state, settled, registry.actions(), nodes, n)
        })
        .unwrap()
    }
}

fn labels(output: &ExecutionOutput) -> Vec<String> {
    output
        .intents
        .iter()
        .map(|intent| match intent.payload.get("label") {
            Some(SkillValue::String(label)) => label.clone(),
            other => format!("{other:?}"),
        })
        .collect()
}

fn suspended(outcome: CastOutcome) -> (ActiveSkill, ExecutionOutput, SkillExecutionState) {
    match outcome {
        CastOutcome::Suspended { active, output } => {
            let state = SkillExecutionState::new(output.branches.clone());
            (active, output, state)
        }
        other => panic!("not suspended: {other:?}"),
    }
}

fn stored(advance: Advance) -> (Vec<ExecutionOutput>, SkillExecutionState) {
    match advance.end {
        AdvanceEnd::Stored(state) => (advance.outputs, state),
        other => panic!("not stored: {other:?}"),
    }
}

fn wait(event: &str, body: SkillNode) -> SkillNode {
    SkillNode::On(event.to_owned(), Box::new(body))
}

fn trace(label: &str) -> SkillNode {
    action("trace", vec![("label", text(label))])
}

fn damage(mode: &str) -> SkillNode {
    action("damage", vec![("amount", expr("6 * 7")), ("mode", text(mode))])
}

fn world_with(defs: Vec<SkillDef>) -> World {
    let mut world = World::new(registry());
    for def in &defs {
        world.add(def).unwrap();
    }
    world
}

fn finished(outcome: CastOutcome) -> ExecutionOutput {
    match outcome {
        CastOutcome::Finished { output, .. } => output,
        other => panic!("not finished: {other:?}"),
    }
}

fn failed(outcome: CastOutcome) -> SkillError {
    match outcome {
        CastOutcome::Failed { failed, .. } => failed.error,
        other => panic!("not failed: {other:?}"),
    }
}

fn cost(resource: &str, amount: &str) -> SkillRequirement {
    SkillRequirement::Cost {
        resource: resource.to_owned(),
        amount: SkillExpr::new(amount.to_owned()),
    }
}

#[test]
fn unknown_skills_are_refused() {
    let mut world = world_with(vec![]);
    match world.cast("nothing", 1, Some(2)).1 {
        CastOutcome::Rejected(rejected) => {
            assert_eq!(rejected.skill, SkillId::from("nothing"));
            assert_eq!((rejected.caster, rejected.target), (1, Some(2)));
            assert!(
                matches!(rejected.message, CastRejection::Text(t) if t == "compiled skill not found")
            );
        }
        other => panic!("{other:?}"),
    }
}

#[test]
fn skills_that_are_not_in_the_world_are_refused() {
    let mut world = world_with(vec![skill("s", trace("x"))]);
    world.compiled[0].roots = Some(vec![]);
    match world.cast("s", 1, None).1 {
        CastOutcome::Rejected(rejected) => assert!(matches!(
            rejected.message,
            CastRejection::Text(t) if t == "compiled skill has no materialized root node"
        )),
        other => panic!("{other:?}"),
    }
    world.compiled.clear();
    match world.cast("s", 1, None).1 {
        CastOutcome::Rejected(rejected) => assert!(matches!(
            rejected.message,
            CastRejection::Text(t) if t == "compiled skill entity is missing runtime components"
        )),
        other => panic!("{other:?}"),
    }
}

#[test]
fn executions_are_numbered_one_after_another() {
    let mut world = world_with(vec![skill("s", trace("x"))]);
    for expected in 1..4 {
        let (_, outcome) = world.cast("s", 1, None);
        let accepted = outcome.accepted().unwrap();
        assert_eq!(accepted.execution_id, expected);
        assert_eq!(labels(&finished(outcome)), vec!["x"]);
    }
}

#[test]
fn several_requests_share_resources() {
    let mut def = skill("s", trace("x"));
    def.requirements = vec![cost("mana", "6")];
    let mut world = world_with(vec![def]);
    world.pools.set(1, "mana".to_owned(), num(10.0));
    let request = || SkillCastRequest {
        skill: SkillId::from("s"),
        caster: 1,
        target: None,
    };
    let requests = vec![request(), request()];
    let entities = vec![900, 901];
    let World {
        registry,
        library,
        compiled,
        nodes,
        config,
        pools,
        cooldowns,
        counters,
        numbers,
        ..
    } = &mut world;
    let outcomes = ask(numbers, |n| {
        handle_skill_cast_requests(
            &requests,
            &entities,
            library,
            compiled,
            registry.actions(),
            config,
            pools,
            cooldowns,
            counters,
            nodes,
            n,
        )
    })
    .unwrap();
    assert!(matches!(outcomes[0], CastOutcome::Finished { .. }));
    assert!(matches!(outcomes[1], CastOutcome::Rejected(_)));
    assert_eq!(float(pools.get(1, "mana")), 4.0);
}

#[test]
fn costs_are_checked_and_spent() {
    let mut def = skill("s", trace("x"));
    def.params = args(vec![("price", number(4.0))]);
    def.requirements = vec![
        cost("mana", "stat.price * 2"),
        cost("ammo", "1"),
        cost("free", "0"),
        cost("gift", "-5"),
    ];
    let mut world = world_with(vec![def]);
    world.pools.set(1, "mana".to_owned(), num(10.0));
    match world.cast("s", 1, None).1 {
        CastOutcome::Rejected(rejected) => match rejected.message {
            CastRejection::Requirement(RequirementFailure::NotEnough {
                resource,
                required,
                available,
            }) => {
                assert_eq!(resource, "ammo");
                assert_eq!((float(required), float(available)), (1.0, 0.0));
            }
            other => panic!("{other:?}"),
        },
        other => panic!("{other:?}"),
    }
    assert_eq!(float(world.pools.get(1, "mana")), 10.0);
    world.pools.set(1, "ammo".to_owned(), num(3.0));
    finished(world.cast("s", 1, None).1);
    assert_eq!(float(world.pools.get(1, "mana")), 2.0);
    assert_eq!(float(world.pools.get(1, "ammo")), 2.0);
    assert_eq!(float(world.pools.get(1, "gift")), 0.0);
    assert_eq!(float(world.pools.get(2, "mana")), 0.0);
}

#[test]
fn a_resource_that_is_asked_for_twice_may_be_spent_before_the_refusal() {
    let mut def = skill("s", trace("x"));
    def.requirements = vec![cost("mana", "6"), cost("mana", "6")];
    let mut world = world_with(vec![def]);
    world.pools.set(1, "mana".to_owned(), num(10.0));
    assert!(matches!(
        world.cast("s", 1, None).1,
        CastOutcome::Rejected(_)
    ));
    assert_eq!(float(world.pools.get(1, "mana")), 4.0);
}

#[test]
fn requirements_that_cannot_be_worked_out_refuse_the_cast() {
    let mut def = skill("s", trace("x"));
    def.requirements = vec![cost("mana", "\"much\"")];
    let mut world = world_with(vec![def]);
    match world.cast("s", 1, None).1 {
        CastOutcome::Rejected(rejected) => assert!(matches!(
            rejected.message,
            CastRejection::Requirement(RequirementFailure::Invalid(SkillError::Runtime(
                SkillMessage::ExpectedNumber(_)
            )))
        )),
        other => panic!("{other:?}"),
    }
}

#[test]
fn cooldowns_refuse_until_time_has_passed() {
    let mut def = skill("s", trace("x"));
    def.requirements = vec![
        SkillRequirement::Cooldown {
            seconds: SkillExpr::new("1".to_owned()),
        },
        SkillRequirement::Cooldown {
            seconds: SkillExpr::new("2.5".to_owned()),
        },
    ];
    let mut world = world_with(vec![def]);
    finished(world.cast("s", 1, None).1);
    assert_eq!(float(world.cooldowns.remaining(1, &SkillId::from("s"))), 2.5);
    match world.cast("s", 1, None).1 {
        CastOutcome::Rejected(rejected) => match rejected.message {
            CastRejection::Requirement(RequirementFailure::OnCooldown { skill, remaining }) => {
                assert_eq!(skill, SkillId::from("s"));
                assert_eq!(float(remaining), 2.5);
            }
            other => panic!("{other:?}"),
        },
        other => panic!("{other:?}"),
    }
    finished(world.cast("s", 2, None).1);
    for step in [2.0, 0.5] {
        let World { cooldowns, numbers, .. } = &mut world;
        ask(numbers, |n| tick_skill_cooldowns(num(step), cooldowns, n)).unwrap();
    }
    assert_eq!(float(world.cooldowns.remaining(1, &SkillId::from("s"))), 0.0);
    finished(world.cast("s", 1, None).1);
}

#[test]
fn pools_add_and_default_to_zero() {
    let mut numbers = NumberTable::new();
    let mut pools = SkillResourcePools::new();
    assert_eq!(float(pools.get(1, "mana")), 0.0);
    ask(&mut numbers, |n| pools.add(1, "mana".to_owned(), num(2.5), n)).unwrap();
    ask(&mut numbers, |n| pools.add(1, "mana".to_owned(), num(2.5), n)).unwrap();
    assert_eq!(float(pools.get(1, "mana")), 5.0);
}

#[test]
fn conditions_choose_a_child() {
    let choose = |condition: &str| SkillNode::If {
        condition: SkillExpr::new(condition.to_owned()),
        then_node: Box::new(trace("yes")),
        else_node: Some(Box::new(trace("no"))),
    };
    let mut world = world_with(vec![
        skill("t", choose("1 < 2")),
        skill("f", choose("null")),
        skill(
            "half",
            SkillNode::If {
                condition: SkillExpr::new("false".to_owned()),
                then_node: Box::new(trace("yes")),
                else_node: None,
            },
        ),
    ]);
    assert_eq!(labels(&finished(world.cast("t", 1, None).1)), vec!["yes"]);
    assert_eq!(labels(&finished(world.cast("f", 1, None).1)), vec!["no"]);
    assert!(labels(&finished(world.cast("half", 1, None).1)).is_empty());
}

#[test]
fn bodies_repeat_with_and_without_intervals() {
    let repeat = |times: Option<&str>, interval: Option<&str>| SkillNode::Repeat {
        times: times.map(|t| SkillExpr::new(t.to_owned())),
        duration: None,
        interval: interval.map(|t| SkillExpr::new(t.to_owned())),
        node: Box::new(trace("tick")),
    };
    let mut world = world_with(vec![
        skill("thrice", repeat(Some("3.9"), None)),
        skill("once", repeat(None, None)),
        skill("never", repeat(Some("-4"), None)),
        skill("slow", repeat(Some("2"), Some("0.5"))),
    ]);
    assert_eq!(
        labels(&finished(world.cast("thrice", 1, None).1)),
        vec!["tick", "tick", "tick"]
    );
    assert_eq!(labels(&finished(world.cast("once", 1, None).1)), vec!["tick"]);
    assert!(labels(&finished(world.cast("never", 1, None).1)).is_empty());

    let (entity, outcome) = world.cast("slow", 1, None);
    let (active, output, state) = suspended(outcome);
    assert!(output.intents.is_empty());
    let (outputs, state) = stored(world.tick(entity, &active, &state, 499_999_999));
    assert!(outputs.is_empty());
    let (outputs, state) = stored(world.tick(entity, &active, &state, 1));
    assert_eq!(labels(&outputs[0]), vec!["tick"]);
    let advance = world.tick(entity, &active, &state, 500_000_000);
    assert_eq!(labels(&advance.outputs[0]), vec!["tick"]);
    match advance.end {
        AdvanceEnd::Finished(done) => {
            assert_eq!(done.skill, SkillId::from("slow"));
            assert_eq!(done.execution_id, active.execution_id);
        }
        other => panic!("{other:?}"),
    }
}

#[test]
fn parallel_branches_wait_side_by_side() {
    let mut world = world_with(vec![skill(
        "p",
        SkillNode::Parallel(vec![
            SkillNode::Sequence(vec![wait("a", trace("a")), trace("after a")]),
            trace("now"),
            wait("b", trace("b")),
        ]),
    )]);
    let (entity, outcome) = world.cast("p", 1, None);
    let (active, output, state) = suspended(outcome);
    assert_eq!(labels(&output), vec!["now"]);
    assert_eq!(state.branches.len(), 2);
    let a = SkillRuntimeSignal::new("a".to_owned(), args(vec![]));
    let (outputs, state) = stored(world.signal(entity, &active, &state, &vec![a]).unwrap());
    assert_eq!(labels(&outputs[0]), vec!["a", "after a"]);
    assert_eq!(state.branches.len(), 1);
}

#[test]
fn variables_are_set_for_their_child_alone() {
    let label = |source: &str| action("trace", vec![("label", expr(source))]);
    let mut world = world_with(vec![skill(
        "let",
        SkillNode::Sequence(vec![
            SkillNode::Let("x".to_owned(), text("inner"), Box::new(label("var.x"))),
            label("var.x ?? \"gone\""),
            SkillNode::Let(
                "x".to_owned(),
                text("outer"),
                Box::new(SkillNode::Sequence(vec![
                    SkillNode::Let("x".to_owned(), text("nested"), Box::new(label("x"))),
                    label("x"),
                ])),
            ),
        ]),
    )]);
    assert_eq!(
        labels(&finished(world.cast("let", 1, None).1)),
        vec!["inner", "gone", "nested", "outer"]
    );
}

#[test]
fn the_step_budget_stops_runaway_chains() {
    let mut world = world_with(vec![skill(
        "loop",
        SkillNode::Repeat {
            times: Some(SkillExpr::new("100".to_owned())),
            duration: None,
            interval: None,
            node: Box::new(trace("x")),
        },
    )]);
    world.config.step_budget = 20;
    match failed(world.cast("loop", 1, None).1) {
        SkillError::Runtime(SkillMessage::Execution(
            SkillExecutionError::StepBudgetExhausted { steps },
        )) => assert_eq!(steps, 20),
        other => panic!("{other:?}"),
    }
    world.config.step_budget = 101;
    assert_eq!(labels(&finished(world.cast("loop", 1, None).1)).len(), 100);
}

#[test]
fn broken_nodes_fail_the_execution() {
    let mut world = world_with(vec![skill(
        "s",
        SkillNode::Delay(SkillExpr::new("1".to_owned()), Box::new(trace("x"))),
    )]);
    let root = world.nodes.records[0].entity;
    world.nodes.records[1].child_of = None;
    match failed(world.cast("s", 1, None).1) {
        SkillError::Runtime(SkillMessage::ChildCount { node, slot, count }) => {
            assert_eq!((node, slot.as_str(), count), (root, "then", 0));
        }
        other => panic!("{other:?}"),
    }
    world.nodes.records[0].delay = None;
    match failed(world.cast("s", 1, None).1) {
        SkillError::Runtime(SkillMessage::NoComponent { node }) => assert_eq!(node, root),
        other => panic!("{other:?}"),
    }
}

#[test]
fn an_unregistered_action_fails_at_run_time() {
    let mut world = world_with(vec![skill("s", trace("x"))]);
    world.nodes.records[0].extension.as_mut().unwrap().constructor = "gone".to_owned();
    assert!(matches!(
        failed(world.cast("s", 1, None).1),
        SkillError::UnknownAction(id) if id == "gone"
    ));
}

#[test]
fn signals_reach_the_execution_they_are_meant_for() {
    let mut world = world_with(vec![skill("s", wait("go", trace("went")))]);
    let (entity, outcome) = world.cast("s", 1, Some(5));
    let (active, _, state) = suspended(outcome);
    let make = |execution: Option<u64>, entity: Option<u64>, target: Option<u64>| {
        let mut signal = SkillRuntimeSignal::new("go".to_owned(), args(vec![]));
        signal.execution_id = execution;
        signal.skill_entity = entity;
        signal.target = target;
        signal
    };
    assert!(world.signal(entity, &active, &state, &vec![]).is_none());
    for other in [
        SkillRuntimeSignal::new("stop".to_owned(), args(vec![])),
        make(Some(active.execution_id + 1), None, None),
        make(None, Some(entity + 1), None),
    ] {
        let (outputs, after) = stored(world.signal(entity, &active, &state, &vec![other]).unwrap());
        assert!(outputs.is_empty());
        assert_eq!(after.branches.len(), 1);
    }
    let advance = world
        .signal(
            entity,
            &active,
            &state,
            &vec![
                make(None, Some(entity + 1), Some(8)),
                make(Some(active.execution_id), Some(entity), Some(7)),
            ],
        )
        .unwrap();
    assert_eq!(advance.outputs[0].intents[0].target, Some(7));
    let advance = world
        .signal(entity, &active, &state, &vec![make(None, None, None)])
        .unwrap();
    assert_eq!(advance.outputs[0].intents[0].target, Some(5));
}

#[test]
fn observers_raise_signals() {
    let mut trigger = SkillObserverTrigger::new("go".to_owned(), args(vec![("k", text("v"))]));
    trigger.skill_entity = Some(4);
    trigger.target = Some(6);
    let signal = skill_observer_trigger_bridge(&trigger);
    assert_eq!(signal.name, "go");
    assert_eq!(signal.skill_entity, Some(4));
    assert_eq!(signal.target, Some(6));
    assert_eq!(signal.payload.get("k"), Some(&text("v")));
}

#[test]
fn events_show_the_caster_and_the_target_of_an_observer() {
    let seen = |source: &str| wait("go", action("trace", vec![("label", expr(source))]));
    let mut world = world_with(vec![
        skill("target", seen("event.target")),
        skill("caster", seen("event.caster")),
        skill("other", seen("event.other ?? \"nothing\"")),
    ]);
    let mut trigger = SkillObserverTrigger::new("go".to_owned(), args(vec![]));
    trigger.caster = Some(18446744073709551615);
    trigger.target = Some(607);
    for (id, label) in [
        ("target", "607"),
        ("caster", "18446744073709551615"),
        ("other", "nothing"),
    ] {
        let (entity, outcome) = world.cast(id, 1, None);
        let (active, _, state) = suspended(outcome);
        let signals = vec![skill_observer_trigger_bridge(&trigger)];
        let advance = world.signal(entity, &active, &state, &signals).unwrap();
        assert_eq!(labels(&advance.outputs[0]), vec![label]);
    }
    let (entity, outcome) = world.cast("target", 1, None);
    let (active, _, state) = suspended(outcome);
    trigger.payload = args(vec![("target", text("dummy"))]);
    let signals = vec![skill_observer_trigger_bridge(&trigger)];
    let advance = world.signal(entity, &active, &state, &signals).unwrap();
    assert_eq!(labels(&advance.outputs[0]), vec!["dummy"]);
}

#[test]
fn damage_is_settled_at_once_later_or_awaited() {
    let seen = action("trace", vec![("label", expr("var.last_damage_amount ?? \"none\""))]);
    let body = |mode: &str| SkillNode::Sequence(vec![damage(mode), seen.clone()]);
    let mut world = world_with(vec![
        skill("sync", body("sync")),
        skill("request", body("request")),
        skill("await", body("await")),
        skill("odd", body("odd")),
    ]);
    let output = finished(world.cast("sync", 1, Some(2)).1);
    assert_eq!(output.effect_requests.len(), 1);
    let request = &output.effect_requests[0];
    assert_eq!(request.kind, "damage");
    assert_eq!(request.mode, SettlementMode::Sync);
    assert_eq!(request.payload.get("amount"), Some(&number(42.0)));
    assert_eq!((request.source, request.target), (Some(1), Some(2)));
    assert_eq!(output.effect_resolved.len(), 1);
    assert_eq!(output.effect_resolved[0].request_id, request.request_id);
    assert_eq!(output.intents[1].payload.get("label"), Some(&text("42")));

    let output = finished(world.cast("request", 1, Some(2)).1);
    assert_eq!(output.effect_requests.len(), 1);
    assert!(output.effect_resolved.is_empty());
    assert_eq!(output.intents[1].payload.get("label"), Some(&text("none")));

    let (entity, outcome) = world.cast("await", 1, Some(2));
    let (active, output, state) = suspended(outcome);
    assert_eq!(output.intents.len(), 1);
    let request_id = output.effect_requests[0].request_id;
    assert_eq!(request_id >> 32, active.execution_id);
    let settle = |request_id: u64, execution_id: u64| SkillEffectResolved {
        request_id,
        execution_id,
        source: None,
        target: None,
        kind: "damage".to_owned(),
        payload: args(vec![("amount", number(40.0))]),
    };
    let other = settle(request_id + 1, active.execution_id);
    let (outputs, state) = stored(world.settle(entity, &active, &state, &vec![other]).unwrap());
    assert!(outputs.is_empty());
    assert!(world.settle(entity, &active, &state, &vec![]).is_none());
    let answer = settle(request_id, active.execution_id);
    let advance = world.settle(entity, &active, &state, &vec![answer]).unwrap();
    assert_eq!(labels(&advance.outputs[0]), vec!["none"]);
    assert!(matches!(advance.end, AdvanceEnd::Finished(_)));

    match failed(world.cast("odd", 1, Some(2)).1) {
        SkillError::InvalidSkill(name, SkillMessage::Text(reason)) => {
            assert_eq!(name, "damage");
            assert_eq!(reason, "unknown damage settlement mode `odd`");
        }
        other => panic!("{other:?}"),
    }
    let output = finished(world.cast("await", 1, None).1);
    assert!(output.effect_requests.is_empty());
}

#[test]
fn request_numbers_tell_executions_steps_and_places_apart() {
    let mut ctx = SkillContext::new(
        SkillId::from("s"),
        args(vec![]),
        Default::default(),
        None,
        5,
    );
    ctx.step_budget_remaining = ctx.step_budget - 3;
    assert_eq!(next_protocol_request_id(&ctx, 2), (5 << 32) | (3 << 16) | 2);
    ctx.step_budget_remaining = ctx.step_budget + 1;
    assert_eq!(next_protocol_request_id(&ctx, 0), 5 << 32);
}

#[test]
fn buffs_run_their_nodes_when_they_come_and_go() {
    let mut world = world_with(vec![skill(
        "buff",
        action(
            "apply_buff",
            vec![
                ("buff", text("haste")),
                ("duration", text("1.5")),
                ("on_add", SkillValue::Node(Box::new(trace("added")))),
                ("on_remove", SkillValue::Node(Box::new(trace("removed")))),
            ],
        ),
    )]);
    let output = finished(world.cast("buff", 1, Some(2)).1);
    assert_eq!(output.intents.len(), 1);
    assert_eq!(output.effects.len(), 1);
    let mut work = EffectWork::new(output);
    let World { registry, nodes, numbers, .. } = &mut world;
    ask(numbers, |n| {
        work.process_effect_spawns(usize::MAX, registry.actions(), nodes, n)
    })
    .unwrap();
    assert!(work.pending.is_empty());
    assert!(work.failed.is_empty());
    assert_eq!(work.output.intents.len(), 2);
    assert_eq!(work.output.intents[1].payload.get("label"), Some(&text("added")));
    let effect = work.spawned.pop().unwrap();
    assert_eq!(effect.kind, "apply_buff");
    assert_eq!(effect.target, Some(2));
    let timer = effect.timer.unwrap();
    assert_eq!(timer.duration, 1_500_000_000);
    let tick = ask(numbers, |n| {
        tick_skill_effects(&effect, 1_000_000_000, registry.actions(), nodes, n)
    })
    .unwrap();
    assert!(matches!(tick, EffectTick::Running(t) if t.elapsed == 1_000_000_000));
    let tick = ask(numbers, |n| {
        tick_skill_effects(&effect, 1_500_000_000, registry.actions(), nodes, n)
    })
    .unwrap();
    match tick {
        EffectTick::Expired(Some(output)) => assert_eq!(labels(&output), vec!["removed"]),
        other => panic!("{other:?}"),
    }
}

#[test]
fn effects_may_last_for_ever_or_fail() {
    let mut world = world_with(vec![skill(
        "aura",
        action(
            "apply_buff",
            vec![
                ("buff", text("aura")),
                ("on_add", SkillValue::Node(Box::new(trace("added")))),
            ],
        ),
    )]);
    let output = finished(world.cast("aura", 1, Some(2)).1);
    let hook = output.effects[0].on_add.unwrap();
    let record = world
        .nodes
        .records
        .iter_mut()
        .find(|r| r.entity == hook)
        .unwrap();
    record.extension = None;
    let mut work = EffectWork::new(output);
    let World { registry, nodes, numbers, .. } = &mut world;
    ask(numbers, |n| work.process_effect_spawns(5, registry.actions(), nodes, n)).unwrap();
    assert_eq!(work.failed.len(), 1);
    assert_eq!(work.spawned.len(), 1);
    let tick = ask(numbers, |n| {
        tick_skill_effects(&work.spawned[0], 1, registry.actions(), nodes, n)
    })
    .unwrap();
    assert!(matches!(tick, EffectTick::Unchanged));
}

#[test]
fn projectile_hits_raise_two_signals() {
    let hit = ProjectileHit {
        execution_id: 3,
        projectile: 77,
        projectile_name: "77v1".to_owned(),
        target: Some(9),
        position: Some([num(1.0), num(2.0), num(3.5)]),
    };
    let signals = projectile_hit_signal_bridge(&hit);
    let names: Vec<&str> = signals.iter().map(|s| s.name.as_str()).collect();
    assert_eq!(names, vec!["hit", "projectile_hit"]);
    for signal in &signals {
        assert_eq!(signal.execution_id, Some(3));
        assert_eq!(signal.target, Some(9));
        assert_eq!(signal.payload.get("projectile"), Some(&text("77v1")));
        assert_eq!(
            signal.payload.get("position"),
            Some(&SkillValue::List(vec![number(1.0), number(2.0), number(3.5)]))
        );
    }
}

#[test]
fn decks_refuse_what_is_no_card() {
    let mut numbers = NumberTable::new();
    let mut def = skill("wand", SkillNode::Deck(vec![trace("x")]));
    def.cast_model = "wand_deck".to_owned();
    let registry = registry();
    assert!(matches!(
        ask(&mut numbers, |n| compile_skill(&def, &registry, n)),
        Err(SkillError::InvalidSkill(id, SkillMessage::UnsupportedCard(_))) if id == "wand"
    ));
    def.body = trace("x");
    match ask(&mut numbers, |n| compile_skill(&def, &registry, n)) {
        Err(SkillError::InvalidSkill(_, SkillMessage::Text(t))) => {
            assert_eq!(t, "wand_deck cast model expects a Deck([...]) body");
        }
        other => panic!("{other:?}"),
    }
}

#[test]
fn deck_bonuses_add_up_and_double_casts_are_used_once() {
    let mut numbers = NumberTable::new();
    let plus = |x: f64| {
        SkillNode::Modifier("damage_plus".to_owned(), args(vec![("amount", number(x))]))
    };
    let double = || SkillNode::Modifier("double_cast".to_owned(), args(vec![]));
    let spell = |id: &str| SkillNode::Spell(id.to_owned(), args(vec![("id", text("mine"))]));
    let mut def = skill(
        "wand",
        SkillNode::Deck(vec![spell("a"), plus(2.0), double(), spell("b"), plus(3.0), spell("c")]),
    );
    def.cast_model = "wand_deck".to_owned();
    let registry = registry();
    let compiled = ask(&mut numbers, |n| compile_skill(&def, &registry, n)).unwrap();
    let made = |bonus: f64| {
        action("spell", vec![("id", text("mine")), ("damage_bonus", number(bonus))])
    };
    assert_eq!(
        compiled.plan.root,
        SkillNode::Sequence(vec![made(0.0), made(2.0), made(5.0)])
    );
    def.body = SkillNode::Deck(vec![spell("a"), plus(2.0), spell("b"), plus(3.0), spell("c")]);
    let without = ask(&mut numbers, |n| compile_skill(&def, &registry, n)).unwrap();
    assert_eq!(without.plan.root, compiled.plan.root);
    def.body = SkillNode::Deck(vec![
        plus(1.0),
        SkillNode::Spell("own".to_owned(), args(vec![("damage_bonus", number(9.0))])),
    ]);
    let own = ask(&mut numbers, |n| compile_skill(&def, &registry, n)).unwrap();
    assert_eq!(
        own.plan.root,
        SkillNode::Sequence(vec![action(
            "spell",
            vec![("id", text("own")), ("damage_bonus", number(9.0))]
        )])
    );
}

#[test]
fn nodes_in_the_world_keep_what_the_graph_says() {
    let repeat = SkillNode::Repeat {
        times: Some(SkillExpr::new("2".to_owned())),
        duration: Some(SkillExpr::new("3".to_owned())),
        interval: Some(SkillExpr::new("1".to_owned())),
        node: Box::new(trace("tick")),
    };
    let compiled =
        compile_skill(&skill("r", repeat), &registry(), &NumberTable::new()).unwrap();
    let entities: Vec<u64> = (0..compiled.graph.nodes.len()).map(|i| 50 + i as u64).collect();
    let records = materialize_graph(&compiled.graph, &entities);
    let repeat = records[0].repeat.as_ref().unwrap();
    assert_eq!(repeat.times.as_ref().unwrap().0, "2");
    assert_eq!(repeat.duration.as_ref().unwrap().0, "3");
    assert_eq!(repeat.interval.as_ref().unwrap().0, "1");
    assert!(records[0].sequence.is_none() && records[0].extension.is_none());
    assert_eq!(compiled_record_of(&compiled, 40, &entities).roots, Some(vec![50]));
}

#[test]
fn damage_with_an_unknown_mode_has_still_asked_for_damage() {
    let mut ctx = SkillContext::new(SkillId::from("s"), args(vec![]), Default::default(), Some(1), 1);
    ctx.skill_entity = Some(2);
    let input = SkillActionInput {
        args: args(vec![("amount", number(4.0)), ("mode", text("never"))]),
        payloads: KeyedMap::new(),
    };
    let mut out = SkillActionOutput::new();
    let numbers = NumberTable::new();
    DamageAction.emit(&ctx, &input, &mut out, &numbers).unwrap();
    assert_eq!(out.intents.len(), 1);
    ctx.current_target = Some(3);
    assert!(DamageAction.emit(&ctx, &input, &mut out, &numbers).is_err());
    assert_eq!(out.intents.len(), 2);
    assert!(out.effect_requests.is_empty());
    ctx.caster = None;
    assert!(DamageAction.emit(&ctx, &input, &mut out, &numbers).is_err());
    assert_eq!(out.intents.len(), 2);
}

#[test]
fn actions_name_what_they_want() {
    let mut world = world_with(vec![
        skill("t", action("trace", vec![("id", number(2.5))])),
        skill("u", action("trace", vec![])),
        skill("f", action("trace", vec![("label", SkillValue::Bool(false))])),
        skill("p", action("spawn_projectile", vec![("payload", text_node())])),
        skill("s", action("spell", vec![("id", text("zap"))])),
    ]);
    assert_eq!(labels(&finished(world.cast("t", 1, None).1)), vec!["2.5"]);
    assert_eq!(labels(&finished(world.cast("u", 1, None).1)), vec!["trace"]);
    assert_eq!(labels(&finished(world.cast("f", 1, None).1)), vec!["false"]);
    let output = finished(world.cast("p", 1, None).1);
    assert_eq!(output.intents[0].kind, "spawn_projectile");
    assert_eq!(output.intents[0].payload.get("prefab"), Some(&text("projectile")));
    let output = finished(world.cast("s", 1, None).1);
    assert_eq!(output.intents[0].payload.get("damage_bonus"), Some(&text("0")));
}

fn text_node() -> SkillValue {
    SkillValue::Node(Box::new(trace("hit")))
}

#[test]
fn a_failing_branch_ends_its_execution_but_keeps_what_came_before() {
    let bad = action("trace", vec![("label", expr("1 +"))]);
    let mut world = world_with(vec![skill(
        "s",
        SkillNode::Parallel(vec![
            wait("go", trace("good")),
            wait("go", bad),
            wait("go", trace("late")),
        ]),
    )]);
    let (entity, outcome) = world.cast("s", 1, None);
    let (active, _, state) = suspended(outcome);
    let go = SkillRuntimeSignal::new("go".to_owned(), args(vec![]));
    let advance = world.signal(entity, &active, &state, &vec![go]).unwrap();
    assert_eq!(advance.outputs.len(), 1);
    assert_eq!(labels(&advance.outputs[0]), vec!["good"]);
    match advance.end {
        AdvanceEnd::Failed(failed) => {
            assert_eq!(failed.skill, Some(SkillId::from("s")));
            assert_eq!(failed.execution_id, Some(active.execution_id));
            assert_eq!(failed.skill_entity, Some(entity));
            assert!(matches!(failed.error, SkillError::Expr { .. }));
        }
        other => panic!("{other:?}"),
    }
}

#[test]
fn timers_run_out_once() {
    let timer = SkillTimer::new(10);
    assert_eq!(timer.tick(4).tick(5), timer.tick(9));
    assert!(!timer.tick(9).finished);
    assert!(timer.tick(10).finished);
    assert_eq!(timer.tick(25).elapsed, 10);
    assert_eq!(timer.tick(25).tick(1), timer.tick(25));
    assert!(SkillTimer::new(0).tick(0).finished);
}

#[test]
fn children_run_in_the_order_of_their_ranks() {
    let mut world = world_with(vec![skill(
        "s",
        SkillNode::Sequence(vec![trace("a"), trace("b"), trace("c")]),
    )]);
    for (record, order) in world.nodes.records[1..].iter_mut().zip([5, 5, 1]) {
        record.child_of.as_mut().unwrap().order = order;
    }
    assert_eq!(
        labels(&finished(world.cast("s", 1, None).1)),
        vec!["c", "a", "b"]
    );
}
