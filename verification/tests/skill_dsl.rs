use skill_flow::action::{ActionSlot, SkillEffectResolved};
use skill_flow::branch::ExecutionOutput;
use skill_flow::cast::{
    handle_skill_cast_request, CastOutcome, CompiledSkillRecord, SkillCastRequest,
    SkillRuntimeCounters,
};
use skill_flow::compile::compile_skill;
use skill_flow::context::{SkillContext, SkillRuntimeConfig, SkillRuntimeSignal};
use skill_flow::def::{default_cast_model, SkillDef};
use skill_flow::error::SkillError;
use skill_flow::expr::eval_skill_expr;
use skill_flow::gameplay::{register_gameplay_primitives, TraceAction};
use skill_flow::ledger::{SkillCooldowns, SkillResourcePools};
use skill_flow::library::SkillLibrary;
use skill_flow::materialize::{compiled_record_of, materialize_graph};
use skill_flow::modifier::{StatModifier, StatOp};
use skill_flow::node::SkillNodeQueries;
use skill_flow::number::{NumberOp, NumberQuestion, NumberTable, SkillNumber};
use skill_flow::registry::{ModifierSlot, SkillRegistry};
use skill_flow::resume::{
    resume_effect_resolved, resume_skill_signals, tick_skill_delays, ActiveSkill, Advance,
    AdvanceEnd, SkillExecutionState,
};
use skill_flow::table::KeyedMap;
use skill_flow::value::{SkillArgs, SkillExpr, SkillId, SkillNode, SkillSpecialValue, SkillValue};

fn num(x: f64) -> SkillNumber {
    SkillNumber { bits: x.to_bits() }
}

fn float(n: SkillNumber) -> f64 {
    f64::from_bits(n.bits)
}

fn answer(question: &NumberQuestion, numbers: &mut NumberTable) {
    match question {
        NumberQuestion::Result(op, a, b) => {
            let (x, y) = (float(*a), float(*b));
            let result = match op {
                NumberOp::Add => x + y,
                NumberOp::Sub => x - y,
                NumberOp::Mul => x * y,
                NumberOp::Div => x / y,
                NumberOp::Single => f64::from(x as f32),
                NumberOp::SubSingle => f64::from(x as f32 - y as f32),
            };
            numbers.learn_result(*op, *a, *b, num(result));
        }
        NumberQuestion::Parse(text) => {
            numbers.learn_parsed(text.clone(), text.parse::<f64>().ok().map(num));
        }
        NumberQuestion::Show(a) => numbers.learn_shown(*a, float(*a).to_string()),
        NumberQuestion::Span(a) => {
            let span = std::time::Duration::from_secs_f32(float(*a) as f32);
            numbers.learn_span(*a, span.as_nanos());
        }
        NumberQuestion::Count(a) => numbers.learn_count(*a, float(*a) as usize),
    }
}

fn ask<T>(
    numbers: &mut NumberTable,
    mut step: impl FnMut(&NumberTable) -> Result<T, SkillError>,
) -> Result<T, SkillError> {
    loop {
        match step(numbers) {
            Err(SkillError::Unanswered(question)) => answer(&question, numbers),
            other => return other,
        }
    }
}

fn text(value: &str) -> SkillValue {
    SkillValue::String(value.to_owned())
}

fn number(value: f64) -> SkillValue {
    SkillValue::Number(num(value))
}

fn expr(value: &str) -> SkillValue {
    SkillValue::Special(SkillSpecialValue::Expr(value.to_owned()))
}

fn args(entries: Vec<(&str, SkillValue)>) -> SkillArgs {
    let mut out = KeyedMap::new();
    for (key, value) in entries {
        out.insert(key.to_owned(), value);
    }
    out
}

fn action(id: &str, entries: Vec<(&str, SkillValue)>) -> SkillNode {
    SkillNode::Action(id.to_owned(), args(entries))
}

fn skill(id: &str, body: SkillNode) -> SkillDef {
    SkillDef {
        id: SkillId::new(id.to_owned()),
        tags: Vec::new(),
        cast_model: default_cast_model(),
        requirements: Vec::new(),
        params: args(vec![]),
        modifiers: Vec::new(),
        body,
    }
}

fn registry() -> SkillRegistry {
    let mut registry = SkillRegistry::with_core();
    register_gameplay_primitives(&mut registry);
    registry
}

struct World {
    registry: SkillRegistry,
    library: SkillLibrary,
    compiled: Vec<CompiledSkillRecord>,
    nodes: SkillNodeQueries,
    config: SkillRuntimeConfig,
    pools: SkillResourcePools,
    cooldowns: SkillCooldowns,
    counters: SkillRuntimeCounters,
    numbers: NumberTable,
    next_entity: u64,
}

impl World {
    fn new(registry: SkillRegistry) -> World {
        World {
            registry,
            library: SkillLibrary::new(),
            compiled: Vec::new(),
            nodes: SkillNodeQueries { records: Vec::new() },
            config: SkillRuntimeConfig::default(),
            pools: SkillResourcePools::new(),
            cooldowns: SkillCooldowns::new(),
            counters: SkillRuntimeCounters::new(),
            numbers: NumberTable::new(),
            next_entity: 100,
        }
    }

    fn entity(&mut self) -> u64 {
        self.next_entity += 1;
        self.next_entity
    }

    fn add(&mut self, def: &SkillDef) -> Result<(), SkillError> {
        let registry = &self.registry;
        let compiled = ask(&mut self.numbers, |n| compile_skill(def, registry, n))?;
        let home = self.entity();
        let count = compiled.graph.nodes.len();
        let entities: Vec<u64> = (0..count).map(|_| self.entity()).collect();
        self.nodes
            .records
            .extend(materialize_graph(&compiled.graph, &entities));
        self.compiled
            .push(compiled_record_of(&compiled, home, &entities));
        let id = compiled.id.clone();
        self.library.insert_compiled(compiled);
        self.library.set_entity(id, home);
        Ok(())
    }

    fn cast(&mut self, skill: &str, caster: u64, target: Option<u64>) -> (u64, CastOutcome) {
        let entity = self.entity();
        let request = SkillCastRequest {
            skill: SkillId::new(skill.to_owned()),
            caster,
            target,
        };
        let World {
            registry,
            library,
            compiled,
            nodes,
            config,
            pools,
            cooldowns,
            counters,
            numbers,
            ..
        } = self;
        let outcome = ask(numbers, |n| {
            handle_skill_cast_request(
                &request,
                entity,
                library,
                compiled,
                registry.actions(),
                config,
                pools,
                cooldowns,
                counters,
                nodes,
                n,
            )
        })
        .unwrap();
        (entity, outcome)
    }

    fn tick(
        &mut self,
        entity: u64,
        active: &ActiveSkill,
        state: &SkillExecutionState,
        nanos: u128,
    ) -> Advance {
        let World { registry, nodes, numbers, .. } = self;
        ask(numbers, |n| {
            tick_skill_delays(entity, active, state, nanos, registry.actions(), nodes, n)
        })
        .unwrap()
    }

    fn signal(
        &mut self,
        entity: u64,
        active: &ActiveSkill,
        state: &SkillExecutionState,
        signals: &Vec<SkillRuntimeSignal>,
    ) -> Option<Advance> {
        let World { registry, nodes, numbers, .. } = self;
        ask(numbers, |n| {
            resume_skill_signals(entity, active, state, signals, registry.actions(), nodes, n)
        })
        .unwrap()
    }

    fn settle(
        &mut self,
        entity: u64,
        active: &ActiveSkill,
        state: &SkillExecutionState,
        settled: &Vec<SkillEffectResolved>,
    ) -> Option<Advance> {
        let World { registry, nodes, numbers, .. } = self;
        ask(numbers, |n| {
            resume_effect_resolved(entity, active, state, settled, registry.actions(), nodes, n)
        })
        .unwrap()
    }
}

fn labels(output: &ExecutionOutput) -> Vec<String> {
    output
        .intents
        .iter()
        .map(|intent| match intent.payload.get("label") {
            Some(SkillValue::String(label)) => label.clone(),
            other => format!("{other:?}"),
        })
        .collect()
}

fn suspended(outcome: CastOutcome) -> (ActiveSkill, ExecutionOutput, SkillExecutionState) {
    match outcome {
        CastOutcome::Suspended { active, output } => {
            let state = SkillExecutionState::new(output.branches.clone());
            (active, output, state)
        }
        other => panic!("not suspended: {other:?}"),
    }
}

fn stored(advance: Advance) -> (Vec<ExecutionOutput>, SkillExecutionState) {
    match advance.end {
        AdvanceEnd::Stored(state) => (advance.outputs, state),
        other => panic!("not stored: {other:?}"),
    }
}

fn projectile_modifier(ops: Vec<StatOp>) -> ModifierSlot {
    ModifierSlot::new(Box::new(StatModifier::new(
        vec!["projectile".to_owned()],
        ops,
    )))
}

fn compile(def: &SkillDef, registry: &SkillRegistry) -> Result<skill_flow::def::SkillCompiled, SkillError> {
    let mut numbers = NumberTable::new();
    ask(&mut numbers, |n| compile_skill(def, registry, n))
}

#[test]
fn registry_validation_rejects_unknown_primitives() {
    let def = skill("bad", action("missing", vec![]));
    match compile(&def, &registry()) {
        Err(SkillError::UnknownAction(id)) => assert_eq!(id, "missing"),
        other => panic!("{other:?}"),
    }

    let mut def = skill("bad", action("trace", vec![]));
    def.cast_model = "missing".to_owned();
    match compile(&def, &registry()) {
        Err(SkillError::UnknownCastModel(id)) => assert_eq!(id, "missing"),
        other => panic!("{other:?}"),
    }

    let mut def = skill("bad", action("trace", vec![]));
    def.modifiers = vec!["missing".to_owned()];
    match compile(&def, &registry()) {
        Err(SkillError::UnknownModifier(id)) => assert_eq!(id, "missing"),
        other => panic!("{other:?}"),
    }
}

fn eval(source: &str, ctx: &SkillContext) -> Result<SkillValue, SkillError> {
    let mut numbers = NumberTable::new();
    let expr = SkillExpr::new(source.to_owned());
    ask(&mut numbers, |n| eval_skill_expr(&expr, ctx, n))
}

#[test]
fn expr_eval_supports_paths_math_comparison_and_nullish() {
    let ctx = SkillContext::new(
        SkillId::from("test"),
        args(vec![
            ("base_damage", number(40.0)),
            ("spell_damage", number(1.5)),
        ]),
        Default::default(),
        None,
        1,
    );
    assert_eq!(
        eval("stat.base_damage * stat.spell_damage", &ctx).unwrap(),
        number(60.0)
    );
    assert_eq!(
        eval("stat.projectile_count ?? 1", &ctx).unwrap(),
        number(1.0)
    );
    assert_eq!(
        eval("stat.base_damage >= 40 && true", &ctx).unwrap(),
        SkillValue::Bool(true)
    );
}

#[test]
fn modifier_applies_in_order_and_keeps_original_skill_def_clean() {
    let mut registry = registry();
    registry.register_skill_modifier(
        "greater_multiple_projectiles".to_owned(),
        projectile_modifier(vec![
            StatOp::Add("projectile_count".to_owned(), number(4.0)),
            StatOp::Mul("projectile_damage".to_owned(), number(0.74)),
            StatOp::Assign("projectile_spread_degrees".to_owned(), number(35.0)),
        ]),
    );
    let mut def = skill(
        "fireball",
        action("spawn_projectile", vec![("prefab", text("fireball"))]),
    );
    def.tags = vec!["spell".to_owned(), "projectile".to_owned(), "fire".to_owned()];
    def.params = args(vec![
        ("projectile_count", number(1.0)),
        ("projectile_damage", number(1.0)),
    ]);
    def.modifiers = vec!["greater_multiple_projectiles".to_owned()];
    let compiled = compile(&def, &registry).unwrap();
    assert_eq!(
        compiled.plan.stats.get("projectile_count"),
        Some(&number(5.0))
    );
    assert_eq!(
        compiled.plan.stats.get("projectile_damage"),
        Some(&number(0.74))
    );
    assert_eq!(
        compiled.plan.stats.get("projectile_spread_degrees"),
        Some(&number(35.0))
    );
    assert_eq!(def.params.get("projectile_count"), Some(&number(1.0)));
}

#[test]
fn execution_sequence_delay_and_on_event_resume() {
    let mut registry = registry();
    registry.register_skill_action(
        "record".to_owned(),
        ActionSlot::new(Box::new(TraceAction)),
    );
    let def = skill(
        "timed",
        SkillNode::Sequence(vec![
            action("record", vec![("label", text("start"))]),
            SkillNode::Delay(
                SkillExpr::new("0.5".to_owned()),
                Box::new(action("record", vec![("label", text("after_delay"))])),
            ),
            SkillNode::On(
                "hit".to_owned(),
                Box::new(action("record", vec![("label", expr("event.target"))])),
            ),
        ]),
    );
    let mut world = World::new(registry);
    world.add(&def).unwrap();
    let (entity, outcome) = world.cast("timed", 1, None);
    let (active, output, state) = suspended(outcome);
    assert_eq!(labels(&output), vec!["start"]);
    assert_eq!(state.branches.len(), 1);

    let (outputs, state) = stored(world.tick(entity, &active, &state, 500_000_000));
    assert_eq!(outputs.len(), 1);
    assert_eq!(labels(&outputs[0]), vec!["after_delay"]);
    assert_eq!(state.branches.len(), 1);

    let hit = SkillRuntimeSignal::new("hit".to_owned(), args(vec![("target", text("dummy"))]));
    let advance = world
        .signal(entity, &active, &state, &vec![hit])
        .unwrap();
    assert_eq!(labels(&advance.outputs[0]), vec!["dummy"]);
    assert!(matches!(advance.end, AdvanceEnd::Finished(_)));
}

#[test]
fn emitted_events_can_be_drained_after_cast_tick_and_event_resume() {
    let emit = |event: &str, key: &str, value: SkillValue| {
        SkillNode::Emit(event.to_owned(), args(vec![(key, value)]))
    };
    let def = skill(
        "emits",
        SkillNode::Sequence(vec![
            emit("cast_started", "skill", text("emits")),
            SkillNode::Delay(
                SkillExpr::new("0.25".to_owned()),
                Box::new(emit("delay_ready", "step", number(1.0))),
            ),
            SkillNode::On(
                "impact".to_owned(),
                Box::new(emit("impact_seen", "target", expr("event.target"))),
            ),
        ]),
    );
    let mut world = World::new(registry());
    world.add(&def).unwrap();
    let (entity, outcome) = world.cast("emits", 1, None);
    let (active, output, state) = suspended(outcome);
    assert_eq!(output.signals.len(), 1);
    assert_eq!(output.signals[0].name, "cast_started");
    assert_eq!(output.signals[0].payload.get("skill"), Some(&text("emits")));

    let (outputs, state) = stored(world.tick(entity, &active, &state, 250_000_000));
    assert_eq!(outputs[0].signals.len(), 1);
    assert_eq!(outputs[0].signals[0].name, "delay_ready");
    assert_eq!(
        outputs[0].signals[0].payload.get("step"),
        Some(&number(1.0))
    );

    let impact =
        SkillRuntimeSignal::new("impact".to_owned(), args(vec![("target", text("dummy"))]));
    let advance = world
        .signal(entity, &active, &state, &vec![impact])
        .unwrap();
    assert_eq!(advance.outputs[0].signals.len(), 1);
    assert_eq!(advance.outputs[0].signals[0].name, "impact_seen");
    assert_eq!(
        advance.outputs[0].signals[0].payload.get("target"),
        Some(&text("dummy"))
    );
}

#[test]
fn poe_fireball_gmp_compiles_payload_expressions() {
    let mut registry = registry();
    registry.register_skill_modifier(
        "greater_multiple_projectiles".to_owned(),
        projectile_modifier(vec![
            StatOp::Add("projectile_count".to_owned(), number(4.0)),
            StatOp::Mul("projectile_damage".to_owned(), number(0.74)),
        ]),
    );
    let payload = SkillNode::On(
        "hit".to_owned(),
        Box::new(action(
            "damage",
            vec![
                ("target", expr("event.target")),
                (
                    "amount",
                    expr("stat.base_damage * stat.spell_damage * stat.projectile_damage"),
                ),
                ("type", text("fire")),
            ],
        )),
    );
    let mut def = skill(
        "fireball",
        action(
            "spawn_projectile",
            vec![
                ("prefab", text("fireball")),
                ("count", expr("stat.projectile_count ?? 1")),
                ("payload", SkillValue::Node(Box::new(payload))),
            ],
        ),
    );
    def.tags = ["spell", "projectile", "aoe", "fire"]
        .into_iter()
        .map(str::to_owned)
        .collect();
    def.params = args(vec![
        ("base_damage", number(40.0)),
        ("spell_damage", number(1.0)),
        ("projectile_damage", number(1.0)),
        ("projectile_count", number(1.0)),
    ]);
    def.modifiers = vec!["greater_multiple_projectiles".to_owned()];
    let compiled = compile(&def, &registry).unwrap();
    assert_eq!(
        compiled.plan.stats.get("projectile_count"),
        Some(&number(5.0))
    );
    assert_eq!(
        compiled.plan.stats.get("projectile_damage"),
        Some(&number(0.74))
    );
}

#[test]
fn noita_wand_deck_double_cast_consumes_two_spells() {
    let mut def = skill(
        "basic_wand",
        SkillNode::Deck(vec![
            SkillNode::Modifier("double_cast".to_owned(), args(vec![])),
            SkillNode::Modifier("damage_plus".to_owned(), args(vec![("amount", number(12.0))])),
            SkillNode::Spell("spark_bolt".to_owned(), args(vec![])),
            SkillNode::Spell("magic_missile".to_owned(), args(vec![])),
        ]),
    );
    def.cast_model = "wand_deck".to_owned();
    let compiled = compile(&def, &registry()).unwrap();
    assert_eq!(
        compiled.plan.root,
        SkillNode::Sequence(vec![
            action(
                "spell",
                vec![("id", text("spark_bolt")), ("damage_bonus", number(12.0))]
            ),
            action(
                "spell",
                vec![("id", text("magic_missile")), ("damage_bonus", number(12.0))]
            ),
        ])
    );
}

#[test]
fn library_replace_from_ron_supports_hot_reload_and_invalid_assets() {
    let registry = registry();
    let mut library = SkillLibrary::new();
    let mut sources = skill_flow::asset::SkillAssetSources::new();
    let mut numbers = NumberTable::new();
    let id = SkillId::from("reloadable");

    sources.set_source("memory".to_owned(), "v1".to_owned());
    assert_eq!(sources.dirty_keys(), vec!["memory"]);
    let parsed = Ok(vec![skill(
        "reloadable",
        action("trace", vec![("label", text("v1"))]),
    )]);
    ask(&mut numbers, |n| {
        sources.compile_dirty_skill_asset("memory", &parsed, &registry, &mut library, n)
    })
    .unwrap();
    assert!(library.get(&id).is_some());
    assert!(sources.dirty_keys().is_empty());

    sources.set_source("memory".to_owned(), "v2".to_owned());
    let parsed = Ok(vec![skill("reloadable", action("missing", vec![]))]);
    let outcome = ask(&mut numbers, |n| {
        sources.compile_dirty_skill_asset("memory", &parsed, &registry, &mut library, n)
    })
    .unwrap();
    match outcome {
        skill_flow::asset::ReloadOutcome::Failed(failed) => {
            assert!(matches!(failed.error, SkillError::UnknownAction(id) if id == "missing"));
        }
        other => panic!("{other:?}"),
    }
    assert!(library.get(&id).is_none());
    assert!(library.invalid(&id).is_some());
}
