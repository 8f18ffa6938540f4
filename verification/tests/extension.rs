use skill_flow::action::{
    ActionNamesView, ActionOutputView, ActionSlot, InputView, SkillAction, SkillActionInput,
    SkillActionNames, SkillActionOutput,
};
use skill_flow::compile::compile_skill;
use skill_flow::context::{ContextView, SkillContext};
use skill_flow::def::{default_cast_model, DefView, SkillDef};
use skill_flow::error::{ErrorView, SkillError};
use skill_flow::gameplay::register_gameplay_primitives;
use skill_flow::number::{NumberTable, NumbersView};
use skill_flow::registry::{
    CastModel, CastModelSlot, DslNodeSlot, ErasedSkillDslNode, NamesView, SkillRegistry,
    SkillRegistryNames,
};
use skill_flow::table::KeyedMap;
use skill_flow::value::{
    ArgsView, NodeView, SkillArgs, SkillId, SkillNode, SkillTypedArgs, SkillValue, TypedView,
};

struct Dash;

impl ErasedSkillDslNode for Dash {
    fn lowers(&self, _args: TypedView) -> Result<NodeView, ErrorView> {
        unreachable!("only proofs speak of this")
    }

    fn lower(&self, args: &SkillTypedArgs) -> Result<SkillNode, SkillError> {
        let mut out = KeyedMap::new();
        if let SkillTypedArgs::Struct(fields) = args {
            if let Some(label) = fields.get("label") {
                out.insert("label".to_owned(), SkillValue::String(label.clone()));
            }
        }
        Ok(SkillNode::Action("trace".to_owned(), out))
    }
}

#[test]
fn registered_syntax_is_lowered_wherever_it_stands() {
    let mut registry = SkillRegistry::with_core();
    register_gameplay_primitives(&mut registry);
    registry.register_dsl_node("Dash".to_owned(), DslNodeSlot::new(Box::new(Dash)));
    assert!(registry.has_dsl_node("Dash"));
    let dash = |label: &str| {
        let mut fields = KeyedMap::new();
        fields.insert("label".to_owned(), label.to_owned());
        SkillNode::Typed {
            name: "Dash".to_owned(),
            args: SkillTypedArgs::Struct(fields),
        }
    };
    let trace = |label: &str| {
        let mut out = KeyedMap::new();
        out.insert("label".to_owned(), SkillValue::String(label.to_owned()));
        SkillNode::Action("trace".to_owned(), out)
    };
    let with_payload = |node: SkillNode| {
        let mut out = KeyedMap::new();
        out.insert("payload".to_owned(), SkillValue::Node(Box::new(node)));
        SkillNode::Action("spawn_projectile".to_owned(), out)
    };
    let def = SkillDef {
        id: SkillId::from("s"),
        tags: Vec::new(),
        cast_model: default_cast_model(),
        requirements: Vec::new(),
        params: KeyedMap::new(),
        modifiers: Vec::new(),
        body: SkillNode::Sequence(vec![dash("a"), with_payload(dash("b"))]),
    };
    let compiled = compile_skill(&def, &registry, &NumberTable::new()).unwrap();
    assert_eq!(
        compiled.plan.root,
        SkillNode::Sequence(vec![trace("a"), with_payload(trace("b"))])
    );
    let mut plain = def;
    plain.body = SkillNode::Sequence(vec![trace("a"), with_payload(trace("b"))]);
    let again = compile_skill(&plain, &registry, &NumberTable::new()).unwrap();
    assert_eq!(format!("{again:?}"), format!("{compiled:?}"));
}

struct Needs;

impl SkillAction for Needs {
    fn accepts(&self, _args: ArgsView, _known: ActionNamesView) -> Result<(), ErrorView> {
        unreachable!("only proofs speak of this")
    }

    fn emits(
        &self,
        _ctx: ContextView,
        _input: InputView,
        _out: ActionOutputView,
        _n: NumbersView,
    ) -> Result<ActionOutputView, ErrorView> {
        unreachable!("only proofs speak of this")
    }

    fn leaves(
        &self,
        _ctx: ContextView,
        _input: InputView,
        _out: ActionOutputView,
        _n: NumbersView,
    ) -> ActionOutputView {
        unreachable!("only proofs speak of this")
    }

    fn validate(&self, args: &SkillArgs, known: &SkillActionNames) -> Result<(), SkillError> {
        match args.get("action") {
            Some(SkillValue::String(id)) if known.has_action(id) => Ok(()),
            _ => Err(SkillError::UnknownAction("needed".to_owned())),
        }
    }

    fn emit(
        &self,
        _ctx: &SkillContext,
        _input: &SkillActionInput,
        _out: &mut SkillActionOutput,
        _numbers: &NumberTable,
    ) -> Result<(), SkillError> {
        Ok(())
    }
}

struct Picky;

impl CastModel for Picky {
    fn casts(
        &self,
        _skill: DefView,
        _known: NamesView,
        _n: NumbersView,
    ) -> Result<NodeView, ErrorView> {
        unreachable!("only proofs speak of this")
    }

    fn compile(
        &self,
        skill: &SkillDef,
        known: &SkillRegistryNames,
        _numbers: &NumberTable,
    ) -> Result<SkillNode, SkillError> {
        assert!(known.has_cast_model("direct") && !known.has_cast_model("other"));
        assert!(!known.has_modifier("direct"));
        if known.has_action("trace") && known.has_dsl_node("Dash") {
            Ok(skill.body.clone())
        } else {
            Err(SkillError::UnknownAction("trace".to_owned()))
        }
    }
}

#[test]
fn extensions_see_what_is_registered() {
    let needs = |id: &str| {
        let mut args = KeyedMap::new();
        args.insert("action".to_owned(), SkillValue::String(id.to_owned()));
        SkillDef {
            id: SkillId::from("s"),
            tags: Vec::new(),
            cast_model: "picky".to_owned(),
            requirements: Vec::new(),
            params: KeyedMap::new(),
            modifiers: Vec::new(),
            body: SkillNode::Action("needs".to_owned(), args),
        }
    };
    let mut registry = SkillRegistry::with_core();
    registry.register_skill_action("needs".to_owned(), ActionSlot::new(Box::new(Needs)));
    registry.register_cast_model("picky".to_owned(), CastModelSlot::new(Box::new(Picky)));
    let numbers = NumberTable::new();
    assert!(matches!(
        compile_skill(&needs("trace"), &registry, &numbers),
        Err(SkillError::UnknownAction(id)) if id == "trace"
    ));
    register_gameplay_primitives(&mut registry);
    registry.register_dsl_node("Dash".to_owned(), DslNodeSlot::new(Box::new(Dash)));
    assert!(compile_skill(&needs("trace"), &registry, &numbers).is_ok());
    assert!(matches!(
        compile_skill(&needs("missing"), &registry, &numbers),
        Err(SkillError::UnknownAction(id)) if id == "needed"
    ));
}
