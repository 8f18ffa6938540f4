//! What a game adds to the skill language.
use crate::action::{ActionSlot, Held, SkillActionNames, SkillActionRegistry, SkillResult};
use crate::context::{ContextView, SkillContext, SkillTags};
use crate::def::{DefView, SkillDef};
use crate::error::{ErrorView, SkillError};
use crate::keys::{key_list, key_position};
use crate::number::{NumberTable, NumbersView};
use crate::table::{distinct, has_key, lookup, names_of, put, KeyedMap};
use crate::value::{args_view, ArgsView, NodeView, SkillArgs, SkillNode, SkillTypedArgs, TypedView};
use indexmap::IndexSet;
use vstd::prelude::*;

verus! {

/// The content of the outcome of a computation with a node.
pub open spec fn node_outcome(r: Result<SkillNode, SkillError>) -> Result<NodeView, ErrorView> {
    match r {
        Ok(v) => Ok(v@),
        Err(e) => Err(e@),
    }
}

/// Changes the parameters of a skill before it is compiled. What it does depends on what it is
/// given alone.
pub trait SkillModifier: Send + Sync {
    /// Whether the modifier is meant for skills with these tags.
    spec fn applies_to(&self, tags: Seq<Seq<char>>) -> bool;

    /// The changed parameters, or the error.
    spec fn changes(&self, params: ArgsView, ctx: ContextView, n: NumbersView) -> Result<
        ArgsView,
        ErrorView,
    >;

    /// The parameters when it fails.
    spec fn leaves(&self, params: ArgsView, ctx: ContextView, n: NumbersView) -> ArgsView;

    fn applies(&self, tags: &SkillTags) -> (r: bool)
        ensures
            r == self.applies_to(key_list(*tags)),
    ;

    fn apply(&self, params: &mut SkillArgs, ctx: &SkillContext, numbers: &NumberTable) -> (r:
        SkillResult)
        ensures
            match self.changes(args_view(*old(params)), ctx@, numbers@) {
                Ok(p) => r is Ok && args_view(*final(params)) == p,
                Err(e) => r matches Err(x) && x@ == e && args_view(*final(params)) == self.leaves(
                    args_view(*old(params)),
                    ctx@,
                    numbers@,
                ),
            },
    ;
}

/// The names of what is registered.
pub struct SkillRegistryNames<'a> {
    modifiers: &'a IndexSet<String>,
    cast_models: &'a IndexSet<String>,
    dsl_nodes: &'a IndexSet<String>,
    actions: SkillActionNames<'a>,
}

pub struct NamesView {
    pub modifiers: Seq<Seq<char>>,
    pub cast_models: Seq<Seq<char>>,
    pub dsl_nodes: Seq<Seq<char>>,
    pub actions: Seq<Seq<char>>,
}

impl<'a> SkillRegistryNames<'a> {
    pub closed spec fn view(&self) -> NamesView {
        NamesView {
            modifiers: key_list(*self.modifiers),
            cast_models: key_list(*self.cast_models),
            dsl_nodes: key_list(*self.dsl_nodes),
            actions: self.actions@,
        }
    }

    pub fn has_modifier(&self, id: &str) -> (r: bool)
        ensures
            r == self@.modifiers.contains(id@),
    {
        key_position(self.modifiers, id).is_some()
    }

    pub fn has_cast_model(&self, id: &str) -> (r: bool)
        ensures
            r == self@.cast_models.contains(id@),
    {
        key_position(self.cast_models, id).is_some()
    }

    pub fn has_dsl_node(&self, name: &str) -> (r: bool)
        ensures
            r == self@.dsl_nodes.contains(name@),
    {
        key_position(self.dsl_nodes, name).is_some()
    }

    pub fn has_action(&self, id: &str) -> (r: bool)
        ensures
            r == self@.actions.contains(id@),
    {
        self.actions.has_action(id)
    }
}

/// Turns the body of a skill into executable nodes. What it does depends on what it is given
/// alone.
pub trait CastModel: Send + Sync {
    /// The executable body, beside what is registered, or the error.
    spec fn casts(&self, skill: DefView, known: NamesView, n: NumbersView) -> Result<
        NodeView,
        ErrorView,
    >;

    fn compile(&self, skill: &SkillDef, known: &SkillRegistryNames, numbers: &NumberTable) -> (r:
        Result<SkillNode, SkillError>)
        ensures
            node_outcome(r) == self.casts(skill@, known@, numbers@),
    ;
}

/// Turns a registered syntax node into executable nodes. What it does depends on what it is given
/// alone.
pub trait ErasedSkillDslNode: Send + Sync {
    /// The executable node, or the error.
    spec fn lowers(&self, args: TypedView) -> Result<NodeView, ErrorView>;

    fn lower(&self, args: &SkillTypedArgs) -> (r: Result<SkillNode, SkillError>)
        ensures
            node_outcome(r) == self.lowers(args@),
    ;
}

/// A registered modifier.
pub struct ModifierSlot {
    pub held: Held<Box<dyn SkillModifier>>,
}

impl ModifierSlot {
    /// Whether the modifier is meant for skills with these tags.
    pub open spec fn applies_to(&self, tags: Seq<Seq<char>>) -> bool {
        self.held.item.applies_to(tags)
    }

    /// The changed parameters, or the error.
    pub open spec fn changes(&self, params: ArgsView, ctx: ContextView, n: NumbersView) -> Result<
        ArgsView,
        ErrorView,
    > {
        self.held.item.changes(params, ctx, n)
    }

    /// The parameters when it fails.
    pub open spec fn leaves(&self, params: ArgsView, ctx: ContextView, n: NumbersView) -> ArgsView {
        self.held.item.leaves(params, ctx, n)
    }

    pub fn new(modifier: Box<dyn SkillModifier>) -> (r: ModifierSlot)
        ensures
            forall|tags: Seq<Seq<char>>| #[trigger]
                r.applies_to(tags) == modifier.applies_to(tags),
            forall|params: ArgsView, ctx: ContextView, n: NumbersView| #[trigger]
                r.changes(params, ctx, n) == modifier.changes(params, ctx, n),
            forall|params: ArgsView, ctx: ContextView, n: NumbersView| #[trigger]
                r.leaves(params, ctx, n) == modifier.leaves(params, ctx, n),
    {
        let held = Held { item: modifier };
        ModifierSlot { held }
    }

    pub fn applies(&self, tags: &SkillTags) -> (r: bool)
        ensures
            r == self.applies_to(key_list(*tags)),
    {
        self.held.item.applies(tags)
    }

    pub fn apply(&self, params: &mut SkillArgs, ctx: &SkillContext, numbers: &NumberTable) -> (r:
        SkillResult)
        ensures
            match self.changes(args_view(*old(params)), ctx@, numbers@) {
                Ok(p) => r is Ok && args_view(*final(params)) == p,
                Err(e) => r matches Err(x) && x@ == e && args_view(*final(params)) == self.leaves(
                    args_view(*old(params)),
                    ctx@,
                    numbers@,
                ),
            },
    {
        self.held.item.apply(params, ctx, numbers)
    }
}

/// A registered cast model.
pub struct CastModelSlot {
    pub held: Held<Box<dyn CastModel>>,
}

impl CastModelSlot {
    /// The executable body, beside what is registered, or the error.
    pub open spec fn casts(&self, skill: DefView, known: NamesView, n: NumbersView) -> Result<
        NodeView,
        ErrorView,
    > {
        self.held.item.casts(skill, known, n)
    }

    pub fn new(model: Box<dyn CastModel>) -> (r: CastModelSlot)
        ensures
            forall|skill: DefView, known: NamesView, n: NumbersView| #[trigger]
                r.casts(skill, known, n) == model.casts(skill, known, n),
    {
        let held = Held { item: model };
        CastModelSlot { held }
    }

    pub fn compile(
        &self,
        skill: &SkillDef,
        known: &SkillRegistryNames,
        numbers: &NumberTable,
    ) -> (r: Result<SkillNode, SkillError>)
        ensures
            node_outcome(r) == self.casts(skill@, known@, numbers@),
    {
        self.held.item.compile(skill, known, numbers)
    }
}

/// A registered syntax node.
pub struct DslNodeSlot {
    pub held: Held<Box<dyn ErasedSkillDslNode>>,
}

impl DslNodeSlot {
    /// The executable node, or the error.
    pub open spec fn lowers(&self, args: TypedView) -> Result<NodeView, ErrorView> {
        self.held.item.lowers(args)
    }

    pub fn new(node: Box<dyn ErasedSkillDslNode>) -> (r: DslNodeSlot)
        ensures
            forall|args: TypedView| #[trigger] r.lowers(args) == node.lowers(args),
    {
        let held = Held { item: node };
        DslNodeSlot { held }
    }

    pub fn lower(&self, args: &SkillTypedArgs) -> (r: Result<SkillNode, SkillError>)
        ensures
            node_outcome(r) == self.lowers(args@),
    {
        self.held.item.lower(args)
    }
}

/// What a game has registered.
pub struct SkillRegistry {
    modifiers: KeyedMap<ModifierSlot>,
    cast_models: KeyedMap<CastModelSlot>,
    dsl_nodes: KeyedMap<DslNodeSlot>,
    actions: SkillActionRegistry,
}

pub struct RegistryView {
    pub modifiers: Seq<(Seq<char>, ModifierSlot)>,
    pub cast_models: Seq<(Seq<char>, CastModelSlot)>,
    pub dsl_nodes: Seq<(Seq<char>, DslNodeSlot)>,
    pub actions: Seq<(Seq<char>, ActionSlot)>,
}

/// The names in a registry.
pub open spec fn registry_names(r: RegistryView) -> NamesView {
    NamesView {
        modifiers: names_of(r.modifiers),
        cast_models: names_of(r.cast_models),
        dsl_nodes: names_of(r.dsl_nodes),
        actions: names_of(r.actions),
    }
}

/// The cast model that takes a body as it stands.
#[derive(Clone, Copy, Debug)]
pub struct DirectCastModel;

impl CastModel for DirectCastModel {
    open spec fn casts(&self, skill: DefView, known: NamesView, n: NumbersView) -> Result<
        NodeView,
        ErrorView,
    > {
        Ok(skill.body)
    }

    fn compile(&self, skill: &SkillDef, _known: &SkillRegistryNames, _numbers: &NumberTable) -> (r:
        Result<SkillNode, SkillError>) {
        Ok(skill.body.clone())
    }
}

impl SkillRegistry {
    pub closed spec fn view(&self) -> RegistryView {
        RegistryView {
            modifiers: self.modifiers@,
            cast_models: self.cast_models@,
            dsl_nodes: self.dsl_nodes@,
            actions: self.actions@,
        }
    }

    /// A registry without entries.
    pub fn new() -> (r: SkillRegistry)
        ensures
            r@ == (RegistryView {
                modifiers: Seq::empty(),
                cast_models: Seq::empty(),
                dsl_nodes: Seq::empty(),
                actions: Seq::empty(),
            }),
    {
        SkillRegistry {
            modifiers: KeyedMap::new(),
            cast_models: KeyedMap::new(),
            dsl_nodes: KeyedMap::new(),
            actions: SkillActionRegistry::new(),
        }
    }

    /// A registry with the direct cast model alone.
    pub fn with_core() -> (r: SkillRegistry)
        ensures
            r@.modifiers == Seq::<(Seq<char>, ModifierSlot)>::empty(),
            r@.dsl_nodes == Seq::<(Seq<char>, DslNodeSlot)>::empty(),
            r@.actions == Seq::<(Seq<char>, ActionSlot)>::empty(),
            r@.cast_models.len() == 1,
            r@.cast_models[0].0 == "direct"@,
            forall|skill: DefView, known: NamesView, n: NumbersView| #[trigger]
                r@.cast_models[0].1.casts(skill, known, n) == DirectCastModel.casts(
                    skill,
                    known,
                    n,
                ),
    {
        let mut registry = SkillRegistry::new();
        let model = CastModelSlot::new(Box::new(DirectCastModel));
        registry.register_cast_model("direct".to_owned(), model);
        assert(!has_key(Seq::<(Seq<char>, CastModelSlot)>::empty(), "direct"@));
        assert(registry@.cast_models[0] == ("direct"@, model));
        registry
    }

    /// Registers a modifier; one that had the name before is replaced.
    pub fn register_skill_modifier(&mut self, id: String, modifier: ModifierSlot)
        ensures
            final(self)@ == (RegistryView {
                modifiers: put(old(self)@.modifiers, id@, modifier),
                ..old(self)@
            }),
            distinct(old(self)@.modifiers),
            distinct(final(self)@.modifiers),
    {
        let _ = self.modifiers.insert(id, modifier);
    }

    /// Registers a cast model; one that had the name before is replaced.
    pub fn register_cast_model(&mut self, id: String, model: CastModelSlot)
        ensures
            final(self)@ == (RegistryView {
                cast_models: put(old(self)@.cast_models, id@, model),
                ..old(self)@
            }),
            distinct(old(self)@.cast_models),
            distinct(final(self)@.cast_models),
    {
        let _ = self.cast_models.insert(id, model);
    }

    /// Registers a syntax node; one that had the name before is replaced.
    pub fn register_dsl_node(&mut self, name: String, node: DslNodeSlot)
        ensures
            final(self)@ == (RegistryView {
                dsl_nodes: put(old(self)@.dsl_nodes, name@, node),
                ..old(self)@
            }),
            distinct(old(self)@.dsl_nodes),
            distinct(final(self)@.dsl_nodes),
    {
        let _ = self.dsl_nodes.insert(name, node);
    }

    /// Registers an action; one that had the name before is replaced.
    pub fn register_skill_action(&mut self, id: String, action: ActionSlot)
        ensures
            final(self)@ == (RegistryView {
                actions: put(old(self)@.actions, id@, action),
                ..old(self)@
            }),
            distinct(old(self)@.actions),
            distinct(final(self)@.actions),
    {
        self.actions.register_skill_action(id, action);
    }

    /// The names of what is registered.
    pub fn names(&self) -> (r: SkillRegistryNames<'_>)
        ensures
            r@ == registry_names(self@),
    {
        SkillRegistryNames {
            modifiers: self.modifiers.key_set(),
            cast_models: self.cast_models.key_set(),
            dsl_nodes: self.dsl_nodes.key_set(),
            actions: self.actions.names(),
        }
    }

    /// The registered actions.
    pub fn actions(&self) -> (r: &SkillActionRegistry)
        ensures
            r@ == self@.actions,
    {
        &self.actions
    }

    /// The modifier with a name.
    pub fn modifier(&self, id: &str) -> (r: Option<&ModifierSlot>)
        ensures
            distinct(self@.modifiers),
            match r {
                Some(slot) => lookup(self@.modifiers, id@) == Some(*slot),
                None => lookup(self@.modifiers, id@) is None,
            },
    {
        self.modifiers.get(id)
    }

    /// The cast model with a name.
    pub fn cast_model(&self, id: &str) -> (r: Option<&CastModelSlot>)
        ensures
            distinct(self@.cast_models),
            match r {
                Some(slot) => lookup(self@.cast_models, id@) == Some(*slot),
                None => lookup(self@.cast_models, id@) is None,
            },
    {
        self.cast_models.get(id)
    }

    /// The syntax node with a name.
    pub fn dsl_node(&self, name: &str) -> (r: Option<&DslNodeSlot>)
        ensures
            distinct(self@.dsl_nodes),
            match r {
                Some(slot) => lookup(self@.dsl_nodes, name@) == Some(*slot),
                None => lookup(self@.dsl_nodes, name@) is None,
            },
    {
        self.dsl_nodes.get(name)
    }

    /// The action with a name.
    pub fn action(&self, id: &str) -> (r: Option<&ActionSlot>)
        ensures
            distinct(self@.actions),
            match r {
                Some(slot) => lookup(self@.actions, id@) == Some(*slot),
                None => lookup(self@.actions, id@) is None,
            },
    {
        self.actions.action(id)
    }

    pub fn has_modifier(&self, id: &str) -> (r: bool)
        ensures
            r == has_key(self@.modifiers, id@),
    {
        self.modifiers.contains_key(id)
    }

    pub fn has_cast_model(&self, id: &str) -> (r: bool)
        ensures
            r == has_key(self@.cast_models, id@),
    {
        self.cast_models.contains_key(id)
    }

    pub fn has_dsl_node(&self, name: &str) -> (r: bool)
        ensures
            r == has_key(self@.dsl_nodes, name@),
    {
        self.dsl_nodes.contains_key(name)
    }
}

} // verus!
