//! Compiling skill definitions.
use crate::action::{ActionSlot, SkillResult};
use crate::append::{append_graph_node, appended, extension_error, graph_args, to_ecs_args};
use crate::collect::{collected, lemma_first_failure};
use crate::context::{fresh_context, ContextView, SkillContext, SkillTags};
use crate::def::{
    copy_requirements, first_occurrences, tag_set, CompiledView, DefView, PlanView, SkillCompiled,
    SkillDef, SkillPlan,
};
use crate::error::{outcome, ErrorView, MessageView, SkillError, SkillMessage};
use crate::graph::{GraphView, SkillGraph};
use crate::keys::{copy_keys, key_list};
use crate::lower::{lower_node, lowered};
use crate::number::{NumberTable, NumbersView};
use crate::registry::{registry_names, ModifierSlot, RegistryView, SkillRegistry};
use crate::table::{lookup, names_of};
use crate::validate::checked;
use crate::value::{
    args_view, copy_args, nodes_view, ArgsView, NodeView, SkillArgs, SkillId, SkillNode,
};
use vstd::prelude::*;

verus! {

/// The registered actions by name.
pub type Actions = Seq<(Seq<char>, ActionSlot)>;

/// Whether a node is made of executable nodes and registered actions that take their arguments,
/// and the first fault if it is not.
pub open spec fn node_checked(n: NodeView, actions: Actions) -> Result<(), ErrorView>
    decreases n, 1nat,
{
    match n {
        NodeView::Sequence(l) => all_ok(each_checked(l, actions)),
        NodeView::Parallel(l) => all_ok(each_checked(l, actions)),
        NodeView::Delay(_, c) => node_checked(*c, actions),
        NodeView::Repeat { times, duration, interval, node } => node_checked(*node, actions),
        NodeView::If { condition, then_node, else_node } => match node_checked(
            *then_node,
            actions,
        ) {
            Ok(_) => match else_node {
                Some(c) => node_checked(*c, actions),
                None => Ok(()),
            },
            Err(e) => Err(e),
        },
        NodeView::Let(_, _, c) => node_checked(*c, actions),
        NodeView::On(_, c) => node_checked(*c, actions),
        NodeView::Emit(_, _) => Ok(()),
        NodeView::Action(id, args) => match lookup(actions, id) {
            Some(slot) => slot.accepts(args, names_of(actions)),
            None => Err(ErrorView::UnknownAction(id)),
        },
        NodeView::Deck(_) => Err(extension_error()),
        NodeView::Spell(_, _) => Err(extension_error()),
        NodeView::Modifier(_, _) => Err(extension_error()),
        NodeView::Typed { name, args } => Err(extension_error()),
    }
}

/// The outcome for each node.
pub open spec fn each_checked(l: Seq<NodeView>, actions: Actions) -> Seq<Result<(), ErrorView>>
    decreases l, 0nat,
{
    Seq::new(
        l.len(),
        |i: int|
            if 0 <= i < l.len() {
                node_checked(l[i], actions)
            } else {
                arbitrary()
            },
    )
}

/// Success where every outcome is success, else the first failure.
pub open spec fn all_ok(r: Seq<Result<(), ErrorView>>) -> Result<(), ErrorView> {
    match collected(r) {
        Ok(_) => Ok(()),
        Err(e) => Err(e),
    }
}

fn validate_list(l: &Vec<SkillNode>, registry: &SkillRegistry) -> (r: SkillResult)
    ensures
        outcome(r) == all_ok(each_checked(nodes_view(l@), registry@.actions)),
    decreases nodes_view(l@),
{
    let ghost parts = each_checked(nodes_view(l@), registry@.actions);
    let n: usize = l.len();
    let mut i: usize = 0;
    while i < n
        invariant
            i <= n,
            n == l@.len(),
            n == parts.len(),
            parts == each_checked(nodes_view(l@), registry@.actions),
            forall|j: int| 0 <= j < i ==> (#[trigger] parts[j]) is Ok,
        decreases n - i,
    {
        assert(nodes_view(l@)[i as int] == l@[i as int]@);
        assert(decreases_to!(nodes_view(l@) => nodes_view(l@)[i as int]));
        match validate_node(&l[i], registry) {
            Ok(_) => {},
            Err(e) => {
                proof {
                    lemma_first_failure(parts, i as int);
                }
                return Err(e);
            },
        }
        i = i + 1;
    }
    Ok(())
}

/// Whether a node is made of executable nodes and registered actions that take their arguments.
pub fn validate_node(node: &SkillNode, registry: &SkillRegistry) -> (r: SkillResult)
    ensures
        outcome(r) == node_checked(node@, registry@.actions),
    decreases node@,
{
    match node {
        SkillNode::Sequence(l) => {
            assert(decreases_to!(node@ => node@->Sequence_0));
            validate_list(l, registry)
        },
        SkillNode::Parallel(l) => {
            assert(decreases_to!(node@ => node@->Parallel_0));
            validate_list(l, registry)
        },
        SkillNode::Delay(_, c) => {
            assert(decreases_to!(node@ => node@->Delay_1));
            validate_node(c, registry)
        },
        SkillNode::Repeat { node: c, .. } => {
            assert(decreases_to!(node@ => node@->Repeat_node));
            validate_node(c, registry)
        },
        SkillNode::If { then_node, else_node, .. } => {
            assert(decreases_to!(node@ => node@->If_then_node));
            match validate_node(then_node, registry) {
                Ok(_) => {},
                Err(e) => return Err(e),
            }
            match else_node {
                Some(c) => {
                    assert(decreases_to!(node@ => node@->If_else_node));
                    assert(decreases_to!(node@->If_else_node => node@->If_else_node->0));
                    validate_node(c, registry)
                },
                None => Ok(()),
            }
        },
        SkillNode::Let(_, _, c) => {
            assert(decreases_to!(node@ => node@->Let_2));
            validate_node(c, registry)
        },
        SkillNode::On(_, c) => {
            assert(decreases_to!(node@ => node@->On_1));
            validate_node(c, registry)
        },
        SkillNode::Emit(_, _) => Ok(()),
        SkillNode::Action(id, args) => match registry.action(id.as_str()) {
            Some(slot) => slot.validate(args, &registry.actions().names()),
            None => Err(SkillError::UnknownAction(id.clone())),
        },
        SkillNode::Deck(_) | SkillNode::Spell(_, _) | SkillNode::Modifier(_, _)
        | SkillNode::Typed { .. } => Err(
            SkillError::runtime("extension node remained after cast model compilation"),
        ),
    }
}

/// The parameters after the modifiers from the `k`-th on. Each modifier that applies sees the
/// parameters that those before it have left.
pub open spec fn modified(
    ids: Seq<Seq<char>>,
    k: int,
    params: ArgsView,
    ctx: ContextView,
    modifiers: Seq<(Seq<char>, ModifierSlot)>,
    n: NumbersView,
) -> Result<ArgsView, ErrorView>
    decreases ids.len() - k,
{
    if 0 <= k < ids.len() {
        match lookup(modifiers, ids[k]) {
            Some(slot) => if slot.applies_to(ctx.tags) {
                match slot.changes(params, ctx, n) {
                    Ok(p) => modified(
                        ids,
                        k + 1,
                        p,
                        ContextView { stats: p, ..ctx },
                        modifiers,
                        n,
                    ),
                    Err(e) => Err(e),
                }
            } else {
                modified(ids, k + 1, params, ctx, modifiers, n)
            },
            None => Err(ErrorView::UnknownModifier(ids[k])),
        }
    } else {
        Ok(params)
    }
}

fn apply_modifiers(
    skill: &SkillDef,
    tags: &SkillTags,
    registry: &SkillRegistry,
    numbers: &NumberTable,
) -> (r: Result<SkillArgs, SkillError>)
    ensures
        crate::expr::args_outcome(r) == modified(
            skill@.modifiers,
            0,
            skill@.params,
            fresh_context(skill@.id, skill@.params, key_list(*tags), None, 0),
            registry@.modifiers,
            numbers@,
        ),
{
    let mut params: SkillArgs = copy_args(&skill.params);
    let mut ctx = SkillContext::new(
        skill.id.clone(),
        copy_args(&params),
        copy_keys(tags),
        None,
        0,
    );
    let n: usize = skill.modifiers.len();
    let mut i: usize = 0;
    while i < n
        invariant
            i <= n,
            n == skill.modifiers@.len(),
            ctx@.tags == key_list(*tags),
            modified(
                skill@.modifiers,
                0,
                skill@.params,
                fresh_context(skill@.id, skill@.params, key_list(*tags), None, 0),
                registry@.modifiers,
                numbers@,
            ) == modified(
                skill@.modifiers,
                i as int,
                args_view(params),
                ctx@,
                registry@.modifiers,
                numbers@,
            ),
        decreases n - i,
    {
        assert(skill@.modifiers[i as int] == skill.modifiers@[i as int]@);
        match registry.modifier(skill.modifiers[i].as_str()) {
            Some(slot) => {
                if slot.applies(tags) {
                    match slot.apply(&mut params, &ctx, numbers) {
                        Ok(_) => {},
                        Err(e) => return Err(e),
                    }
                    ctx.stats = copy_args(&params);
                }
            },
            None => return Err(SkillError::UnknownModifier(skill.modifiers[i].clone())),
        }
        i = i + 1;
    }
    Ok(params)
}

/// The graph of a skill.
pub open spec fn graph_from(
    id: Seq<char>,
    tags: Seq<Seq<char>>,
    params: ArgsView,
    root: NodeView,
) -> Result<GraphView, ErrorView> {
    match graph_args(params) {
        Ok(p) => match appended(
            root,
            GraphView { id, tags, params: p, root: None, nodes: Seq::empty() },
        ) {
            Ok((g, root_id)) => {
                let whole = GraphView { root: Some(root_id), ..g };
                match checked(whole) {
                    Ok(_) => Ok(whole),
                    Err(e) => Err(ErrorView::Runtime(MessageView::Graph(e))),
                }
            },
            Err(e) => Err(e),
        },
        Err(e) => Err(e),
    }
}

pub open spec fn graph_outcome(r: Result<SkillGraph, SkillError>) -> Result<GraphView, ErrorView> {
    match r {
        Ok(g) => Ok(g@),
        Err(e) => Err(e@),
    }
}

fn graph_from_parts(id: &SkillId, tags: &SkillTags, params: &SkillArgs, root: &SkillNode) -> (r:
    Result<SkillGraph, SkillError>)
    ensures
        graph_outcome(r) == graph_from(id@, key_list(*tags), args_view(*params), root@),
{
    let mut graph = SkillGraph::new(id.clone());
    graph.tags = copy_keys(tags);
    graph.params = match to_ecs_args(params) {
        Ok(p) => p,
        Err(e) => return Err(e),
    };
    let root_id = match append_graph_node(root, &mut graph) {
        Ok(id) => id,
        Err(e) => return Err(e),
    };
    graph.set_root(root_id);
    match graph.validate() {
        Ok(_) => Ok(graph),
        Err(e) => Err(SkillError::Runtime(SkillMessage::Graph(e))),
    }
}

/// The outcome of compiling a skill. The body goes through the cast model and the registered
/// syntax nodes, the parameters through the modifiers; what comes out is checked and made a graph.
pub open spec fn compiled(skill: DefView, registry: RegistryView, n: NumbersView) -> Result<
    CompiledView,
    ErrorView,
> {
    let tags = first_occurrences(skill.tags);
    match lookup(registry.cast_models, skill.cast_model) {
        None => Err(ErrorView::UnknownCastModel(skill.cast_model)),
        Some(model) => match model.casts(skill, registry_names(registry), n) {
            Err(e) => Err(e),
            Ok(body) => match lowered(body, registry.dsl_nodes) {
                Err(e) => Err(e),
                Ok(root) => match modified(
                    skill.modifiers,
                    0,
                    skill.params,
                    fresh_context(skill.id, skill.params, tags, None, 0),
                    registry.modifiers,
                    n,
                ) {
                    Err(e) => Err(e),
                    Ok(params) => match node_checked(root, registry.actions) {
                        Err(e) => Err(e),
                        Ok(_) => match graph_from(skill.id, tags, params, root) {
                            Err(e) => Err(e),
                            Ok(graph) => Ok(
                                CompiledView {
                                    id: skill.id,
                                    tags,
                                    cast_model: skill.cast_model,
                                    requirements: skill.requirements,
                                    plan: PlanView { root, stats: params },
                                    graph,
                                },
                            ),
                        },
                    },
                },
            },
        },
    }
}

pub open spec fn compiled_outcome(r: Result<SkillCompiled, SkillError>) -> Result<
    CompiledView,
    ErrorView,
> {
    match r {
        Ok(c) => Ok(c@),
        Err(e) => Err(e@),
    }
}

/// Compiles a skill.
pub fn compile_skill(skill: &SkillDef, registry: &SkillRegistry, numbers: &NumberTable) -> (r:
    Result<SkillCompiled, SkillError>)
    ensures
        compiled_outcome(r) == compiled(skill@, registry@, numbers@),
{
    let body = match registry.cast_model(skill.cast_model.as_str()) {
        Some(model) => match model.compile(skill, &registry.names(), numbers) {
            Ok(n) => n,
            Err(e) => return Err(e),
        },
        None => return Err(SkillError::UnknownCastModel(skill.cast_model.clone())),
    };
    let root = match lower_node(&body, registry) {
        Ok(n) => n,
        Err(e) => return Err(e),
    };
    let tags: SkillTags = tag_set(&skill.tags);
    let params = match apply_modifiers(skill, &tags, registry, numbers) {
        Ok(p) => p,
        Err(e) => return Err(e),
    };
    match validate_node(&root, registry) {
        Ok(_) => {},
        Err(e) => return Err(e),
    }
    let graph = match graph_from_parts(&skill.id, &tags, &params, &root) {
        Ok(g) => g,
        Err(e) => return Err(e),
    };
    Ok(
        SkillCompiled {
            id: skill.id.clone(),
            tags,
            cast_model: skill.cast_model.clone(),
            requirements: copy_requirements(&skill.requirements),
            plan: SkillPlan::new(root, params),
            graph,
        },
    )
}

/// Compiles a skill and keeps its graph alone.
pub fn compile_skill_graph(skill: &SkillDef, registry: &SkillRegistry, numbers: &NumberTable) -> (r:
    Result<SkillGraph, SkillError>)
    ensures
        graph_outcome(r) == match compiled(skill@, registry@, numbers@) {
            Ok(c) => Ok::<GraphView, ErrorView>(c.graph),
            Err(e) => Err(e),
        },
{
    match compile_skill(skill, registry, numbers) {
        Ok(c) => Ok(c.graph),
        Err(e) => Err(e),
    }
}

/// A law of compilation: a graph that comes out is well formed.
pub proof fn law_compiled_graph_is_valid(skill: DefView, registry: RegistryView, n: NumbersView)
    requires
        compiled(skill, registry, n) is Ok,
    ensures
        checked(compiled(skill, registry, n)->Ok_0.graph) is Ok,
{
}

} // verus!
