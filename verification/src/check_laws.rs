//! Which nodes can be executed, and which definitions compile.
use crate::action::ActionSlot;
use crate::append::extension_error;
use crate::collect::lemma_first_failure;
use crate::compile::{compiled, each_checked, modified, node_checked, Actions};
use crate::context::fresh_context;
use crate::def::{first_occurrences, CompiledView, DefView};
use crate::error::ErrorView;
use crate::lower::lowered;
use crate::number::NumbersView;
use crate::registry::{registry_names, CastModelSlot, RegistryView};
use crate::table::{distinct, has_key, lemma_found, lookup, names_of};
use crate::value::{ArgsView, NodeView};
use vstd::prelude::*;

verus! {

/// A node stands directly within another.
pub open spec fn stands_within(c: NodeView, n: NodeView) -> bool {
    match n {
        NodeView::Sequence(l) => l.contains(c),
        NodeView::Parallel(l) => l.contains(c),
        NodeView::Delay(_, x) => *x == c,
        NodeView::Repeat { times, duration, interval, node } => *node == c,
        NodeView::If { condition, then_node, else_node } => *then_node == c || (else_node matches Some(
            x,
        ) && *x == c),
        NodeView::Let(_, _, x) => *x == c,
        NodeView::On(_, x) => *x == c,
        _ => false,
    }
}

/// A node holds what only a cast model can make sense of.
pub open spec fn is_extension(n: NodeView) -> bool {
    n is Deck || n is Spell || n is Modifier || n is Typed
}

/// A law of checking: a node passes only if every node within it passes, and one that is neither an
/// action nor left over from a cast model passes if they all do.
pub proof fn law_nodes_pass_with_their_parts(n: NodeView, actions: Actions)
    ensures
        node_checked(n, actions) is Ok ==> forall|c: NodeView|
            #[trigger] stands_within(c, n) ==> node_checked(c, actions) is Ok,
        !is_extension(n) && !(n is Action) && (forall|c: NodeView|
            #[trigger] stands_within(c, n) ==> node_checked(c, actions) is Ok) ==> node_checked(
            n,
            actions,
        ) is Ok,
{
    match n {
        NodeView::Sequence(l) => {
            lemma_list(l, n, actions);
        },
        NodeView::Parallel(l) => {
            lemma_list(l, n, actions);
        },
        NodeView::Delay(_, x) => {
            assert(stands_within(*x, n));
        },
        NodeView::Repeat { times, duration, interval, node } => {
            assert(stands_within(*node, n));
        },
        NodeView::If { condition, then_node, else_node } => {
            assert(stands_within(*then_node, n));
            if let Some(x) = else_node {
                assert(stands_within(*x, n));
            }
        },
        NodeView::Let(_, _, x) => {
            assert(stands_within(*x, n));
        },
        NodeView::On(_, x) => {
            assert(stands_within(*x, n));
        },
        _ => {},
    }
}

proof fn lemma_list(l: Seq<NodeView>, n: NodeView, actions: Actions)
    requires
        n == NodeView::Sequence(l) || n == NodeView::Parallel(l),
    ensures
        node_checked(n, actions) is Ok ==> forall|c: NodeView|
            #[trigger] stands_within(c, n) ==> node_checked(c, actions) is Ok,
        (forall|c: NodeView| #[trigger] stands_within(c, n) ==> node_checked(c, actions) is Ok)
            ==> node_checked(n, actions) is Ok,
{
    let parts = each_checked(l, actions);
    assert(parts.len() == l.len());
    assert forall|i: int| 0 <= i < l.len() implies #[trigger] parts[i] == node_checked(
        l[i],
        actions,
    ) by {}
    if node_checked(n, actions) is Ok {
        assert forall|c: NodeView| #[trigger] stands_within(c, n) implies node_checked(
            c,
            actions,
        ) is Ok by {
            let i = choose|i: int| 0 <= i < l.len() && l[i] == c;
            assert(parts[i] is Ok);
        }
    }
    if forall|c: NodeView| #[trigger] stands_within(c, n) ==> node_checked(c, actions) is Ok {
        assert forall|i: int| 0 <= i < parts.len() implies (#[trigger] parts[i]) is Ok by {
            assert(l.contains(l[i]));
            assert(stands_within(l[i], n));
        }
    }
}

/// A law of checking: the first fault in a list of nodes is the one that is reported.
pub proof fn law_first_fault_is_reported(l: Seq<NodeView>, i: int, e: ErrorView, actions: Actions)
    requires
        0 <= i < l.len(),
        node_checked(l[i], actions) == Err::<(), ErrorView>(e),
        forall|j: int| 0 <= j < i ==> node_checked(#[trigger] l[j], actions) is Ok,
    ensures
        node_checked(NodeView::Sequence(l), actions) == Err::<(), ErrorView>(e),
        node_checked(NodeView::Parallel(l), actions) == Err::<(), ErrorView>(e),
{
    let parts = each_checked(l, actions);
    assert forall|j: int| 0 <= j < l.len() implies #[trigger] parts[j] == node_checked(
        l[j],
        actions,
    ) by {}
    assert forall|j: int| 0 <= j < i implies (#[trigger] parts[j]) is Ok by {
        assert(node_checked(l[j], actions) is Ok);
    }
    lemma_first_failure(parts, i);
}

/// A law of checking: what only a cast model makes sense of does not pass.
pub proof fn law_extensions_do_not_pass(n: NodeView, actions: Actions)
    requires
        is_extension(n),
    ensures
        node_checked(n, actions) == Err::<(), ErrorView>(extension_error()),
{
}

/// A law of checking: an action passes if one with its name is registered and takes its arguments;
/// the fault is the one that the registered action finds, or that there is none of the name.
pub proof fn law_actions_must_be_registered(
    id: Seq<char>,
    args: ArgsView,
    actions: Actions,
    i: int,
    slot: ActionSlot,
)
    requires
        distinct(actions),
    ensures
        !has_key(actions, id) ==> node_checked(NodeView::Action(id, args), actions) == Err::<
            (),
            ErrorView,
        >(ErrorView::UnknownAction(id)),
        0 <= i < actions.len() && actions[i] == (id, slot) ==> node_checked(
            NodeView::Action(id, args),
            actions,
        ) == slot.accepts(args, names_of(actions)),
{
    if 0 <= i < actions.len() {
        lemma_found(actions, i);
    }
}

/// A law of compiling: the body of a compiled skill is what its cast model makes of the definition,
/// lowered, and it passes.
pub proof fn law_compiled_bodies_pass(skill: DefView, registry: RegistryView, n: NumbersView)
    requires
        compiled(skill, registry, n) is Ok,
    ensures
        ({
            let c = compiled(skill, registry, n)->Ok_0;
            let made = lookup(registry.cast_models, skill.cast_model)->0.casts(
                skill,
                registry_names(registry),
                n,
            );
            &&& lookup(registry.cast_models, skill.cast_model) is Some
            &&& made is Ok
            &&& lowered(made->Ok_0, registry.dsl_nodes) == Ok::<NodeView, ErrorView>(c.plan.root)
            &&& node_checked(c.plan.root, registry.actions) is Ok
        }),
{
}

/// A law of compiling: a definition without a registered cast model is refused, with the name; a
/// fault of the cast model, of lowering or of a modifier is the fault of the definition, in this
/// order, and one of its body comes last.
pub proof fn law_compiling_reports_the_first_fault(
    skill: DefView,
    registry: RegistryView,
    n: NumbersView,
    model: CastModelSlot,
    body: NodeView,
    root: NodeView,
    e: ErrorView,
)
    ensures
        !has_key(registry.cast_models, skill.cast_model) ==> compiled(skill, registry, n)
            == refused_with(ErrorView::UnknownCastModel(skill.cast_model)),
        lookup(registry.cast_models, skill.cast_model) == Some(model) ==> {
            let made = model.casts(skill, registry_names(registry), n);
            let left = modified(
                skill.modifiers,
                0,
                skill.params,
                fresh_context(
                    skill.id,
                    skill.params,
                    first_occurrences(skill.tags),
                    None,
                    0,
                ),
                registry.modifiers,
                n,
            );
            &&& made matches Err(e) ==> compiled(skill, registry, n) == refused_with(e)
            &&& made == Ok::<NodeView, ErrorView>(body) ==> {
                let low = lowered(body, registry.dsl_nodes);
                &&& low matches Err(e) ==> compiled(skill, registry, n) == refused_with(e)
                &&& low == Ok::<NodeView, ErrorView>(root) && left == Err::<ArgsView, ErrorView>(e)
                    ==> compiled(skill, registry, n) == refused_with(e)
                &&& low == Ok::<NodeView, ErrorView>(root) && left is Ok && node_checked(
                    root,
                    registry.actions,
                ) == Err::<(), ErrorView>(e) ==> compiled(skill, registry, n) == refused_with(e)
            }
        },
{
}

/// The definition is refused.
pub open spec fn refused_with(e: ErrorView) -> Result<CompiledView, ErrorView> {
    Err(e)
}

} // verus!
