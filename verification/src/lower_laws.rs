//! What lowering leaves alone.
use crate::compile::compiled;
use crate::def::DefView;
use crate::error::{ErrorView, MessageView};
use crate::lower::{
    each_lowered, each_lowered_arg, each_lowered_value, lowered, lowered_args, lowered_value,
    DslNodes,
};
use crate::number::NumbersView;
use crate::registry::{registry_names, RegistryView};
use crate::table::{distinct, has_key, lemma_found, lookup};
use crate::value::{ArgsView, NodeView, TypedView, ValueView};
use vstd::prelude::*;

verus! {

/// A node without syntax nodes in it.
pub open spec fn plain(n: NodeView) -> bool
    decreases n, 1nat,
{
    match n {
        NodeView::Sequence(l) => all_plain(l),
        NodeView::Parallel(l) => all_plain(l),
        NodeView::Delay(_, c) => plain(*c),
        NodeView::Repeat { times, duration, interval, node } => plain(*node),
        NodeView::If { condition, then_node, else_node } => plain(*then_node) && match else_node {
            Some(c) => plain(*c),
            None => true,
        },
        NodeView::Let(_, v, c) => plain_value(v) && plain(*c),
        NodeView::On(_, c) => plain(*c),
        NodeView::Emit(_, t) => plain_args(t),
        NodeView::Action(_, t) => plain_args(t),
        NodeView::Deck(l) => all_plain(l),
        NodeView::Spell(_, t) => plain_args(t),
        NodeView::Modifier(_, t) => plain_args(t),
        NodeView::Typed { name, args } => false,
    }
}

/// A value without syntax nodes in it.
pub open spec fn plain_value(v: ValueView) -> bool
    decreases v, 1nat,
{
    match v {
        ValueView::Node(n) => plain(*n),
        ValueView::Table(t) => plain_args(t),
        ValueView::List(l) => all_plain_values(l),
        _ => true,
    }
}

/// Nodes without syntax nodes in them.
pub open spec fn all_plain(l: Seq<NodeView>) -> bool
    decreases l, 0nat,
{
    forall|i: int| 0 <= i < l.len() ==> plain(#[trigger] l[i])
}

/// Values without syntax nodes in them.
pub open spec fn all_plain_values(l: Seq<ValueView>) -> bool
    decreases l, 0nat,
{
    forall|i: int| 0 <= i < l.len() ==> plain_value(#[trigger] l[i])
}

/// Arguments without syntax nodes in them.
pub open spec fn plain_args(t: ArgsView) -> bool
    decreases t, 0nat,
{
    forall|i: int| 0 <= i < t.len() ==> plain_value((#[trigger] t[i]).1)
}

proof fn lemma_plain_list(l: Seq<NodeView>, d: DslNodes)
    requires
        all_plain(l),
    ensures
        each_lowered(l, d) == Seq::new(l.len(), |i: int| Ok::<NodeView, ErrorView>(l[i])),
        Seq::new(l.len(), |i: int| each_lowered(l, d)[i]->Ok_0) == l,
    decreases l, 0nat,
{
    assert forall|i: int| 0 <= i < l.len() implies #[trigger] each_lowered(l, d)[i] == Ok::<
        NodeView,
        ErrorView,
    >(l[i]) by {
        assert(decreases_to!(l => l[i]));
        law_plain_nodes_stay(l[i], d);
    }
    assert(each_lowered(l, d) =~= Seq::new(l.len(), |i: int| Ok::<NodeView, ErrorView>(l[i])));
    assert(Seq::new(l.len(), |i: int| each_lowered(l, d)[i]->Ok_0) =~= l);
}

proof fn lemma_plain_args(t: ArgsView, d: DslNodes)
    requires
        plain_args(t),
    ensures
        lowered_args(t, d) == Ok::<ArgsView, ErrorView>(t),
    decreases t, 0nat,
{
    assert forall|i: int| 0 <= i < t.len() implies #[trigger] each_lowered_arg(t, d)[i] == Ok::<
        ValueView,
        ErrorView,
    >(t[i].1) by {
        assert(decreases_to!(t => t[i]));
        assert(decreases_to!(t[i] => t[i].1));
        lemma_plain_value(t[i].1, d);
    }
    assert(lowered_args(t, d)->Ok_0 =~= t);
}

proof fn lemma_plain_value(v: ValueView, d: DslNodes)
    requires
        plain_value(v),
    ensures
        lowered_value(v, d) == Ok::<ValueView, ErrorView>(v),
    decreases v, 1nat,
{
    match v {
        ValueView::Node(n) => {
            law_plain_nodes_stay(*n, d);
        },
        ValueView::Table(t) => {
            lemma_plain_args(t, d);
        },
        ValueView::List(l) => {
            assert forall|i: int| 0 <= i < l.len() implies #[trigger] each_lowered_value(l, d)[i]
                == Ok::<ValueView, ErrorView>(l[i]) by {
                assert(decreases_to!(v => l));
                assert(decreases_to!(l => l[i]));
                lemma_plain_value(l[i], d);
            }
            assert(lowered_value(v, d)->Ok_0->List_0 =~= l);
        },
        _ => {},
    }
}

/// A law of lowering: a node without syntax nodes in it stays as it is.
pub proof fn law_plain_nodes_stay(n: NodeView, d: DslNodes)
    requires
        plain(n),
    ensures
        lowered(n, d) == Ok::<NodeView, ErrorView>(n),
    decreases n, 1nat,
{
    match n {
        NodeView::Sequence(l) | NodeView::Parallel(l) | NodeView::Deck(l) => {
            lemma_plain_list(l, d);
        },
        NodeView::Delay(_, c) | NodeView::On(_, c) => {
            law_plain_nodes_stay(*c, d);
        },
        NodeView::Repeat { times, duration, interval, node } => {
            law_plain_nodes_stay(*node, d);
        },
        NodeView::If { condition, then_node, else_node } => {
            law_plain_nodes_stay(*then_node, d);
            if let Some(c) = else_node {
                law_plain_nodes_stay(*c, d);
            }
        },
        NodeView::Let(_, v, c) => {
            lemma_plain_value(v, d);
            law_plain_nodes_stay(*c, d);
        },
        NodeView::Emit(_, t) | NodeView::Action(_, t) | NodeView::Spell(_, t)
        | NodeView::Modifier(_, t) => {
            lemma_plain_args(t, d);
        },
        NodeView::Typed { name, args } => {},
    }
}

/// A law of lowering: under a cast model that takes bodies as they stand, such as the direct one, a
/// body and what it is lowered to compile alike.
pub proof fn law_lowered_bodies_compile_alike(
    skill: DefView,
    registry: RegistryView,
    root: NodeView,
    n: NumbersView,
)
    requires
        lookup(registry.cast_models, skill.cast_model) matches Some(model) && forall|s: DefView|
            #[trigger] model.casts(s, registry_names(registry), n) == Ok::<NodeView, ErrorView>(s.body),
        lowered(skill.body, registry.dsl_nodes) == Ok::<NodeView, ErrorView>(root),
        plain(root),
    ensures
        compiled(skill, registry, n) == compiled(DefView { body: root, ..skill }, registry, n),
{
    law_plain_nodes_stay(root, registry.dsl_nodes);
}

/// A law of lowering: under a cast model that takes bodies as they stand, a syntax node compiles
/// like the node that its registered syntax gives for it.
pub proof fn law_syntax_nodes_compile_as_lowered(
    skill: DefView,
    registry: RegistryView,
    name: Seq<char>,
    args: TypedView,
    root: NodeView,
    n: NumbersView,
)
    requires
        lookup(registry.cast_models, skill.cast_model) matches Some(model) && forall|s: DefView|
            #[trigger] model.casts(s, registry_names(registry), n) == Ok::<NodeView, ErrorView>(s.body),
        skill.body == (NodeView::Typed { name, args }),
        lookup(registry.dsl_nodes, name) matches Some(slot) && slot.lowers(args) == Ok::<
            NodeView,
            ErrorView,
        >(root),
        plain(root),
    ensures
        compiled(skill, registry, n) == compiled(DefView { body: root, ..skill }, registry, n),
{
    law_lowered_bodies_compile_alike(skill, registry, root, n);
}

/// Every registered syntax gives nodes without syntax nodes in them.
pub open spec fn gives_plain_nodes(d: DslNodes) -> bool {
    forall|i: int, args: TypedView|
        0 <= i < d.len() ==> ((#[trigger] (#[trigger] d[i]).1.lowers(args)) matches Ok(m)
            ==> plain(m))
}

proof fn lemma_list_lowered(l: Seq<NodeView>, d: DslNodes)
    requires
        gives_plain_nodes(d),
    ensures
        crate::collect::collected(each_lowered(l, d)) matches Ok(s) ==> all_plain(s) && s.len()
            == l.len() && forall|i: int|
            0 <= i < l.len() ==> lowered(#[trigger] l[i], d) == Ok::<NodeView, ErrorView>(s[i]),
    decreases l, 0nat,
{
    let parts = each_lowered(l, d);
    match crate::collect::collected(parts) {
        Ok(s) => {
            assert forall|i: int| 0 <= i < s.len() implies plain(#[trigger] s[i]) by {
                assert(decreases_to!(l => l[i]));
                law_nothing_is_left_unlowered(l[i], d);
                assert(parts[i] == lowered(l[i], d));
                assert(parts[i] is Ok);
            }
            assert forall|i: int| 0 <= i < l.len() implies lowered(#[trigger] l[i], d) == Ok::<
                NodeView,
                ErrorView,
            >(s[i]) by {
                assert(parts[i] is Ok);
            }
        },
        Err(_) => {},
    }
}

proof fn lemma_args_lowered(t: ArgsView, d: DslNodes)
    requires
        gives_plain_nodes(d),
    ensures
        lowered_args(t, d) matches Ok(u) ==> plain_args(u) && u.len() == t.len() && forall|i: int|
            0 <= i < t.len() ==> (#[trigger] u[i]).0 == t[i].0,
    decreases t, 0nat,
{
    let parts = each_lowered_arg(t, d);
    match lowered_args(t, d) {
        Ok(u) => {
            assert forall|i: int| 0 <= i < u.len() implies plain_value((#[trigger] u[i]).1) by {
                assert(decreases_to!(t => t[i]));
                assert(decreases_to!(t[i] => t[i].1));
                lemma_value_lowered(t[i].1, d);
                assert(parts[i] == lowered_value(t[i].1, d));
                assert(parts[i] is Ok);
            }
        },
        Err(_) => {},
    }
}

proof fn lemma_value_lowered(v: ValueView, d: DslNodes)
    requires
        gives_plain_nodes(d),
    ensures
        lowered_value(v, d) matches Ok(w) ==> plain_value(w),
    decreases v, 1nat,
{
    match v {
        ValueView::Node(n) => {
            law_nothing_is_left_unlowered(*n, d);
        },
        ValueView::Table(t) => {
            lemma_args_lowered(t, d);
        },
        ValueView::List(l) => {
            let parts = each_lowered_value(l, d);
            match crate::collect::collected(parts) {
                Ok(s) => {
                    assert forall|i: int| 0 <= i < s.len() implies plain_value(#[trigger] s[i]) by {
                        assert(decreases_to!(v => l));
                        assert(decreases_to!(l => l[i]));
                        lemma_value_lowered(l[i], d);
                        assert(parts[i] == lowered_value(l[i], d));
                        assert(parts[i] is Ok);
                    }
                },
                Err(_) => {},
            }
        },
        _ => {},
    }
}

/// A law of lowering: where every registered syntax gives nodes without syntax nodes in them, no
/// syntax node is left anywhere in what is lowered, and a node stays of its kind, with its settings.
pub proof fn law_nothing_is_left_unlowered(n: NodeView, d: DslNodes)
    requires
        gives_plain_nodes(d),
    ensures
        lowered(n, d) matches Ok(m) ==> plain(m) && (n is Typed || same_outside(n, m)),
    decreases n, 1nat,
{
    match n {
        NodeView::Sequence(l) | NodeView::Parallel(l) | NodeView::Deck(l) => {
            lemma_list_lowered(l, d);
        },
        NodeView::Delay(_, c) | NodeView::On(_, c) => {
            law_nothing_is_left_unlowered(*c, d);
        },
        NodeView::Repeat { times, duration, interval, node } => {
            law_nothing_is_left_unlowered(*node, d);
        },
        NodeView::If { condition, then_node, else_node } => {
            law_nothing_is_left_unlowered(*then_node, d);
            if let Some(c) = else_node {
                law_nothing_is_left_unlowered(*c, d);
            }
        },
        NodeView::Let(_, v, c) => {
            lemma_value_lowered(v, d);
            law_nothing_is_left_unlowered(*c, d);
        },
        NodeView::Emit(_, t) | NodeView::Action(_, t) | NodeView::Spell(_, t)
        | NodeView::Modifier(_, t) => {
            lemma_args_lowered(t, d);
        },
        NodeView::Typed { name, args } => {
            if crate::table::has_key(d, name) {
                let i = crate::table::key_index(d, name);
                assert(0 <= i < d.len() && d[i].0 == name);
                assert(d[i].1.lowers(args) matches Ok(m) ==> plain(m));
            }
        },
    }
}

/// Two nodes are of the same kind, with the same settings and as many parts.
pub open spec fn same_outside(a: NodeView, b: NodeView) -> bool {
    match a {
        NodeView::Sequence(l) => b is Sequence && b->Sequence_0.len() == l.len(),
        NodeView::Parallel(l) => b is Parallel && b->Parallel_0.len() == l.len(),
        NodeView::Deck(l) => b is Deck && b->Deck_0.len() == l.len(),
        NodeView::Delay(seconds, _) => b is Delay && b->Delay_0 == seconds,
        NodeView::Repeat { times, duration, interval, node } => b is Repeat && b->times == times
            && b->duration == duration && b->interval == interval,
        NodeView::If { condition, then_node, else_node } => b is If && b->condition == condition
            && (b->else_node is Some) == (else_node is Some),
        NodeView::Let(name, _, _) => b is Let && b->Let_0 == name,
        NodeView::On(event, _) => b is On && b->On_0 == event,
        NodeView::Emit(event, t) => b is Emit && b->Emit_0 == event && b->Emit_1.len() == t.len(),
        NodeView::Action(id, t) => b is Action && b->Action_0 == id && b->Action_1.len() == t.len(),
        NodeView::Spell(id, t) => b is Spell && b->Spell_0 == id && b->Spell_1.len() == t.len(),
        NodeView::Modifier(id, t) => b is Modifier && b->Modifier_0 == id && b->Modifier_1.len()
            == t.len(),
        NodeView::Typed { name, args } => true,
    }
}

/// A law of lowering: a syntax node becomes what its registration makes of its fields, and one that
/// is not registered is an error that names it.
pub proof fn law_syntax_nodes_are_lowered(name: Seq<char>, args: TypedView, d: DslNodes, i: int)
    requires
        distinct(d),
    ensures
        !has_key(d, name) ==> lowered(NodeView::Typed { name, args }, d) == Err::<
            NodeView,
            ErrorView,
        >(ErrorView::InvalidSkill(name, MessageView::Text("DSL node is not registered"@))),
        0 <= i < d.len() && d[i].0 == name ==> lowered(NodeView::Typed { name, args }, d)
            == d[i].1.lowers(args),
{
    if 0 <= i < d.len() {
        lemma_found(d, i);
    }
}

} // verus!
