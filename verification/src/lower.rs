//! Lowering registered syntax nodes to executable nodes.
use crate::collect::{collected, lemma_first_failure};
use crate::error::{invalid_text, value_outcome, ErrorView, SkillError};
use crate::expr::{args_outcome, renamed};
use crate::registry::{node_outcome, DslNodeSlot, SkillRegistry};
use crate::table::lookup;
use crate::value::{
    args_view, copy_expr, copy_value, list_view, nodes_view, ArgsView, NodeView, SkillArgs,
    SkillNode, SkillValue, ValueView,
};
use vstd::prelude::*;

verus! {

/// The registered syntax nodes by name.
pub type DslNodes = Seq<(Seq<char>, DslNodeSlot)>;

/// A node with every registered syntax node in it lowered, once.
pub open spec fn lowered(n: NodeView, d: DslNodes) -> Result<NodeView, ErrorView>
    decreases n, 1nat,
{
    match n {
        NodeView::Sequence(l) => match collected(each_lowered(l, d)) {
            Ok(s) => Ok(NodeView::Sequence(s)),
            Err(e) => Err(e),
        },
        NodeView::Parallel(l) => match collected(each_lowered(l, d)) {
            Ok(s) => Ok(NodeView::Parallel(s)),
            Err(e) => Err(e),
        },
        NodeView::Delay(seconds, c) => match lowered(*c, d) {
            Ok(m) => Ok(NodeView::Delay(seconds, Box::new(m))),
            Err(e) => Err(e),
        },
        NodeView::Repeat { times, duration, interval, node } => match lowered(*node, d) {
            Ok(m) => Ok(NodeView::Repeat { times, duration, interval, node: Box::new(m) }),
            Err(e) => Err(e),
        },
        NodeView::If { condition, then_node, else_node } => match lowered(*then_node, d) {
            Ok(m) => match else_node {
                Some(c) => match lowered(*c, d) {
                    Ok(o) => Ok(
                        NodeView::If {
                            condition,
                            then_node: Box::new(m),
                            else_node: Some(Box::new(o)),
                        },
                    ),
                    Err(e) => Err(e),
                },
                None => Ok(
                    NodeView::If { condition, then_node: Box::new(m), else_node: None },
                ),
            },
            Err(e) => Err(e),
        },
        NodeView::Let(name, v, c) => match lowered_value(v, d) {
            Ok(w) => match lowered(*c, d) {
                Ok(m) => Ok(NodeView::Let(name, w, Box::new(m))),
                Err(e) => Err(e),
            },
            Err(e) => Err(e),
        },
        NodeView::On(event, c) => match lowered(*c, d) {
            Ok(m) => Ok(NodeView::On(event, Box::new(m))),
            Err(e) => Err(e),
        },
        NodeView::Emit(event, t) => match lowered_args(t, d) {
            Ok(u) => Ok(NodeView::Emit(event, u)),
            Err(e) => Err(e),
        },
        NodeView::Action(id, t) => match lowered_args(t, d) {
            Ok(u) => Ok(NodeView::Action(id, u)),
            Err(e) => Err(e),
        },
        NodeView::Deck(l) => match collected(each_lowered(l, d)) {
            Ok(s) => Ok(NodeView::Deck(s)),
            Err(e) => Err(e),
        },
        NodeView::Spell(id, t) => match lowered_args(t, d) {
            Ok(u) => Ok(NodeView::Spell(id, u)),
            Err(e) => Err(e),
        },
        NodeView::Modifier(id, t) => match lowered_args(t, d) {
            Ok(u) => Ok(NodeView::Modifier(id, u)),
            Err(e) => Err(e),
        },
        NodeView::Typed { name, args } => match lookup(d, name) {
            Some(slot) => slot.lowers(args),
            None => Err(invalid_text(name, "DSL node is not registered"@)),
        },
    }
}

/// A value with every registered syntax node in it lowered.
pub open spec fn lowered_value(v: ValueView, d: DslNodes) -> Result<ValueView, ErrorView>
    decreases v, 1nat,
{
    match v {
        ValueView::Node(n) => match lowered(*n, d) {
            Ok(m) => Ok(ValueView::Node(Box::new(m))),
            Err(e) => Err(e),
        },
        ValueView::Table(t) => match lowered_args(t, d) {
            Ok(u) => Ok(ValueView::Table(u)),
            Err(e) => Err(e),
        },
        ValueView::List(l) => match collected(each_lowered_value(l, d)) {
            Ok(s) => Ok(ValueView::List(s)),
            Err(e) => Err(e),
        },
        _ => Ok(v),
    }
}

/// Arguments with every registered syntax node in them lowered.
pub open spec fn lowered_args(t: ArgsView, d: DslNodes) -> Result<ArgsView, ErrorView>
    decreases t, 1nat,
{
    match collected(each_lowered_arg(t, d)) {
        Ok(s) => Ok(renamed(t, s)),
        Err(e) => Err(e),
    }
}

pub open spec fn each_lowered(l: Seq<NodeView>, d: DslNodes) -> Seq<Result<NodeView, ErrorView>>
    decreases l, 0nat,
{
    Seq::new(
        l.len(),
        |i: int|
            if 0 <= i < l.len() {
                lowered(l[i], d)
            } else {
                arbitrary()
            },
    )
}

pub open spec fn each_lowered_value(l: Seq<ValueView>, d: DslNodes) -> Seq<
    Result<ValueView, ErrorView>,
>
    decreases l, 0nat,
{
    Seq::new(
        l.len(),
        |i: int|
            if 0 <= i < l.len() {
                lowered_value(l[i], d)
            } else {
                arbitrary()
            },
    )
}

pub open spec fn each_lowered_arg(t: ArgsView, d: DslNodes) -> Seq<Result<ValueView, ErrorView>>
    decreases t, 0nat,
{
    Seq::new(
        t.len(),
        |i: int|
            if 0 <= i < t.len() {
                lowered_value(t[i].1, d)
            } else {
                arbitrary()
            },
    )
}

pub open spec fn nodes_outcome(r: Result<Vec<SkillNode>, SkillError>) -> Result<
    Seq<NodeView>,
    ErrorView,
> {
    match r {
        Ok(v) => Ok(nodes_view(v@)),
        Err(e) => Err(e@),
    }
}

fn lower_list(l: &Vec<SkillNode>, registry: &SkillRegistry) -> (r: Result<
    Vec<SkillNode>,
    SkillError,
>)
    ensures
        nodes_outcome(r) == collected(each_lowered(nodes_view(l@), registry@.dsl_nodes)),
    decreases nodes_view(l@),
{
    let ghost parts = each_lowered(nodes_view(l@), registry@.dsl_nodes);
    let mut out: Vec<SkillNode> = Vec::new();
    let n: usize = l.len();
    let mut i: usize = 0;
    while i < n
        invariant
            i <= n,
            n == l@.len(),
            n == parts.len(),
            out@.len() == i,
            parts == each_lowered(nodes_view(l@), registry@.dsl_nodes),
            forall|j: int|
                0 <= j < i ==> (#[trigger] parts[j]) == Ok::<NodeView, ErrorView>(out@[j]@),
        decreases n - i,
    {
        assert(nodes_view(l@)[i as int] == l@[i as int]@);
        assert(decreases_to!(nodes_view(l@) => nodes_view(l@)[i as int]));
        match lower_node(&l[i], registry) {
            Ok(v) => {
                out.push(v);
            },
            Err(e) => {
                proof {
                    lemma_first_failure(parts, i as int);
                }
                return Err(e);
            },
        }
        i = i + 1;
    }
    assert(collected(parts)->Ok_0 =~= nodes_view(out@));
    Ok(out)
}

fn lower_args(args: &SkillArgs, registry: &SkillRegistry) -> (r: Result<SkillArgs, SkillError>)
    ensures
        args_outcome(r) == lowered_args(args_view(*args), registry@.dsl_nodes),
    decreases args_view(*args),
{
    let ghost t = args_view(*args);
    let ghost parts = each_lowered_arg(t, registry@.dsl_nodes);
    let mut out: Vec<SkillValue> = Vec::new();
    let n: usize = args.len();
    let mut i: usize = 0;
    while i < n
        invariant
            i <= n,
            n == args@.len(),
            t == args_view(*args),
            n == parts.len(),
            out@.len() == i,
            parts == each_lowered_arg(t, registry@.dsl_nodes),
            forall|j: int|
                0 <= j < i ==> (#[trigger] parts[j]) == Ok::<ValueView, ErrorView>(out@[j]@),
        decreases n - i,
    {
        assert(args_view(*args)[i as int] == (args@[i as int].0, args@[i as int].1@));
        assert(decreases_to!(args_view(*args) => args_view(*args)[i as int]));
        assert(decreases_to!(args_view(*args)[i as int] => args_view(*args)[i as int].1));
        match lower_value(args.value(i), registry) {
            Ok(v) => {
                out.push(v);
            },
            Err(e) => {
                proof {
                    lemma_first_failure(parts, i as int);
                }
                return Err(e);
            },
        }
        i = i + 1;
    }
    let r = args.rebuilt(out);
    assert(args_view(r) =~= renamed(t, collected(parts)->Ok_0));
    Ok(r)
}

fn lower_value(v: &SkillValue, registry: &SkillRegistry) -> (r: Result<SkillValue, SkillError>)
    ensures
        value_outcome(r) == lowered_value(v@, registry@.dsl_nodes),
    decreases v@,
{
    match v {
        SkillValue::Node(n) => {
            assert(decreases_to!(v@ => v@->Node_0));
            match lower_node(n, registry) {
                Ok(m) => Ok(SkillValue::Node(Box::new(m))),
                Err(e) => Err(e),
            }
        },
        SkillValue::Table(t) => {
            assert(decreases_to!(v@ => v@->Table_0));
            match lower_args(t, registry) {
                Ok(u) => Ok(SkillValue::Table(u)),
                Err(e) => Err(e),
            }
        },
        SkillValue::List(l) => {
            assert(v@ == ValueView::List(list_view(l@)));
            let ghost parts = each_lowered_value(list_view(l@), registry@.dsl_nodes);
            let mut out: Vec<SkillValue> = Vec::new();
            let n: usize = l.len();
            let mut i: usize = 0;
            while i < n
                invariant
                    i <= n,
                    n == l@.len(),
                    n == parts.len(),
                    out@.len() == i,
                    v@ == ValueView::List(list_view(l@)),
                    parts == each_lowered_value(list_view(l@), registry@.dsl_nodes),
                    forall|j: int|
                        0 <= j < i ==> (#[trigger] parts[j]) == Ok::<ValueView, ErrorView>(
                            out@[j]@,
                        ),
                decreases n - i,
            {
                assert(list_view(l@)[i as int] == l@[i as int]@);
                assert(decreases_to!(v@ => v@->List_0));
                assert(decreases_to!(v@->List_0 => v@->List_0[i as int]));
                match lower_value(&l[i], registry) {
                    Ok(w) => {
                        out.push(w);
                    },
                    Err(e) => {
                        proof {
                            lemma_first_failure(parts, i as int);
                        }
                        return Err(e);
                    },
                }
                i = i + 1;
            }
            assert(collected(parts)->Ok_0 =~= list_view(out@));
            Ok(SkillValue::List(out))
        },
        other => Ok(copy_value(other)),
    }
}

/// Lowers every registered syntax node in a node.
pub fn lower_node(node: &SkillNode, registry: &SkillRegistry) -> (r: Result<SkillNode, SkillError>)
    ensures
        node_outcome(r) == lowered(node@, registry@.dsl_nodes),
    decreases node@,
{
    match node {
        SkillNode::Sequence(l) => {
            assert(decreases_to!(node@ => node@->Sequence_0));
            match lower_list(l, registry) {
                Ok(s) => Ok(SkillNode::Sequence(s)),
                Err(e) => Err(e),
            }
        },
        SkillNode::Parallel(l) => {
            assert(decreases_to!(node@ => node@->Parallel_0));
            match lower_list(l, registry) {
                Ok(s) => Ok(SkillNode::Parallel(s)),
                Err(e) => Err(e),
            }
        },
        SkillNode::Delay(seconds, c) => {
            assert(decreases_to!(node@ => node@->Delay_1));
            match lower_node(c, registry) {
                Ok(m) => Ok(SkillNode::Delay(seconds.clone(), Box::new(m))),
                Err(e) => Err(e),
            }
        },
        SkillNode::Repeat { times, duration, interval, node: c } => {
            assert(decreases_to!(node@ => node@->Repeat_node));
            match lower_node(c, registry) {
                Ok(m) => Ok(
                    SkillNode::Repeat {
                        times: copy_expr(times),
                        duration: copy_expr(duration),
                        interval: copy_expr(interval),
                        node: Box::new(m),
                    },
                ),
                Err(e) => Err(e),
            }
        },
        SkillNode::If { condition, then_node, else_node } => {
            assert(decreases_to!(node@ => node@->If_then_node));
            let first = match lower_node(then_node, registry) {
                Ok(m) => m,
                Err(e) => return Err(e),
            };
            let second = match else_node {
                Some(c) => {
                    assert(decreases_to!(node@ => node@->If_else_node));
                    assert(decreases_to!(node@->If_else_node => node@->If_else_node->0));
                    match lower_node(c, registry) {
                        Ok(m) => Some(Box::new(m)),
                        Err(e) => return Err(e),
                    }
                },
                None => None,
            };
            Ok(
                SkillNode::If {
                    condition: condition.clone(),
                    then_node: Box::new(first),
                    else_node: second,
                },
            )
        },
        SkillNode::Let(name, v, c) => {
            assert(decreases_to!(node@ => node@->Let_1));
            assert(decreases_to!(node@ => node@->Let_2));
            let w = match lower_value(v, registry) {
                Ok(w) => w,
                Err(e) => return Err(e),
            };
            match lower_node(c, registry) {
                Ok(m) => Ok(SkillNode::Let(name.clone(), w, Box::new(m))),
                Err(e) => Err(e),
            }
        },
        SkillNode::On(event, c) => {
            assert(decreases_to!(node@ => node@->On_1));
            match lower_node(c, registry) {
                Ok(m) => Ok(SkillNode::On(event.clone(), Box::new(m))),
                Err(e) => Err(e),
            }
        },
        SkillNode::Emit(event, t) => {
            assert(decreases_to!(node@ => node@->Emit_1));
            match lower_args(t, registry) {
                Ok(u) => Ok(SkillNode::Emit(event.clone(), u)),
                Err(e) => Err(e),
            }
        },
        SkillNode::Action(id, t) => {
            assert(decreases_to!(node@ => node@->Action_1));
            match lower_args(t, registry) {
                Ok(u) => Ok(SkillNode::Action(id.clone(), u)),
                Err(e) => Err(e),
            }
        },
        SkillNode::Deck(l) => {
            assert(decreases_to!(node@ => node@->Deck_0));
            match lower_list(l, registry) {
                Ok(s) => Ok(SkillNode::Deck(s)),
                Err(e) => Err(e),
            }
        },
        SkillNode::Spell(id, t) => {
            assert(decreases_to!(node@ => node@->Spell_1));
            match lower_args(t, registry) {
                Ok(u) => Ok(SkillNode::Spell(id.clone(), u)),
                Err(e) => Err(e),
            }
        },
        SkillNode::Modifier(id, t) => {
            assert(decreases_to!(node@ => node@->Modifier_1));
            match lower_args(t, registry) {
                Ok(u) => Ok(SkillNode::Modifier(id.clone(), u)),
                Err(e) => Err(e),
            }
        },
        SkillNode::Typed { name, args } => match registry.dsl_node(name.as_str()) {
            Some(slot) => slot.lower(args),
            None => Err(SkillError::invalid_skill(name.as_str(), "DSL node is not registered")),
        },
    }
}

} // verus!
