//! From a skill's syntax tree to its graph.
use crate::error::{runtime_text, ErrorView, MessageView, SkillError, SkillGraphError, SkillMessage, SkillNodeId};
use crate::graph::{
    child_pushed, has_node, missing_of, node_added, node_replaced, payload_pushed, GraphNodeView,
    GraphView, KindView, SkillGraph, SkillGraphNodeKind,
};
use crate::payload::{
    lemma_node_from_value_size, lemma_node_in_list, lemma_value_in_args, payload_node,
    payload_node_from_value, size_args, size_node, size_nodes,
};
use crate::table::put;
use crate::value::{
    args_view, copy_args, copy_expr, copy_value, list_view, no_args, nodes_view, set_arg, ArgsView,
    NodeView, SkillArgs, SkillNode, SkillParams, SkillValue, ValueView,
};
use vstd::prelude::*;

verus! {

/// No skill node occurs in the value.
pub open spec fn node_free(v: ValueView) -> bool
    decreases v,
{
    match v {
        ValueView::Node(_) => false,
        ValueView::Table(t) => forall|i: int| 0 <= i < t.len() ==> node_free((#[trigger] t[i]).1),
        ValueView::List(l) => forall|i: int| 0 <= i < l.len() ==> node_free(#[trigger] l[i]),
        _ => true,
    }
}

/// No skill node occurs in the arguments.
pub open spec fn args_node_free(t: ArgsView) -> bool {
    forall|i: int| 0 <= i < t.len() ==> node_free((#[trigger] t[i]).1)
}

/// The error of a value with a skill node where none can stand.
pub open spec fn nested_node_error() -> ErrorView {
    runtime_text("nested SkillNode values must be compiled as payload slots"@)
}

/// The error of syntax that only a cast model understands.
pub open spec fn extension_error() -> ErrorView {
    runtime_text("extension node remained after cast model compilation"@)
}

fn free_of_nodes(v: &SkillValue) -> (r: bool)
    ensures
        r == node_free(v@),
    decreases v@,
{
    match v {
        SkillValue::Node(_) => false,
        SkillValue::Table(m) => {
            assert(decreases_to!(v@ => v@->Table_0));
            args_free_of_nodes(m)
        },
        SkillValue::List(l) => {
            assert(v@ == ValueView::List(list_view(l@)));
            let n: usize = l.len();
            let mut i: usize = 0;
            while i < n
                invariant
                    i <= n,
                    n == l@.len(),
                    v@ == ValueView::List(list_view(l@)),
                    forall|j: int| 0 <= j < i ==> node_free(#[trigger] list_view(l@)[j]),
                decreases n - i,
            {
                assert(list_view(l@)[i as int] == l@[i as int]@);
                assert(decreases_to!(v@ => v@->List_0));
                assert(decreases_to!(v@->List_0 => v@->List_0[i as int]));
                if !free_of_nodes(&l[i]) {
                    assert(!node_free(list_view(l@)[i as int]));
                    return false;
                }
                i = i + 1;
            }
            true
        },
        _ => true,
    }
}

fn args_free_of_nodes(m: &SkillArgs) -> (r: bool)
    ensures
        r == args_node_free(args_view(*m)),
    decreases args_view(*m),
{
    let n: usize = m.len();
    let mut i: usize = 0;
    while i < n
        invariant
            i <= n,
            n == m@.len(),
            forall|j: int| 0 <= j < i ==> node_free((#[trigger] args_view(*m)[j]).1),
        decreases n - i,
    {
        assert(args_view(*m)[i as int].1 == m.vals()[i as int]@);
        assert(decreases_to!(args_view(*m) => args_view(*m)[i as int]));
        assert(decreases_to!(args_view(*m)[i as int] => args_view(*m)[i as int].1));
        if !free_of_nodes(m.value(i)) {
            assert(!node_free(args_view(*m)[i as int].1));
            return false;
        }
        i = i + 1;
    }
    true
}

/// The value for a graph: the same, unless a skill node occurs in it.
pub open spec fn graph_value(v: ValueView) -> Result<ValueView, ErrorView> {
    if node_free(v) {
        Ok(v)
    } else {
        Err(nested_node_error())
    }
}

/// The arguments for a graph: the same, unless a skill node occurs in them.
pub open spec fn graph_args(t: ArgsView) -> Result<ArgsView, ErrorView> {
    if args_node_free(t) {
        Ok(t)
    } else {
        Err(nested_node_error())
    }
}

/// The value for a graph.
pub fn to_ecs_value(value: &SkillValue) -> (r: Result<SkillValue, SkillError>)
    ensures
        crate::error::value_outcome(r) == graph_value(value@),
{
    if free_of_nodes(value) {
        Ok(copy_value(value))
    } else {
        Err(SkillError::runtime("nested SkillNode values must be compiled as payload slots"))
    }
}

/// The arguments for a graph.
pub fn to_ecs_args(args: &SkillArgs) -> (r: Result<SkillParams, SkillError>)
    ensures
        crate::expr::args_outcome(r) == graph_args(args_view(*args)),
{
    if args_free_of_nodes(args) {
        Ok(copy_args(args))
    } else {
        Err(SkillError::runtime("nested SkillNode values must be compiled as payload slots"))
    }
}

/// The number of the next node.
pub open spec fn next_id(g: GraphView) -> SkillNodeId {
    SkillNodeId(g.nodes.len() as u32)
}

/// The graph with `child` in a child slot of `parent`.
pub open spec fn child_linked(
    g: GraphView,
    parent: SkillNodeId,
    slot: Seq<char>,
    child: SkillNodeId,
) -> Result<GraphView, ErrorView> {
    match missing_of(g, parent, child) {
        Some(e) => Err(ErrorView::Runtime(MessageView::Graph(e))),
        None => Ok(child_pushed(g, parent, slot, child)),
    }
}

/// The graph with `child` in a payload slot of `parent`.
pub open spec fn payload_linked(
    g: GraphView,
    parent: SkillNodeId,
    slot: Seq<char>,
    child: SkillNodeId,
) -> Result<GraphView, ErrorView> {
    match missing_of(g, parent, child) {
        Some(e) => Err(ErrorView::Runtime(MessageView::Graph(e))),
        None => Ok(payload_pushed(g, parent, slot, child)),
    }
}

/// The graph with another kind in a node.
pub open spec fn kind_replaced(g: GraphView, id: SkillNodeId, kind: KindView) -> GraphView {
    if has_node(g, id) {
        node_replaced(g, id, GraphNodeView { kind, ..g.nodes[id.0 as int] })
    } else {
        g
    }
}

/// The outcome of appending: the new graph and the number of the appended node.
pub type Appended = Result<(GraphView, SkillNodeId), ErrorView>;

/// A graph together with the number of a node in it.
pub open spec fn headed(r: Result<GraphView, ErrorView>, id: SkillNodeId) -> Appended {
    match r {
        Ok(g) => Ok((g, id)),
        Err(e) => Err(e),
    }
}

/// The graph with a syntax tree appended: parents come before their children, and each child is
/// linked into its slot once it and everything below it has been appended.
pub open spec fn appended(n: NodeView, g: GraphView) -> Appended
    decreases size_node(n), 0nat,
{
    match n {
        NodeView::Sequence(l) => headed(
            children_appended(l, 0, next_id(g), "items"@, node_added(g, KindView::Sequence)),
            next_id(g),
        ),
        NodeView::Parallel(l) => headed(
            children_appended(l, 0, next_id(g), "branches"@, node_added(g, KindView::Parallel)),
            next_id(g),
        ),
        NodeView::Delay(seconds, c) => headed(
            child_appended(*c, next_id(g), "then"@, node_added(g, KindView::Delay { seconds })),
            next_id(g),
        ),
        NodeView::Repeat { times, duration, interval, node } => headed(
            child_appended(
                *node,
                next_id(g),
                "body"@,
                node_added(g, KindView::Repeat { times, duration, interval }),
            ),
            next_id(g),
        ),
        NodeView::If { condition, then_node, else_node } => match child_appended(
            *then_node,
            next_id(g),
            "then"@,
            node_added(g, KindView::If { condition }),
        ) {
            Ok(g2) => match else_node {
                Some(c) => headed(child_appended(*c, next_id(g), "else"@, g2), next_id(g)),
                None => Ok((g2, next_id(g))),
            },
            Err(e) => Err(e),
        },
        NodeView::Let(name, v, c) => match graph_value(v) {
            Ok(value) => headed(
                child_appended(
                    *c,
                    next_id(g),
                    "then"@,
                    node_added(g, KindView::SetSkillVar { name, value }),
                ),
                next_id(g),
            ),
            Err(e) => Err(e),
        },
        NodeView::On(event, c) => headed(
            payload_appended(*c, next_id(g), event, node_added(g, KindView::WaitEvent { event })),
            next_id(g),
        ),
        NodeView::Emit(event, t) => match graph_args(t) {
            Ok(payload) => Ok(
                (node_added(g, KindView::EmitSkillEvent { event, payload }), next_id(g)),
            ),
            Err(e) => Err(e),
        },
        NodeView::Action(constructor, t) => match args_appended(
            t,
            0,
            next_id(g),
            Seq::empty(),
            node_added(g, KindView::Extension { constructor, args: Seq::empty() }),
        ) {
            Ok((g2, args)) => Ok(
                (
                    kind_replaced(g2, next_id(g), KindView::Extension { constructor, args }),
                    next_id(g),
                ),
            ),
            Err(e) => Err(e),
        },
        NodeView::Deck(_) => Err(extension_error()),
        NodeView::Spell(_, _) => Err(extension_error()),
        NodeView::Modifier(_, _) => Err(extension_error()),
        NodeView::Typed { name, args } => Err(extension_error()),
    }
}

/// The graph with a syntax tree appended and linked into a child slot.
pub open spec fn child_appended(
    c: NodeView,
    parent: SkillNodeId,
    slot: Seq<char>,
    g: GraphView,
) -> Result<GraphView, ErrorView>
    decreases size_node(c), 1nat,
{
    match appended(c, g) {
        Ok((g2, id)) => child_linked(g2, parent, slot, id),
        Err(e) => Err(e),
    }
}

/// The graph with a syntax tree appended and linked into a payload slot.
pub open spec fn payload_appended(
    c: NodeView,
    parent: SkillNodeId,
    slot: Seq<char>,
    g: GraphView,
) -> Result<GraphView, ErrorView>
    decreases size_node(c), 1nat,
{
    match appended(c, g) {
        Ok((g2, id)) => payload_linked(g2, parent, slot, id),
        Err(e) => Err(e),
    }
}

/// The graph with the syntax trees from the `k`-th on appended and linked into a child slot.
pub open spec fn children_appended(
    l: Seq<NodeView>,
    k: int,
    parent: SkillNodeId,
    slot: Seq<char>,
    g: GraphView,
) -> Result<GraphView, ErrorView>
    decreases size_nodes(l, l.len()), (l.len() - k + 2) as nat,
{
    if 0 <= k < l.len() {
        proof {
            lemma_node_in_list(l, k, l.len());
        }
        match child_appended(l[k], parent, slot, g) {
            Ok(g2) => children_appended(l, k + 1, parent, slot, g2),
            Err(e) => Err(e),
        }
    } else {
        Ok(g)
    }
}

/// The graph with the arguments from the `k`-th on: those that stand for nodes are appended and
/// linked into payload slots, the others are gathered.
pub open spec fn args_appended(
    t: ArgsView,
    k: int,
    parent: SkillNodeId,
    gathered: ArgsView,
    g: GraphView,
) -> Result<(GraphView, ArgsView), ErrorView>
    decreases size_args(t, t.len()), (t.len() - k + 2) as nat,
{
    if 0 <= k < t.len() {
        let (key, v) = t[k];
        match payload_node(key, v) {
            Ok(Some(c)) => {
                proof {
                    lemma_node_from_value_size(v);
                    lemma_value_in_args(t, k, t.len());
                }
                match payload_appended(c, parent, key, g) {
                    Ok(g2) => args_appended(t, k + 1, parent, gathered, g2),
                    Err(e) => Err(e),
                }
            },
            Ok(None) => match graph_value(v) {
                Ok(w) => args_appended(t, k + 1, parent, put(gathered, key, w), g),
                Err(e) => Err(e),
            },
            Err(e) => Err(e),
        }
    } else {
        Ok((g, gathered))
    }
}

/// The graph that appending a syntax tree leaves, also where it fails: with every node that was
/// added before the failure and every link that was made.
pub open spec fn graph_left(n: NodeView, g: GraphView) -> GraphView
    decreases size_node(n), 0nat,
{
    match n {
        NodeView::Sequence(l) => children_left(
            l,
            0,
            next_id(g),
            "items"@,
            node_added(g, KindView::Sequence),
        ),
        NodeView::Parallel(l) => children_left(
            l,
            0,
            next_id(g),
            "branches"@,
            node_added(g, KindView::Parallel),
        ),
        NodeView::Delay(seconds, c) => child_left(
            *c,
            next_id(g),
            "then"@,
            node_added(g, KindView::Delay { seconds }),
        ),
        NodeView::Repeat { times, duration, interval, node } => child_left(
            *node,
            next_id(g),
            "body"@,
            node_added(g, KindView::Repeat { times, duration, interval }),
        ),
        NodeView::If { condition, then_node, else_node } => {
            let start = node_added(g, KindView::If { condition });
            match (child_appended(*then_node, next_id(g), "then"@, start), else_node) {
                (Ok(g2), Some(c)) => child_left(*c, next_id(g), "else"@, g2),
                _ => child_left(*then_node, next_id(g), "then"@, start),
            }
        },
        NodeView::Let(name, v, c) => match graph_value(v) {
            Ok(value) => child_left(
                *c,
                next_id(g),
                "then"@,
                node_added(g, KindView::SetSkillVar { name, value }),
            ),
            Err(_) => g,
        },
        NodeView::On(event, c) => payload_left(
            *c,
            next_id(g),
            event,
            node_added(g, KindView::WaitEvent { event }),
        ),
        NodeView::Emit(event, t) => match graph_args(t) {
            Ok(payload) => node_added(g, KindView::EmitSkillEvent { event, payload }),
            Err(_) => g,
        },
        NodeView::Action(constructor, t) => {
            let start = node_added(g, KindView::Extension { constructor, args: Seq::empty() });
            match args_appended(t, 0, next_id(g), Seq::empty(), start) {
                Ok((g2, args)) => kind_replaced(
                    g2,
                    next_id(g),
                    KindView::Extension { constructor, args },
                ),
                Err(_) => args_left(t, 0, next_id(g), start),
            }
        },
        NodeView::Deck(_) => g,
        NodeView::Spell(_, _) => g,
        NodeView::Modifier(_, _) => g,
        NodeView::Typed { name, args } => g,
    }
}

/// The graph that appending and linking a child leaves.
pub open spec fn child_left(
    c: NodeView,
    parent: SkillNodeId,
    slot: Seq<char>,
    g: GraphView,
) -> GraphView
    decreases size_node(c), 1nat,
{
    match appended(c, g) {
        Ok((g2, id)) => match child_linked(g2, parent, slot, id) {
            Ok(h) => h,
            Err(_) => g2,
        },
        Err(_) => graph_left(c, g),
    }
}

/// The graph that appending and linking a payload leaves.
pub open spec fn payload_left(
    c: NodeView,
    parent: SkillNodeId,
    slot: Seq<char>,
    g: GraphView,
) -> GraphView
    decreases size_node(c), 1nat,
{
    match appended(c, g) {
        Ok((g2, id)) => match payload_linked(g2, parent, slot, id) {
            Ok(h) => h,
            Err(_) => g2,
        },
        Err(_) => graph_left(c, g),
    }
}

/// The graph that appending and linking the children from the `k`-th on leaves.
pub open spec fn children_left(
    l: Seq<NodeView>,
    k: int,
    parent: SkillNodeId,
    slot: Seq<char>,
    g: GraphView,
) -> GraphView
    decreases size_nodes(l, l.len()), (l.len() - k + 2) as nat,
{
    if 0 <= k < l.len() {
        proof {
            lemma_node_in_list(l, k, l.len());
        }
        match child_appended(l[k], parent, slot, g) {
            Ok(g2) => children_left(l, k + 1, parent, slot, g2),
            Err(_) => child_left(l[k], parent, slot, g),
        }
    } else {
        g
    }
}

/// The graph that the arguments from the `k`-th on leave.
pub open spec fn args_left(t: ArgsView, k: int, parent: SkillNodeId, g: GraphView) -> GraphView
    decreases size_args(t, t.len()), (t.len() - k + 2) as nat,
{
    if 0 <= k < t.len() {
        let (key, v) = t[k];
        match payload_node(key, v) {
            Ok(Some(c)) => {
                proof {
                    lemma_node_from_value_size(v);
                    lemma_value_in_args(t, k, t.len());
                }
                match payload_appended(c, parent, key, g) {
                    Ok(g2) => args_left(t, k + 1, parent, g2),
                    Err(_) => payload_left(c, parent, key, g),
                }
            },
            Ok(None) => match graph_value(v) {
                Ok(_) => args_left(t, k + 1, parent, g),
                Err(_) => g,
            },
            Err(_) => g,
        }
    } else {
        g
    }
}

fn graph_fault(e: SkillGraphError) -> (r: SkillError)
    ensures
        r@ == ErrorView::Runtime(MessageView::Graph(e)),
{
    SkillError::Runtime(SkillMessage::Graph(e))
}

fn append_child(node: &SkillNode, parent: SkillNodeId, slot: &str, graph: &mut SkillGraph) -> (r:
    Result<(), SkillError>)
    ensures
        match child_appended(node@, parent, slot@, old(graph)@) {
            Ok(g) => r is Ok && final(graph)@ == g,
            Err(e) => r matches Err(x) && x@ == e,
        },
        final(graph)@ == child_left(node@, parent, slot@, old(graph)@),
    decreases size_node(node@), 1nat,
{
    let child = match append_graph_node(node, graph) {
        Ok(id) => id,
        Err(e) => return Err(e),
    };
    match graph.push_child(parent, slot.to_owned(), child) {
        Ok(_) => Ok(()),
        Err(e) => Err(graph_fault(e)),
    }
}

fn append_payload(node: &SkillNode, parent: SkillNodeId, slot: &str, graph: &mut SkillGraph) -> (r:
    Result<(), SkillError>)
    ensures
        match payload_appended(node@, parent, slot@, old(graph)@) {
            Ok(g) => r is Ok && final(graph)@ == g,
            Err(e) => r matches Err(x) && x@ == e,
        },
        final(graph)@ == payload_left(node@, parent, slot@, old(graph)@),
    decreases size_node(node@), 1nat,
{
    let child = match append_graph_node(node, graph) {
        Ok(id) => id,
        Err(e) => return Err(e),
    };
    match graph.push_payload(parent, slot.to_owned(), child) {
        Ok(_) => Ok(()),
        Err(e) => Err(graph_fault(e)),
    }
}

fn append_children(
    graph: &mut SkillGraph,
    parent: SkillNodeId,
    slot: &str,
    nodes: &Vec<SkillNode>,
) -> (r: Result<(), SkillError>)
    ensures
        match children_appended(nodes_view(nodes@), 0, parent, slot@, old(graph)@) {
            Ok(g) => r is Ok && final(graph)@ == g,
            Err(e) => r matches Err(x) && x@ == e,
        },
        final(graph)@ == children_left(nodes_view(nodes@), 0, parent, slot@, old(graph)@),
    decreases size_nodes(nodes_view(nodes@), nodes_view(nodes@).len()), 2nat,
{
    let ghost l = nodes_view(nodes@);
    let n: usize = nodes.len();
    let mut i: usize = 0;
    while i < n
        invariant
            i <= n,
            n == nodes@.len(),
            l == nodes_view(nodes@),
            children_appended(l, 0, parent, slot@, old(graph)@) == children_appended(
                l,
                i as int,
                parent,
                slot@,
                graph@,
            ),
            children_left(l, 0, parent, slot@, old(graph)@) == children_left(
                l,
                i as int,
                parent,
                slot@,
                graph@,
            ),
        decreases n - i,
    {
        proof {
            assert(l[i as int] == nodes@[i as int]@);
            lemma_node_in_list(l, i as int, l.len());
        }
        match append_child(&nodes[i], parent, slot, graph) {
            Ok(_) => {},
            Err(e) => return Err(e),
        }
        i = i + 1;
    }
    Ok(())
}

fn append_args(
    args: &SkillArgs,
    parent: SkillNodeId,
    graph: &mut SkillGraph,
) -> (r: Result<SkillParams, SkillError>)
    ensures
        match args_appended(args_view(*args), 0, parent, Seq::empty(), old(graph)@) {
            Ok((g, gathered)) => r matches Ok(m) && args_view(m) == gathered && final(graph)@ == g,
            Err(e) => r matches Err(x) && x@ == e,
        },
        final(graph)@ == args_left(args_view(*args), 0, parent, old(graph)@),
    decreases size_args(args_view(*args), args_view(*args).len()), 2nat,
{
    let ghost t = args_view(*args);
    let mut gathered: SkillParams = no_args();
    let n: usize = args.len();
    let mut i: usize = 0;
    while i < n
        invariant
            i <= n,
            n == args@.len(),
            t == args_view(*args),
            args_appended(t, 0, parent, Seq::empty(), old(graph)@) == args_appended(
                t,
                i as int,
                parent,
                args_view(gathered),
                graph@,
            ),
            args_left(t, 0, parent, old(graph)@) == args_left(t, i as int, parent, graph@),
        decreases n - i,
    {
        let key = args.key(i);
        let value = args.value(i);
        proof {
            assert(t[i as int] == (key@, value@));
            lemma_node_from_value_size(value@);
            lemma_value_in_args(t, i as int, t.len());
        }
        match payload_node_from_value(key.as_str(), value) {
            Ok(Some(payload)) => match append_payload(&payload, parent, key.as_str(), graph) {
                Ok(_) => {},
                Err(e) => return Err(e),
            },
            Ok(None) => match to_ecs_value(value) {
                Ok(v) => {
                    set_arg(&mut gathered, key.clone(), v);
                },
                Err(e) => return Err(e),
            },
            Err(e) => return Err(e),
        }
        i = i + 1;
    }
    Ok(gathered)
}

/// Appends a syntax tree to a graph. Where it fails, the nodes that were added before stay.
pub fn append_graph_node(node: &SkillNode, graph: &mut SkillGraph) -> (r: Result<
    SkillNodeId,
    SkillError,
>)
    ensures
        match appended(node@, old(graph)@) {
            Ok((g, id)) => r == Ok::<SkillNodeId, SkillError>(id) && final(graph)@ == g,
            Err(e) => r matches Err(x) && x@ == e,
        },
        final(graph)@ == graph_left(node@, old(graph)@),
    decreases size_node(node@), 0nat,
{
    match node {
        SkillNode::Sequence(nodes) => {
            let id = graph.add_node(SkillGraphNodeKind::Sequence);
            match append_children(graph, id, "items", nodes) {
                Ok(_) => Ok(id),
                Err(e) => Err(e),
            }
        },
        SkillNode::Parallel(nodes) => {
            let id = graph.add_node(SkillGraphNodeKind::Parallel);
            match append_children(graph, id, "branches", nodes) {
                Ok(_) => Ok(id),
                Err(e) => Err(e),
            }
        },
        SkillNode::Delay(seconds, child) => {
            let id = graph.add_node(SkillGraphNodeKind::Delay { seconds: seconds.clone() });
            match append_child(child, id, "then", graph) {
                Ok(_) => Ok(id),
                Err(e) => Err(e),
            }
        },
        SkillNode::Repeat { times, duration, interval, node: child } => {
            let id = graph.add_node(
                SkillGraphNodeKind::Repeat {
                    times: copy_expr(times),
                    duration: copy_expr(duration),
                    interval: copy_expr(interval),
                },
            );
            match append_child(child, id, "body", graph) {
                Ok(_) => Ok(id),
                Err(e) => Err(e),
            }
        },
        SkillNode::If { condition, then_node, else_node } => {
            let id = graph.add_node(SkillGraphNodeKind::If { condition: condition.clone() });
            match append_child(then_node, id, "then", graph) {
                Ok(_) => {},
                Err(e) => return Err(e),
            }
            match else_node {
                Some(child) => match append_child(child, id, "else", graph) {
                    Ok(_) => Ok(id),
                    Err(e) => Err(e),
                },
                None => Ok(id),
            }
        },
        SkillNode::Let(name, value, child) => {
            let value = match to_ecs_value(value) {
                Ok(v) => v,
                Err(e) => return Err(e),
            };
            let id = graph.add_node(SkillGraphNodeKind::SetSkillVar { name: name.clone(), value });
            match append_child(child, id, "then", graph) {
                Ok(_) => Ok(id),
                Err(e) => Err(e),
            }
        },
        SkillNode::On(event, child) => {
            let id = graph.add_node(SkillGraphNodeKind::WaitEvent { event: event.clone() });
            match append_payload(child, id, event.as_str(), graph) {
                Ok(_) => Ok(id),
                Err(e) => Err(e),
            }
        },
        SkillNode::Emit(event, args) => match to_ecs_args(args) {
            Ok(payload) => Ok(
                graph.add_node(
                    SkillGraphNodeKind::EmitSkillEvent { event: event.clone(), payload },
                ),
            ),
            Err(e) => Err(e),
        },
        SkillNode::Action(constructor, args) => {
            let id = graph.add_node(
                SkillGraphNodeKind::Extension { constructor: constructor.clone(), args: no_args() },
            );
            let gathered = match append_args(args, id, graph) {
                Ok(m) => m,
                Err(e) => return Err(e),
            };
            let kind = SkillGraphNodeKind::Extension {
                constructor: constructor.clone(),
                args: gathered,
            };
            if let Some(fresh) = graph.node_mut(id) {
                fresh.kind = kind;
            }
            Ok(id)
        },
        SkillNode::Deck(_) | SkillNode::Spell(_, _) | SkillNode::Modifier(_, _)
        | SkillNode::Typed { .. } => Err(
            SkillError::runtime("extension node remained after cast model compilation"),
        ),
    }
}

} // verus!
