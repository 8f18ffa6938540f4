//! How the nodes that a syntax tree adds to a graph hang together, and what a failure leaves.
use crate::append::{
    appended, args_appended, args_left, child_appended, child_left, children_appended,
    children_left, graph_args, graph_left, graph_value, kind_replaced, next_id, payload_appended,
    payload_left,
};
use crate::append_laws::{grown, in_slots, lemma_args_sum_from, lemma_sum_from, node_limit};
use crate::compile::graph_from;
use crate::error::SkillNodeId;
use crate::graph::{
    child_pushed, node_added, payload_pushed, slot, slot_pushed, GraphView, KindView, SlotsView,
};
use crate::payload::{
    lemma_node_from_value_size, lemma_value_in_args, payload_node, size_args, size_node, size_nodes,
};
use crate::table::{has_key, key_index, put};
use crate::tree_laws::refers;
use crate::value::{ArgsView, NodeView};
use vstd::prelude::*;

verus! {

/// A node from the `p`-th on that stands before the `j`-th names the `j`-th.
pub open spec fn is_named(g: GraphView, p: int, j: int) -> bool {
    exists|i: int| p <= i < j && refers(#[trigger] g.nodes[i], SkillNodeId(j as u32))
}

/// Every node behind the `p`-th is named by a node from the `p`-th on that stands before it.
pub open spec fn named_behind(g: GraphView, p: int) -> bool {
    forall|j: int| p < j < g.nodes.len() ==> #[trigger] is_named(g, p, j)
}

proof fn lemma_push_keeps(s: SlotsView, name: Seq<char>, child: SkillNodeId, x: SkillNodeId)
    requires
        in_slots(s, x) || x == child,
    ensures
        in_slots(slot_pushed(s, name, child), x),
{
    let t = slot_pushed(s, name, child);
    let l = slot(s, name);
    let at = if has_key(s, name) {
        key_index(s, name)
    } else {
        s.len() as int
    };
    if has_key(s, name) {
        assert(0 <= at < s.len() && s[at].0 == name);
        assert(l == s[at].1);
    }
    assert(t[at].1 == l.push(child));
    if x == child {
        assert(t[at].1[l.len() as int] == x);
        assert(t[at].1.contains(x));
    } else {
        let i = choose|i: int| 0 <= i < s.len() && (#[trigger] s[i]).1.contains(x);
        let k = s[i].1.index_of(x);
        if i == at {
            assert(t[at].1[k] == x);
            assert(t[at].1.contains(x));
        } else {
            assert(t[i] == s[i]);
        }
    }
}

/// Linking the node behind those of `g` into the `p`-th keeps all nodes named.
proof fn lemma_link_names(
    g: GraphView,
    mid: GraphView,
    parent: SkillNodeId,
    name: Seq<char>,
    h: GraphView,
)
    requires
        parent.0 < g.nodes.len() < mid.nodes.len() <= node_limit(),
        grown(g, mid, -1),
        named_behind(g, parent.0 as int),
        named_behind(mid, g.nodes.len() as int),
        h == child_pushed(mid, parent, name, SkillNodeId(g.nodes.len() as u32)) || h
            == payload_pushed(mid, parent, name, SkillNodeId(g.nodes.len() as u32)),
    ensures
        named_behind(h, parent.0 as int),
        grown(g, h, parent.0 as int),
{
    let p = parent.0 as int;
    let head = g.nodes.len() as int;
    let id = SkillNodeId(head as u32);
    let n = mid.nodes[p];
    assert(n == g.nodes[p]);
    assert forall|x: SkillNodeId| refers(n, x) || x == id implies #[trigger] refers(
        h.nodes[p],
        x,
    ) by {
        if in_slots(n.children, x) || x == id {
            lemma_push_keeps(n.children, name, id, x);
        }
        if in_slots(n.payloads, x) || x == id {
            lemma_push_keeps(n.payloads, name, id, x);
        }
    }
    assert forall|j: int| p < j < h.nodes.len() implies #[trigger] is_named(h, p, j) by {
        let x = SkillNodeId(j as u32);
        if j < head {
            assert(is_named(g, p, j));
            let i = choose|i: int| p <= i < j && refers(#[trigger] g.nodes[i], x);
            if i != p {
                assert(h.nodes[i] == mid.nodes[i]);
                assert(mid.nodes[i] == g.nodes[i]);
            }
            assert(refers(h.nodes[i], x));
        } else if j == head {
            assert(refers(h.nodes[p], x));
        } else {
            assert(is_named(mid, head, j));
            let i = choose|i: int| head <= i < j && refers(#[trigger] mid.nodes[i], x);
            assert(h.nodes[i] == mid.nodes[i]);
            assert(refers(h.nodes[i], x));
        }
    }
}

proof fn lemma_start(g: GraphView, kind: KindView)
    requires
        g.nodes.len() < node_limit(),
    ensures
        grown(g, node_added(g, kind), -1),
        named_behind(node_added(g, kind), g.nodes.len() as int),
        next_id(g).0 == g.nodes.len(),
{
}

/// The law of links: of the nodes that appending a syntax tree adds behind those that there were,
/// each but the first is named by one that was added before it.
pub proof fn law_added_nodes_are_named(n: NodeView, g: GraphView)
    requires
        g.nodes.len() + size_node(n) <= node_limit(),
    ensures
        appended(n, g) matches Ok((h, id)) ==> {
            &&& id.0 == g.nodes.len()
            &&& g.nodes.len() < h.nodes.len() <= g.nodes.len() + size_node(n)
            &&& grown(g, h, -1)
            &&& named_behind(h, g.nodes.len() as int)
        },
    decreases size_node(n), 0nat,
{
    let id = next_id(g);
    assert(size_node(n) > 0);
    match n {
        NodeView::Sequence(l) => {
            lemma_start(g, KindView::Sequence);
            lemma_children(l, 0, id, "items"@, node_added(g, KindView::Sequence));
        },
        NodeView::Parallel(l) => {
            lemma_start(g, KindView::Parallel);
            lemma_children(l, 0, id, "branches"@, node_added(g, KindView::Parallel));
        },
        NodeView::Delay(seconds, c) => {
            lemma_start(g, KindView::Delay { seconds });
            lemma_child(*c, id, "then"@, node_added(g, KindView::Delay { seconds }));
        },
        NodeView::Repeat { times, duration, interval, node } => {
            let kind = KindView::Repeat { times, duration, interval };
            lemma_start(g, kind);
            lemma_child(*node, id, "body"@, node_added(g, kind));
        },
        NodeView::If { condition, then_node, else_node } => {
            let kind = KindView::If { condition };
            lemma_start(g, kind);
            lemma_child(*then_node, id, "then"@, node_added(g, kind));
            match child_appended(*then_node, id, "then"@, node_added(g, kind)) {
                Ok(g2) => match else_node {
                    Some(c) => {
                        lemma_child(*c, id, "else"@, g2);
                    },
                    None => {},
                },
                Err(_) => {},
            }
        },
        NodeView::Let(name, v, c) => {
            let kind = KindView::SetSkillVar { name, value: v };
            lemma_start(g, kind);
            lemma_child(*c, id, "then"@, node_added(g, kind));
        },
        NodeView::On(event, c) => {
            lemma_start(g, KindView::WaitEvent { event });
            lemma_payload(*c, id, event, node_added(g, KindView::WaitEvent { event }));
        },
        NodeView::Emit(event, t) => {
            lemma_start(g, KindView::EmitSkillEvent { event, payload: t });
        },
        NodeView::Action(constructor, t) => {
            let kind = KindView::Extension { constructor, args: Seq::empty() };
            lemma_start(g, kind);
            lemma_args(t, 0, id, Seq::empty(), node_added(g, kind));
            match args_appended(t, 0, id, Seq::empty(), node_added(g, kind)) {
                Ok((h, args)) => {
                    let after = kind_replaced(h, id, KindView::Extension { constructor, args });
                    lemma_kind_replaced(h, id, KindView::Extension { constructor, args });
                    assert(grown(g, after, -1));
                },
                Err(_) => {},
            }
        },
        _ => {},
    }
}

proof fn lemma_kind_replaced(h: GraphView, id: SkillNodeId, kind: KindView)
    requires
        named_behind(h, id.0 as int),
    ensures
        named_behind(kind_replaced(h, id, kind), id.0 as int),
{
    let after = kind_replaced(h, id, kind);
    let p = id.0 as int;
    assert forall|j: int| p < j < after.nodes.len() implies #[trigger] is_named(after, p, j) by {
        let x = SkillNodeId(j as u32);
        assert(is_named(h, p, j));
        let i = choose|i: int| p <= i < j && refers(#[trigger] h.nodes[i], x);
        assert(refers(after.nodes[i], x));
    }
}

proof fn lemma_child(c: NodeView, parent: SkillNodeId, name: Seq<char>, g: GraphView)
    requires
        parent.0 < g.nodes.len(),
        g.nodes.len() + size_node(c) <= node_limit(),
        named_behind(g, parent.0 as int),
    ensures
        child_appended(c, parent, name, g) matches Ok(h) ==> grown(g, h, parent.0 as int)
            && h.nodes.len() <= g.nodes.len() + size_node(c) && named_behind(h, parent.0 as int),
    decreases size_node(c), 1nat,
{
    law_added_nodes_are_named(c, g);
    match appended(c, g) {
        Ok((mid, id)) => {
            lemma_link_names(g, mid, parent, name, child_pushed(mid, parent, name, id));
        },
        Err(_) => {},
    }
}

proof fn lemma_payload(c: NodeView, parent: SkillNodeId, name: Seq<char>, g: GraphView)
    requires
        parent.0 < g.nodes.len(),
        g.nodes.len() + size_node(c) <= node_limit(),
        named_behind(g, parent.0 as int),
    ensures
        payload_appended(c, parent, name, g) matches Ok(h) ==> grown(g, h, parent.0 as int)
            && h.nodes.len() <= g.nodes.len() + size_node(c) && named_behind(h, parent.0 as int),
    decreases size_node(c), 1nat,
{
    law_added_nodes_are_named(c, g);
    match appended(c, g) {
        Ok((mid, id)) => {
            lemma_link_names(g, mid, parent, name, payload_pushed(mid, parent, name, id));
        },
        Err(_) => {},
    }
}

proof fn lemma_children(
    l: Seq<NodeView>,
    k: int,
    parent: SkillNodeId,
    name: Seq<char>,
    g: GraphView,
)
    requires
        0 <= k <= l.len(),
        parent.0 < g.nodes.len(),
        g.nodes.len() + (size_nodes(l, l.len()) - size_nodes(l, k as nat)) <= node_limit(),
        named_behind(g, parent.0 as int),
    ensures
        children_appended(l, k, parent, name, g) matches Ok(h) ==> grown(g, h, parent.0 as int)
            && h.nodes.len() <= g.nodes.len() + (size_nodes(l, l.len()) - size_nodes(l, k as nat))
            && named_behind(h, parent.0 as int),
    decreases size_nodes(l, l.len()), (l.len() - k + 2) as nat,
{
    if k < l.len() {
        lemma_sum_from(l, k);
        lemma_child(l[k], parent, name, g);
        match child_appended(l[k], parent, name, g) {
            Ok(h) => {
                lemma_children(l, k + 1, parent, name, h);
            },
            Err(_) => {},
        }
    }
}

proof fn lemma_args(
    t: ArgsView,
    k: int,
    parent: SkillNodeId,
    gathered: ArgsView,
    g: GraphView,
)
    requires
        0 <= k <= t.len(),
        parent.0 < g.nodes.len(),
        g.nodes.len() + (size_args(t, t.len()) - size_args(t, k as nat)) <= node_limit(),
        named_behind(g, parent.0 as int),
    ensures
        args_appended(t, k, parent, gathered, g) matches Ok((h, _)) ==> grown(
            g,
            h,
            parent.0 as int,
        ) && h.nodes.len() <= g.nodes.len() + (size_args(t, t.len()) - size_args(t, k as nat))
            && named_behind(h, parent.0 as int),
    decreases size_args(t, t.len()), (t.len() - k + 2) as nat,
{
    if k < t.len() {
        lemma_args_sum_from(t, k);
        lemma_value_in_args(t, k, t.len());
        let (key, v) = t[k];
        lemma_node_from_value_size(v);
        match payload_node(key, v) {
            Ok(Some(c)) => {
                lemma_payload(c, parent, key, g);
                match payload_appended(c, parent, key, g) {
                    Ok(h) => {
                        lemma_args(t, k + 1, parent, gathered, h);
                    },
                    Err(_) => {},
                }
            },
            Ok(None) => {
                match graph_value(v) {
                    Ok(w) => {
                        lemma_args(t, k + 1, parent, put(gathered, key, w), g);
                    },
                    Err(_) => {},
                }
            },
            Err(_) => {},
        }
    }
}

/// Two graphs are of the same skill.
pub open spec fn same_skill(a: GraphView, b: GraphView) -> bool {
    b.id == a.id && b.tags == a.tags && b.params == a.params && b.root == a.root
}

/// Appending changes nothing but the nodes of a graph.
pub proof fn lemma_fields(n: NodeView, g: GraphView)
    ensures
        appended(n, g) matches Ok((h, _)) ==> same_skill(g, h),
    decreases size_node(n), 0nat,
{
    let id = next_id(g);
    match n {
        NodeView::Sequence(l) => {
            lemma_children_fields(l, 0, id, "items"@, node_added(g, KindView::Sequence));
        },
        NodeView::Parallel(l) => {
            lemma_children_fields(l, 0, id, "branches"@, node_added(g, KindView::Parallel));
        },
        NodeView::Delay(seconds, c) => {
            lemma_fields(*c, node_added(g, KindView::Delay { seconds }));
        },
        NodeView::Repeat { times, duration, interval, node } => {
            lemma_fields(*node, node_added(g, KindView::Repeat { times, duration, interval }));
        },
        NodeView::If { condition, then_node, else_node } => {
            let start = node_added(g, KindView::If { condition });
            lemma_fields(*then_node, start);
            match (child_appended(*then_node, id, "then"@, start), else_node) {
                (Ok(g2), Some(c)) => lemma_fields(*c, g2),
                _ => {},
            }
        },
        NodeView::Let(name, value, c) => {
            lemma_fields(*c, node_added(g, KindView::SetSkillVar { name, value }));
        },
        NodeView::On(event, c) => {
            lemma_fields(*c, node_added(g, KindView::WaitEvent { event }));
        },
        NodeView::Action(constructor, t) => {
            lemma_args_fields(
                t,
                0,
                id,
                Seq::empty(),
                node_added(g, KindView::Extension { constructor, args: Seq::empty() }),
            );
        },
        _ => {},
    }
}

proof fn lemma_children_fields(
    l: Seq<NodeView>,
    k: int,
    parent: SkillNodeId,
    name: Seq<char>,
    g: GraphView,
)
    requires
        0 <= k <= l.len(),
    ensures
        children_appended(l, k, parent, name, g) matches Ok(h) ==> same_skill(g, h),
    decreases size_nodes(l, l.len()), (l.len() - k + 2) as nat,
{
    if k < l.len() {
        lemma_sum_from(l, k);
        lemma_fields(l[k], g);
        match child_appended(l[k], parent, name, g) {
            Ok(h) => lemma_children_fields(l, k + 1, parent, name, h),
            Err(_) => {},
        }
    }
}

proof fn lemma_args_fields(
    t: ArgsView,
    k: int,
    parent: SkillNodeId,
    gathered: ArgsView,
    g: GraphView,
)
    requires
        0 <= k <= t.len(),
    ensures
        args_appended(t, k, parent, gathered, g) matches Ok((h, _)) ==> same_skill(g, h),
    decreases size_args(t, t.len()), (t.len() - k + 2) as nat,
{
    if k < t.len() {
        lemma_value_in_args(t, k, t.len());
        let (key, v) = t[k];
        lemma_node_from_value_size(v);
        match payload_node(key, v) {
            Ok(Some(c)) => {
                lemma_fields(c, g);
                match payload_appended(c, parent, key, g) {
                    Ok(h) => lemma_args_fields(t, k + 1, parent, gathered, h),
                    Err(_) => {},
                }
            },
            Ok(None) => match graph_value(v) {
                Ok(w) => lemma_args_fields(t, k + 1, parent, put(gathered, key, w), g),
                Err(_) => {},
            },
            Err(_) => {},
        }
    }
}

/// The law of compiled graphs: every node but the root is named by a node before it, as long as the
/// numbers last.
pub proof fn law_built_graphs_hang_together(
    id: Seq<char>,
    tags: Seq<Seq<char>>,
    params: ArgsView,
    root: NodeView,
)
    requires
        size_node(root) <= node_limit(),
    ensures
        graph_from(id, tags, params, root) matches Ok(g) ==> g.root == Some(SkillNodeId(0))
            && named_behind(g, 0),
{
    match graph_args(params) {
        Ok(p) => {
            let start = GraphView { id, tags, params: p, root: None, nodes: Seq::empty() };
            law_added_nodes_are_named(root, start);
            match appended(root, start) {
                Ok((g, root_id)) => {
                    let whole = GraphView { root: Some(root_id), ..g };
                    assert forall|j: int| 0 < j < whole.nodes.len() implies #[trigger] is_named(
                        whole,
                        0,
                        j,
                    ) by {
                        let x = SkillNodeId(j as u32);
                        assert(is_named(g, 0, j));
                        let i = choose|i: int| 0 <= i < j && refers(#[trigger] g.nodes[i], x);
                        assert(refers(whole.nodes[i], x));
                    }
                },
                Err(_) => {},
            }
        },
        Err(_) => {},
    }
}

/// The law of failures: whether or not appending a syntax tree goes well, the nodes that there were
/// stay as they were, and no more are added than the tree can have; where it goes well, the graph
/// that it leaves is the one that comes out.
pub proof fn law_failed_append_keeps_nodes(n: NodeView, g: GraphView)
    requires
        g.nodes.len() + size_node(n) <= node_limit(),
    ensures
        grown(g, graph_left(n, g), -1),
        graph_left(n, g).nodes.len() <= g.nodes.len() + size_node(n),
        appended(n, g) matches Ok((h, _)) ==> graph_left(n, g) == h,
    decreases size_node(n), 0nat,
{
    let id = next_id(g);
    assert(size_node(n) > 0);
    match n {
        NodeView::Sequence(l) => {
            lemma_start(g, KindView::Sequence);
            lemma_children_left(l, 0, id, "items"@, node_added(g, KindView::Sequence));
        },
        NodeView::Parallel(l) => {
            lemma_start(g, KindView::Parallel);
            lemma_children_left(l, 0, id, "branches"@, node_added(g, KindView::Parallel));
        },
        NodeView::Delay(seconds, c) => {
            lemma_start(g, KindView::Delay { seconds });
            lemma_child_left(*c, id, "then"@, node_added(g, KindView::Delay { seconds }));
        },
        NodeView::Repeat { times, duration, interval, node } => {
            let kind = KindView::Repeat { times, duration, interval };
            lemma_start(g, kind);
            lemma_child_left(*node, id, "body"@, node_added(g, kind));
        },
        NodeView::If { condition, then_node, else_node } => {
            let kind = KindView::If { condition };
            lemma_start(g, kind);
            lemma_child_left(*then_node, id, "then"@, node_added(g, kind));
            match child_appended(*then_node, id, "then"@, node_added(g, kind)) {
                Ok(g2) => match else_node {
                    Some(c) => {
                        lemma_child_left(*c, id, "else"@, g2);
                    },
                    None => {},
                },
                Err(_) => {},
            }
        },
        NodeView::Let(name, v, c) => {
            let kind = KindView::SetSkillVar { name, value: v };
            lemma_start(g, kind);
            lemma_child_left(*c, id, "then"@, node_added(g, kind));
        },
        NodeView::On(event, c) => {
            lemma_start(g, KindView::WaitEvent { event });
            lemma_payload_left(*c, id, event, node_added(g, KindView::WaitEvent { event }));
        },
        NodeView::Emit(event, t) => {
            lemma_start(g, KindView::EmitSkillEvent { event, payload: t });
        },
        NodeView::Action(constructor, t) => {
            let kind = KindView::Extension { constructor, args: Seq::empty() };
            let start = node_added(g, kind);
            lemma_start(g, kind);
            lemma_args_left(t, 0, id, Seq::empty(), start);
            match args_appended(t, 0, id, Seq::empty(), start) {
                Ok((h, args)) => {
                    let after = kind_replaced(h, id, KindView::Extension { constructor, args });
                    assert(grown(g, after, -1));
                },
                Err(_) => {
                    assert(grown(g, args_left(t, 0, id, start), -1));
                },
            }
        },
        _ => {},
    }
}

proof fn lemma_child_left(c: NodeView, parent: SkillNodeId, name: Seq<char>, g: GraphView)
    requires
        parent.0 < g.nodes.len(),
        g.nodes.len() + size_node(c) <= node_limit(),
    ensures
        grown(g, child_left(c, parent, name, g), parent.0 as int),
        child_left(c, parent, name, g).nodes.len() <= g.nodes.len() + size_node(c),
        child_appended(c, parent, name, g) matches Ok(h) ==> child_left(c, parent, name, g) == h,
    decreases size_node(c), 1nat,
{
    law_failed_append_keeps_nodes(c, g);
}

proof fn lemma_payload_left(c: NodeView, parent: SkillNodeId, name: Seq<char>, g: GraphView)
    requires
        parent.0 < g.nodes.len(),
        g.nodes.len() + size_node(c) <= node_limit(),
    ensures
        grown(g, payload_left(c, parent, name, g), parent.0 as int),
        payload_left(c, parent, name, g).nodes.len() <= g.nodes.len() + size_node(c),
        payload_appended(c, parent, name, g) matches Ok(h) ==> payload_left(c, parent, name, g)
            == h,
    decreases size_node(c), 1nat,
{
    law_failed_append_keeps_nodes(c, g);
}

proof fn lemma_children_left(
    l: Seq<NodeView>,
    k: int,
    parent: SkillNodeId,
    name: Seq<char>,
    g: GraphView,
)
    requires
        0 <= k <= l.len(),
        parent.0 < g.nodes.len(),
        g.nodes.len() + (size_nodes(l, l.len()) - size_nodes(l, k as nat)) <= node_limit(),
    ensures
        grown(g, children_left(l, k, parent, name, g), parent.0 as int),
        children_left(l, k, parent, name, g).nodes.len() <= g.nodes.len() + (size_nodes(l, l.len())
            - size_nodes(l, k as nat)),
        children_appended(l, k, parent, name, g) matches Ok(h) ==> children_left(
            l,
            k,
            parent,
            name,
            g,
        ) == h,
    decreases size_nodes(l, l.len()), (l.len() - k + 2) as nat,
{
    if k < l.len() {
        lemma_sum_from(l, k);
        lemma_child_left(l[k], parent, name, g);
        match child_appended(l[k], parent, name, g) {
            Ok(h) => {
                lemma_children_left(l, k + 1, parent, name, h);
            },
            Err(_) => {},
        }
    }
}

proof fn lemma_args_left(
    t: ArgsView,
    k: int,
    parent: SkillNodeId,
    gathered: ArgsView,
    g: GraphView,
)
    requires
        0 <= k <= t.len(),
        parent.0 < g.nodes.len(),
        g.nodes.len() + (size_args(t, t.len()) - size_args(t, k as nat)) <= node_limit(),
    ensures
        grown(g, args_left(t, k, parent, g), parent.0 as int),
        args_left(t, k, parent, g).nodes.len() <= g.nodes.len() + (size_args(t, t.len())
            - size_args(t, k as nat)),
        args_appended(t, k, parent, gathered, g) matches Ok((h, _)) ==> args_left(t, k, parent, g)
            == h,
    decreases size_args(t, t.len()), (t.len() - k + 2) as nat,
{
    if k < t.len() {
        lemma_args_sum_from(t, k);
        lemma_value_in_args(t, k, t.len());
        let (key, v) = t[k];
        lemma_node_from_value_size(v);
        match payload_node(key, v) {
            Ok(Some(c)) => {
                lemma_payload_left(c, parent, key, g);
                match payload_appended(c, parent, key, g) {
                    Ok(h) => {
                        lemma_args_left(t, k + 1, parent, gathered, h);
                    },
                    Err(_) => {},
                }
            },
            Ok(None) => {
                match graph_value(v) {
                    Ok(w) => {
                        lemma_args_left(t, k + 1, parent, put(gathered, key, w), g);
                    },
                    Err(_) => {},
                }
            },
            Err(_) => {},
        }
    }
}

} // verus!
