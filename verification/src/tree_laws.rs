//! Compiled graphs are trees: no node stands in two places.
use crate::append::{
    appended, args_appended, child_appended, children_appended, graph_args, graph_value,
    kind_replaced, next_id, payload_appended,
};
use crate::append_laws::{forward, in_slots, law_appending_builds_trees, lemma_flat, node_limit};
use crate::compile::graph_from;
use crate::error::SkillNodeId;
use crate::graph::{
    child_pushed, flat, node_added, payload_pushed, slot, slot_pushed, GraphNodeView, GraphView,
    KindView, SlotsView,
};
use crate::payload::{
    lemma_node_from_value_size, lemma_value_in_args, payload_node, size_args, size_node, size_nodes,
};
use crate::table::{distinct, has_key, key_index, lemma_distinct, put};
use crate::validate::targets;
use crate::value::{ArgsView, NodeView};
use vstd::prelude::*;

verus! {

/// A place in slots holds the node.
pub open spec fn holds_at(s: SlotsView, i: int, j: int, x: SkillNodeId) -> bool {
    0 <= i < s.len() && 0 <= j < s[i].1.len() && s[i].1[j] == x
}

/// No node stands in two places of the slots.
pub open spec fn slots_single(s: SlotsView) -> bool {
    forall|i: int, j: int, k: int, l: int, x: SkillNodeId|
        #[trigger] holds_at(s, i, j, x) && #[trigger] holds_at(s, k, l, x) ==> i == k && j == l
}

/// The node refers to the other.
pub open spec fn refers(n: GraphNodeView, x: SkillNodeId) -> bool {
    in_slots(n.children, x) || in_slots(n.payloads, x)
}

/// The slots of a node have different names, and no node stands in two places of them.
pub open spec fn node_single(n: GraphNodeView) -> bool {
    &&& distinct(n.children)
    &&& distinct(n.payloads)
    &&& slots_single(n.children)
    &&& slots_single(n.payloads)
    &&& forall|x: SkillNodeId|
        !(#[trigger] in_slots(n.children, x) && #[trigger] in_slots(n.payloads, x))
}

/// Nodes are numbered by their places and refer to later nodes alone, and no node stands in two
/// places.
pub open spec fn tree(g: GraphView) -> bool {
    &&& forward(g)
    &&& forall|i: int| 0 <= i < g.nodes.len() ==> node_single(#[trigger] g.nodes[i])
    &&& forall|i: int, j: int, x: SkillNodeId|
        0 <= i < g.nodes.len() && 0 <= j < g.nodes.len() && #[trigger] refers(g.nodes[i], x)
            && #[trigger] refers(g.nodes[j], x) ==> i == j
}

proof fn lemma_holds_in(s: SlotsView, i: int, j: int, x: SkillNodeId)
    requires
        holds_at(s, i, j, x),
    ensures
        in_slots(s, x),
{
    assert(s[i].1[j] == x);
    assert(s[i].1.contains(x));
}

/// A node refers to later nodes.
pub proof fn lemma_refers_forward(g: GraphView, i: int, x: SkillNodeId)
    requires
        forward(g),
        0 <= i < g.nodes.len(),
        refers(g.nodes[i], x),
    ensures
        i < x.0 < g.nodes.len(),
{
    let n = g.nodes[i];
    lemma_flat(n.children, x);
    lemma_flat(n.payloads, x);
    if in_slots(n.children, x) {
        let k = flat(n.children).index_of(x);
        assert(targets(n)[k] == x);
    } else {
        let k = flat(n.payloads).index_of(x);
        assert(targets(n)[flat(n.children).len() + k] == x);
    }
    assert(targets(g.nodes[i]).contains(x));
}

proof fn lemma_push_single(s: SlotsView, name: Seq<char>, child: SkillNodeId)
    requires
        distinct(s),
        slots_single(s),
        !in_slots(s, child),
    ensures
        distinct(slot_pushed(s, name, child)),
        slots_single(slot_pushed(s, name, child)),
        forall|x: SkillNodeId| #[trigger]
            in_slots(slot_pushed(s, name, child), x) ==> in_slots(s, x) || x == child,
{
    let t = slot_pushed(s, name, child);
    let l = slot(s, name);
    lemma_distinct(s, name, l.push(child));
    let at = if has_key(s, name) {
        key_index(s, name)
    } else {
        s.len() as int
    };
    if has_key(s, name) {
        assert(0 <= at < s.len() && s[at].0 == name);
        assert(l == s[at].1);
    }
    assert(t[at].1 == l.push(child));
    assert forall|i: int, j: int, x: SkillNodeId| #[trigger] holds_at(t, i, j, x) implies (i == at
        && j == l.len() && x == child) || holds_at(s, i, j, x) by {
        if i == at {
            if j < l.len() {
                assert(has_key(s, name));
                assert(t[i].1[j] == s[i].1[j]);
            }
        } else {
            assert(t[i] == s[i]);
        }
    }
    assert forall|i: int, j: int, k: int, m: int, x: SkillNodeId| #[trigger]
        holds_at(t, i, j, x) && #[trigger] holds_at(t, k, m, x) implies i == k && j == m by {
        if holds_at(s, i, j, x) {
            lemma_holds_in(s, i, j, x);
        }
        if holds_at(s, k, m, x) {
            lemma_holds_in(s, k, m, x);
        }
    }
    assert forall|x: SkillNodeId| #[trigger] in_slots(t, x) implies in_slots(s, x) || x
        == child by {
        let i = choose|i: int| 0 <= i < t.len() && (#[trigger] t[i]).1.contains(x);
        let j = t[i].1.index_of(x);
        assert(holds_at(t, i, j, x));
        if holds_at(s, i, j, x) {
            lemma_holds_in(s, i, j, x);
        }
    }
}

proof fn lemma_tree_added(g: GraphView, kind: KindView)
    requires
        tree(g),
        forward(node_added(g, kind)),
    ensures
        tree(node_added(g, kind)),
{
    let h = node_added(g, kind);
    assert forall|i: int| 0 <= i < h.nodes.len() implies node_single(#[trigger] h.nodes[i]) by {
        if i < g.nodes.len() {
            assert(h.nodes[i] == g.nodes[i]);
        }
    }
    assert forall|i: int, j: int, x: SkillNodeId|
        0 <= i < h.nodes.len() && 0 <= j < h.nodes.len() && #[trigger] refers(h.nodes[i], x)
            && #[trigger] refers(h.nodes[j], x) implies i == j by {
        if i < g.nodes.len() && j < g.nodes.len() {
            assert(h.nodes[i] == g.nodes[i] && h.nodes[j] == g.nodes[j]);
        }
    }
}

/// Linking a node that nothing refers to keeps a tree.
proof fn lemma_tree_linked(
    g: GraphView,
    parent: SkillNodeId,
    name: Seq<char>,
    child: SkillNodeId,
    h: GraphView,
    payload: bool,
)
    requires
        tree(g),
        parent.0 < g.nodes.len(),
        forall|i: int| 0 <= i < g.nodes.len() ==> !refers(#[trigger] g.nodes[i], child),
        h == if payload {
            payload_pushed(g, parent, name, child)
        } else {
            child_pushed(g, parent, name, child)
        },
        forward(h),
    ensures
        tree(h),
{
    let p = parent.0 as int;
    let n = g.nodes[p];
    let m = h.nodes[p];
    assert(!refers(n, child));
    if payload {
        lemma_push_single(n.payloads, name, child);
    } else {
        lemma_push_single(n.children, name, child);
    }
    assert forall|x: SkillNodeId| #[trigger] refers(m, x) implies refers(n, x) || x == child by {}
    assert(node_single(m)) by {
        assert forall|x: SkillNodeId|
            !(#[trigger] in_slots(m.children, x) && #[trigger] in_slots(m.payloads, x)) by {
            if in_slots(m.children, x) && in_slots(m.payloads, x) {
                if x == child {
                    if payload {
                        assert(in_slots(n.children, x));
                    } else {
                        assert(in_slots(n.payloads, x));
                    }
                } else {
                    assert(in_slots(n.children, x) && in_slots(n.payloads, x));
                }
            }
        }
    }
    assert forall|i: int| 0 <= i < h.nodes.len() implies node_single(#[trigger] h.nodes[i]) by {
        if i != p {
            assert(h.nodes[i] == g.nodes[i]);
        }
    }
    assert forall|i: int, j: int, x: SkillNodeId|
        0 <= i < h.nodes.len() && 0 <= j < h.nodes.len() && #[trigger] refers(h.nodes[i], x)
            && #[trigger] refers(h.nodes[j], x) implies i == j by {
        if i != p {
            assert(h.nodes[i] == g.nodes[i]);
        }
        if j != p {
            assert(h.nodes[j] == g.nodes[j]);
        }
        if x == child {
            if i != p {
                assert(refers(g.nodes[i], child));
            }
            if j != p {
                assert(refers(g.nodes[j], child));
            }
        } else {
            assert(refers(g.nodes[i], x));
            assert(refers(g.nodes[j], x));
        }
    }
}

/// The law of trees: appending a syntax tree to a tree makes a tree, and nothing refers to the
/// node of the whole syntax tree yet.
pub proof fn law_appending_keeps_trees(n: NodeView, g: GraphView)
    requires
        tree(g),
        g.nodes.len() + size_node(n) <= node_limit(),
    ensures
        appended(n, g) matches Ok((h, id)) ==> tree(h) && forall|i: int|
            0 <= i < h.nodes.len() ==> !refers(#[trigger] h.nodes[i], id),
    decreases size_node(n), 0nat,
{
    law_appending_builds_trees(n, g);
    let id = next_id(g);
    match n {
        NodeView::Sequence(l) => {
            lemma_start(g, KindView::Sequence);
            lemma_children(l, 0, id, "items"@, node_added(g, KindView::Sequence));
        },
        NodeView::Parallel(l) => {
            lemma_start(g, KindView::Parallel);
            lemma_children(l, 0, id, "branches"@, node_added(g, KindView::Parallel));
        },
        NodeView::Delay(seconds, c) => {
            lemma_start(g, KindView::Delay { seconds });
            lemma_child(*c, id, "then"@, node_added(g, KindView::Delay { seconds }));
        },
        NodeView::Repeat { times, duration, interval, node } => {
            let kind = KindView::Repeat { times, duration, interval };
            lemma_start(g, kind);
            lemma_child(*node, id, "body"@, node_added(g, kind));
        },
        NodeView::If { condition, then_node, else_node } => {
            let kind = KindView::If { condition };
            lemma_start(g, kind);
            lemma_child(*then_node, id, "then"@, node_added(g, kind));
            match child_appended(*then_node, id, "then"@, node_added(g, kind)) {
                Ok(g2) => match else_node {
                    Some(c) => {
                        lemma_child(*c, id, "else"@, g2);
                    },
                    None => {},
                },
                Err(_) => {},
            }
        },
        NodeView::Let(name, v, c) => {
            let kind = KindView::SetSkillVar { name, value: v };
            lemma_start(g, kind);
            lemma_child(*c, id, "then"@, node_added(g, kind));
        },
        NodeView::On(event, c) => {
            lemma_start(g, KindView::WaitEvent { event });
            lemma_payload(*c, id, event, node_added(g, KindView::WaitEvent { event }));
        },
        NodeView::Emit(event, t) => {
            lemma_start(g, KindView::EmitSkillEvent { event, payload: t });
        },
        NodeView::Action(constructor, t) => {
            let kind = KindView::Extension { constructor, args: Seq::empty() };
            lemma_start(g, kind);
            lemma_args(t, 0, id, Seq::empty(), node_added(g, kind));
            match args_appended(t, 0, id, Seq::empty(), node_added(g, kind)) {
                Ok((h, args)) => {
                    let after = kind_replaced(h, id, KindView::Extension { constructor, args });
                    assert forall|i: int| 0 <= i < after.nodes.len() implies after.nodes[i].children
                        == h.nodes[i].children && (#[trigger] after.nodes[i]).payloads
                        == h.nodes[i].payloads by {}
                    assert forall|i: int| 0 <= i < after.nodes.len() implies node_single(
                        #[trigger] after.nodes[i],
                    ) by {
                        assert(node_single(h.nodes[i]));
                    }
                    assert forall|i: int, j: int, x: SkillNodeId|
                        0 <= i < after.nodes.len() && 0 <= j < after.nodes.len()
                            && #[trigger] refers(after.nodes[i], x) && #[trigger] refers(
                            after.nodes[j],
                            x,
                        ) implies i == j by {
                        assert(refers(h.nodes[i], x) && refers(h.nodes[j], x));
                    }
                },
                Err(_) => {},
            }
        },
        _ => {},
    }
    match appended(n, g) {
        Ok((h, top)) => {
            assert forall|i: int| 0 <= i < h.nodes.len() implies !refers(
                #[trigger] h.nodes[i],
                top,
            ) by {
                if refers(h.nodes[i], top) {
                    lemma_refers_forward(h, i, top);
                    if i < g.nodes.len() {
                        assert(h.nodes[i] == g.nodes[i]);
                        lemma_refers_forward(g, i, top);
                    }
                }
            }
        },
        Err(_) => {},
    }
}

proof fn lemma_start(g: GraphView, kind: KindView)
    requires
        tree(g),
        g.nodes.len() < node_limit(),
    ensures
        tree(node_added(g, kind)),
        next_id(g).0 == g.nodes.len(),
{
    let h = node_added(g, kind);
    assert(forward(h)) by {
        assert forall|i: int, x: SkillNodeId|
            0 <= i < h.nodes.len() && #[trigger] targets(h.nodes[i]).contains(x) implies i < x.0
            < h.nodes.len() by {
            if i < g.nodes.len() {
                assert(h.nodes[i] == g.nodes[i]);
            } else {
                assert(targets(h.nodes[i]) =~= Seq::empty());
            }
        }
    }
    lemma_tree_added(g, kind);
}

proof fn lemma_child(c: NodeView, parent: SkillNodeId, name: Seq<char>, g: GraphView)
    requires
        tree(g),
        parent.0 < g.nodes.len(),
        g.nodes.len() + size_node(c) <= node_limit(),
    ensures
        child_appended(c, parent, name, g) matches Ok(h) ==> tree(h) && g.nodes.len()
            <= h.nodes.len() <= g.nodes.len() + size_node(c),
    decreases size_node(c), 1nat,
{
    law_appending_keeps_trees(c, g);
    law_appending_builds_trees(c, g);
    match appended(c, g) {
        Ok((h, id)) => {
            crate::append_laws::lemma_linked(h, parent, name, id);
            lemma_tree_linked(h, parent, name, id, child_pushed(h, parent, name, id), false);
        },
        Err(_) => {},
    }
}

proof fn lemma_payload(c: NodeView, parent: SkillNodeId, name: Seq<char>, g: GraphView)
    requires
        tree(g),
        parent.0 < g.nodes.len(),
        g.nodes.len() + size_node(c) <= node_limit(),
    ensures
        payload_appended(c, parent, name, g) matches Ok(h) ==> tree(h) && g.nodes.len()
            <= h.nodes.len() <= g.nodes.len() + size_node(c),
    decreases size_node(c), 1nat,
{
    law_appending_keeps_trees(c, g);
    law_appending_builds_trees(c, g);
    match appended(c, g) {
        Ok((h, id)) => {
            crate::append_laws::lemma_linked(h, parent, name, id);
            lemma_tree_linked(h, parent, name, id, payload_pushed(h, parent, name, id), true);
        },
        Err(_) => {},
    }
}

proof fn lemma_children(
    l: Seq<NodeView>,
    k: int,
    parent: SkillNodeId,
    name: Seq<char>,
    g: GraphView,
)
    requires
        0 <= k <= l.len(),
        tree(g),
        parent.0 < g.nodes.len(),
        g.nodes.len() + (size_nodes(l, l.len()) - size_nodes(l, k as nat)) <= node_limit(),
    ensures
        children_appended(l, k, parent, name, g) matches Ok(h) ==> tree(h),
    decreases size_nodes(l, l.len()), (l.len() - k + 2) as nat,
{
    if k < l.len() {
        crate::append_laws::lemma_sum_from(l, k);
        lemma_child(l[k], parent, name, g);
        match child_appended(l[k], parent, name, g) {
            Ok(h) => {
                lemma_children(l, k + 1, parent, name, h);
            },
            Err(_) => {},
        }
    }
}

proof fn lemma_args(
    t: ArgsView,
    k: int,
    parent: SkillNodeId,
    gathered: ArgsView,
    g: GraphView,
)
    requires
        0 <= k <= t.len(),
        tree(g),
        parent.0 < g.nodes.len(),
        g.nodes.len() + (size_args(t, t.len()) - size_args(t, k as nat)) <= node_limit(),
    ensures
        args_appended(t, k, parent, gathered, g) matches Ok((h, _)) ==> tree(h),
    decreases size_args(t, t.len()), (t.len() - k + 2) as nat,
{
    if k < t.len() {
        crate::append_laws::lemma_args_sum_from(t, k);
        lemma_value_in_args(t, k, t.len());
        let (key, v) = t[k];
        lemma_node_from_value_size(v);
        match payload_node(key, v) {
            Ok(Some(c)) => {
                lemma_payload(c, parent, key, g);
                match payload_appended(c, parent, key, g) {
                    Ok(h) => {
                        lemma_args(t, k + 1, parent, gathered, h);
                    },
                    Err(_) => {},
                }
            },
            Ok(None) => {
                match graph_value(v) {
                    Ok(w) => {
                        lemma_args(t, k + 1, parent, put(gathered, key, w), g);
                    },
                    Err(_) => {},
                }
            },
            Err(_) => {},
        }
    }
}

/// The law of compiled graphs: they are trees, as long as the numbers last.
pub proof fn law_built_graphs_are_trees(
    id: Seq<char>,
    tags: Seq<Seq<char>>,
    params: ArgsView,
    root: NodeView,
)
    requires
        size_node(root) <= node_limit(),
    ensures
        graph_from(id, tags, params, root) matches Ok(g) ==> tree(g),
{
    match graph_args(params) {
        Ok(p) => {
            let start = GraphView { id, tags, params: p, root: None, nodes: Seq::empty() };
            law_appending_keeps_trees(root, start);
        },
        Err(_) => {},
    }
}

} // verus!
