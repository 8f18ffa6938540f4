//! What holds of every graph that is built from a syntax tree.
use crate::append::{
    appended, args_appended, child_appended, child_linked, children_appended, graph_args,
    graph_value, kind_replaced, next_id, payload_appended, payload_linked,
};
use crate::compile::graph_from;
use crate::error::{ErrorView, SkillNodeId};
use crate::graph::{
    child_pushed, flat, has_node, node_added, payload_pushed, slot, slot_pushed, GraphNodeView,
    GraphView, KindView, SlotsView,
};
use crate::payload::{
    lemma_node_from_value_size, lemma_value_in_args, node_from_value, payload_node, size_args,
    size_node, size_nodes, size_value,
};
use crate::table::{has_key, key_index, put};
use crate::validate::{
    checked, edge, is_path, law_valid_graphs, leads, reaches, references, targets,
};
use crate::value::{ArgsView, NodeView, ValueView};
use vstd::prelude::*;

verus! {

/// How many nodes can be numbered.
pub open spec fn node_limit() -> nat {
    0x1_0000_0000
}

/// Some slot holds the node.
pub open spec fn in_slots(s: SlotsView, x: SkillNodeId) -> bool {
    exists|i: int| 0 <= i < s.len() && (#[trigger] s[i]).1.contains(x)
}

/// A node is among all nodes in slots if some slot holds it.
pub proof fn lemma_flat(s: SlotsView, x: SkillNodeId)
    ensures
        flat(s).contains(x) <==> in_slots(s, x),
    decreases s.len(),
{
    if s.len() > 0 {
        let p = s.drop_last();
        lemma_flat(p, x);
        if flat(s).contains(x) {
            let i = flat(s).index_of(x);
            if i < flat(p).len() {
                assert(flat(p)[i] == x);
                let j = choose|j: int| 0 <= j < p.len() && (#[trigger] p[j]).1.contains(x);
                assert(s[j] == p[j]);
            } else {
                assert(s.last().1[i - flat(p).len()] == x);
                assert(s[s.len() - 1].1.contains(x));
            }
        }
        if in_slots(s, x) {
            let j = choose|j: int| 0 <= j < s.len() && (#[trigger] s[j]).1.contains(x);
            if j < p.len() {
                assert(p[j] == s[j]);
                let i = flat(p).index_of(x);
                assert(flat(s)[i] == x);
            } else {
                let i = s.last().1.index_of(x);
                assert(flat(s)[flat(p).len() + i] == x);
            }
        }
    }
}

proof fn lemma_pushed(s: SlotsView, name: Seq<char>, child: SkillNodeId, x: SkillNodeId)
    ensures
        flat(slot_pushed(s, name, child)).contains(x) ==> flat(s).contains(x) || x == child,
{
    let t = slot_pushed(s, name, child);
    lemma_flat(s, x);
    lemma_flat(t, x);
    if in_slots(t, x) && x != child {
        let j = choose|j: int| 0 <= j < t.len() && (#[trigger] t[j]).1.contains(x);
        let changed = if has_key(s, name) {
            key_index(s, name)
        } else {
            s.len() as int
        };
        if j == changed {
            let l = slot(s, name);
            assert(t[j].1 == l.push(child));
            let i = t[j].1.index_of(x);
            assert(l[i] == x);
            assert(has_key(s, name));
            assert(0 <= changed < s.len() && s[changed].0 == name);
            assert(s[changed].1.contains(x));
        } else {
            assert(s[j] == t[j]);
        }
    }
}

/// Nodes are numbered by their places, and refer to later nodes alone.
pub open spec fn forward(g: GraphView) -> bool {
    &&& g.nodes.len() <= node_limit()
    &&& forall|i: int| 0 <= i < g.nodes.len() ==> (#[trigger] g.nodes[i]).id == SkillNodeId(i as u32)
    &&& forall|i: int, x: SkillNodeId|
        0 <= i < g.nodes.len() && #[trigger] targets(g.nodes[i]).contains(x) ==> i < x.0
            < g.nodes.len()
}

/// The second graph has the nodes of the first, and maybe more behind them; the node at `but` may
/// refer to more.
pub open spec fn grown(a: GraphView, b: GraphView, but: int) -> bool {
    &&& a.nodes.len() <= b.nodes.len()
    &&& forall|i: int| 0 <= i < a.nodes.len() && i != but ==> #[trigger] b.nodes[i] == a.nodes[i]
    &&& b.id == a.id && b.tags == a.tags && b.params == a.params && b.root == a.root
}

proof fn lemma_added(g: GraphView, kind: KindView)
    requires
        forward(g),
        g.nodes.len() < node_limit(),
    ensures
        forward(node_added(g, kind)),
        grown(g, node_added(g, kind), -1),
        next_id(g).0 == g.nodes.len(),
{
    let h = node_added(g, kind);
    assert forall|i: int, x: SkillNodeId|
        0 <= i < h.nodes.len() && #[trigger] targets(h.nodes[i]).contains(x) implies i < x.0
        < h.nodes.len() by {
        if i < g.nodes.len() {
            assert(h.nodes[i] == g.nodes[i]);
        } else {
            assert(targets(h.nodes[i]) =~= Seq::empty());
        }
    }
}

/// Linking a later node into an earlier one goes well.
pub proof fn lemma_linked(g: GraphView, parent: SkillNodeId, name: Seq<char>, child: SkillNodeId)
    requires
        forward(g),
        parent.0 < child.0 < g.nodes.len(),
    ensures
        forward(child_pushed(g, parent, name, child)),
        forward(payload_pushed(g, parent, name, child)),
        grown(g, child_pushed(g, parent, name, child), parent.0 as int),
        grown(g, payload_pushed(g, parent, name, child), parent.0 as int),
        child_linked(g, parent, name, child) == Ok::<GraphView, ErrorView>(
            child_pushed(g, parent, name, child),
        ),
        payload_linked(g, parent, name, child) == Ok::<GraphView, ErrorView>(
            payload_pushed(g, parent, name, child),
        ),
{
    let n = g.nodes[parent.0 as int];
    assert(has_node(g, parent));
    assert(g.nodes[child.0 as int].id == SkillNodeId(child.0));
    assert(has_node(g, child));
    let h = child_pushed(g, parent, name, child);
    assert forall|i: int, x: SkillNodeId|
        0 <= i < h.nodes.len() && #[trigger] targets(h.nodes[i]).contains(x) implies i < x.0
        < h.nodes.len() by {
        if i == parent.0 {
            let k = targets(h.nodes[i]).index_of(x);
            let first = flat(slot_pushed(n.children, name, child));
            if k < first.len() {
                assert(first[k] == x);
                lemma_pushed(n.children, name, child, x);
                if x != child {
                    let j = flat(n.children).index_of(x);
                    assert(targets(n)[j] == x);
                    assert(targets(g.nodes[i]).contains(x));
                }
            } else {
                let j = k - first.len();
                assert(flat(n.payloads)[j] == x);
                assert(targets(n)[flat(n.children).len() + j] == x);
                assert(targets(g.nodes[i]).contains(x));
            }
        } else {
            assert(h.nodes[i] == g.nodes[i]);
        }
    }
    let p = payload_pushed(g, parent, name, child);
    assert forall|i: int, x: SkillNodeId|
        0 <= i < p.nodes.len() && #[trigger] targets(p.nodes[i]).contains(x) implies i < x.0
        < p.nodes.len() by {
        if i == parent.0 {
            let k = targets(p.nodes[i]).index_of(x);
            let first = flat(n.children);
            if k < first.len() {
                assert(first[k] == x);
                assert(targets(n)[k] == x);
                assert(targets(g.nodes[i]).contains(x));
            } else {
                let j = k - first.len();
                assert(flat(slot_pushed(n.payloads, name, child))[j] == x);
                lemma_pushed(n.payloads, name, child, x);
                if x != child {
                    let m = flat(n.payloads).index_of(x);
                    assert(targets(n)[first.len() + m] == x);
                    assert(targets(g.nodes[i]).contains(x));
                }
            }
        } else {
            assert(p.nodes[i] == g.nodes[i]);
        }
    }
}

/// The error does not come from the shape of the graph.
spec fn not_of_shape(e: ErrorView) -> bool {
    !(e is Runtime && e->Runtime_0 is Graph)
}

/// A tree of nodes comes out: the new node stands behind those that there were, which stay as they
/// were, and links never fail.
pub open spec fn grows(g: GraphView, n: NodeView) -> bool {
    match appended(n, g) {
        Ok((h, id)) => {
            &&& forward(h)
            &&& id.0 == g.nodes.len()
            &&& g.nodes.len() < h.nodes.len() <= g.nodes.len() + size_node(n)
            &&& forall|i: int| 0 <= i < g.nodes.len() ==> #[trigger] h.nodes[i] == g.nodes[i]
            &&& h.id == g.id && h.tags == g.tags && h.params == g.params && h.root == g.root
        },
        Err(e) => !(e is Runtime && e->Runtime_0 is Graph),
    }
}

/// The law of appending: into a graph whose nodes are numbered by their places and refer to later
/// nodes alone, every syntax tree goes in that way, as long as the numbers last.
pub proof fn law_appending_builds_trees(n: NodeView, g: GraphView)
    requires
        forward(g),
        g.nodes.len() + size_node(n) <= node_limit(),
    ensures
        grows(g, n),
    decreases size_node(n), 0nat,
{
    let id = next_id(g);
    assert(size_node(n) > 0);
    match n {
        NodeView::Sequence(l) => {
            lemma_added(g, KindView::Sequence);
            lemma_children(l, 0, id, "items"@, node_added(g, KindView::Sequence));
        },
        NodeView::Parallel(l) => {
            lemma_added(g, KindView::Parallel);
            lemma_children(l, 0, id, "branches"@, node_added(g, KindView::Parallel));
        },
        NodeView::Delay(seconds, c) => {
            lemma_added(g, KindView::Delay { seconds });
            lemma_child(*c, id, "then"@, node_added(g, KindView::Delay { seconds }));
        },
        NodeView::Repeat { times, duration, interval, node } => {
            let kind = KindView::Repeat { times, duration, interval };
            lemma_added(g, kind);
            lemma_child(*node, id, "body"@, node_added(g, kind));
        },
        NodeView::If { condition, then_node, else_node } => {
            let kind = KindView::If { condition };
            lemma_added(g, kind);
            lemma_child(*then_node, id, "then"@, node_added(g, kind));
            match child_appended(*then_node, id, "then"@, node_added(g, kind)) {
                Ok(g2) => match else_node {
                    Some(c) => {
                        lemma_child(*c, id, "else"@, g2);
                    },
                    None => {},
                },
                Err(_) => {},
            }
        },
        NodeView::Let(name, v, c) => {
            let kind = KindView::SetSkillVar { name, value: v };
            lemma_added(g, kind);
            lemma_child(*c, id, "then"@, node_added(g, kind));
        },
        NodeView::On(event, c) => {
            lemma_added(g, KindView::WaitEvent { event });
            lemma_payload(*c, id, event, node_added(g, KindView::WaitEvent { event }));
        },
        NodeView::Emit(event, t) => {
            lemma_added(g, KindView::EmitSkillEvent { event, payload: t });
        },
        NodeView::Action(constructor, t) => {
            let kind = KindView::Extension { constructor, args: Seq::empty() };
            lemma_added(g, kind);
            lemma_args(t, 0, id, Seq::empty(), node_added(g, kind));
            match args_appended(t, 0, id, Seq::empty(), node_added(g, kind)) {
                Ok((h, args)) => {
                    let after = kind_replaced(h, id, KindView::Extension { constructor, args });
                    assert(has_node(h, id));
                    assert forall|i: int, x: SkillNodeId|
                        0 <= i < after.nodes.len() && #[trigger] targets(after.nodes[i]).contains(
                            x,
                        ) implies i < x.0 < after.nodes.len() by {
                        assert(targets(after.nodes[i]) == targets(h.nodes[i]));
                    }
                    assert(forward(after));
                },
                Err(_) => {},
            }
        },
        _ => {},
    }
}

proof fn lemma_child(c: NodeView, parent: SkillNodeId, name: Seq<char>, g: GraphView)
    requires
        forward(g),
        parent.0 < g.nodes.len(),
        g.nodes.len() + size_node(c) <= node_limit(),
    ensures
        match child_appended(c, parent, name, g) {
            Ok(h) => forward(h) && grown(g, h, parent.0 as int) && h.nodes.len() <= g.nodes.len()
                + size_node(c),
            Err(e) => not_of_shape(e),
        },
    decreases size_node(c), 1nat,
{
    law_appending_builds_trees(c, g);
    match appended(c, g) {
        Ok((h, id)) => {
            lemma_linked(h, parent, name, id);
        },
        Err(_) => {},
    }
}

proof fn lemma_payload(c: NodeView, parent: SkillNodeId, name: Seq<char>, g: GraphView)
    requires
        forward(g),
        parent.0 < g.nodes.len(),
        g.nodes.len() + size_node(c) <= node_limit(),
    ensures
        match payload_appended(c, parent, name, g) {
            Ok(h) => forward(h) && grown(g, h, parent.0 as int) && h.nodes.len() <= g.nodes.len()
                + size_node(c),
            Err(e) => not_of_shape(e),
        },
    decreases size_node(c), 1nat,
{
    law_appending_builds_trees(c, g);
    match appended(c, g) {
        Ok((h, id)) => {
            lemma_linked(h, parent, name, id);
        },
        Err(_) => {},
    }
}

/// The size of a list of nodes, one node further.
pub proof fn lemma_sum_from(l: Seq<NodeView>, k: int)
    requires
        0 <= k < l.len(),
    ensures
        size_nodes(l, (k + 1) as nat) == size_nodes(l, k as nat) + size_node(l[k]),
        size_nodes(l, (k + 1) as nat) <= size_nodes(l, l.len()),
    decreases l.len() - k,
{
    if k + 1 < l.len() {
        lemma_sum_from(l, k + 1);
    }
}

proof fn lemma_children(
    l: Seq<NodeView>,
    k: int,
    parent: SkillNodeId,
    name: Seq<char>,
    g: GraphView,
)
    requires
        0 <= k <= l.len(),
        forward(g),
        parent.0 < g.nodes.len(),
        g.nodes.len() + (size_nodes(l, l.len()) - size_nodes(l, k as nat)) <= node_limit(),
    ensures
        match children_appended(l, k, parent, name, g) {
            Ok(h) => forward(h) && grown(g, h, parent.0 as int) && h.nodes.len() <= g.nodes.len()
                + (size_nodes(l, l.len()) - size_nodes(l, k as nat)),
            Err(e) => not_of_shape(e),
        },
    decreases size_nodes(l, l.len()), (l.len() - k + 2) as nat,
{
    if k < l.len() {
        lemma_sum_from(l, k);
        lemma_child(l[k], parent, name, g);
        match child_appended(l[k], parent, name, g) {
            Ok(h) => {
                lemma_children(l, k + 1, parent, name, h);
            },
            Err(_) => {},
        }
    }
}

/// The size of arguments, one argument further.
pub proof fn lemma_args_sum_from(t: ArgsView, k: int)
    requires
        0 <= k < t.len(),
    ensures
        size_args(t, (k + 1) as nat) == size_args(t, k as nat) + size_value(t[k].1),
        size_args(t, (k + 1) as nat) <= size_args(t, t.len()),
    decreases t.len() - k,
{
    if k + 1 < t.len() {
        lemma_args_sum_from(t, k + 1);
    }
}

proof fn lemma_payload_error(v: ValueView)
    ensures
        node_from_value(v) matches Err(e) ==> not_of_shape(e),
    decreases v, 0nat,
{
    if v is List {
        lemma_payload_list_error(v->List_0);
    }
}

proof fn lemma_payload_list_error(l: Seq<ValueView>)
    ensures
        crate::payload::node_from_list(l) matches Err(e) ==> not_of_shape(e),
    decreases l, 2nat,
{
    if l.len() == 2 && l[0] is String && l[1] is Table {
    } else if l.len() == 2 && l[0] is String {
        lemma_payload_error(l[1]);
    } else if l.len() == 1 && l[0] is List {
        assert(decreases_to!(l => l[0]));
        assert(decreases_to!(l[0] => l[0]->List_0));
        lemma_payload_sequence_error(l[0]->List_0);
    } else if forall|i: int| 0 <= i < l.len() ==> (#[trigger] l[i]) is List {
        lemma_payload_sequence_error(l);
    }
}

proof fn lemma_payload_sequence_error(l: Seq<ValueView>)
    ensures
        crate::payload::sequence_from(l) matches Err(e) ==> not_of_shape(e),
    decreases l, 1nat,
{
    let parts = crate::payload::each_node_from(l);
    assert forall|i: int| 0 <= i < l.len() implies (#[trigger] parts[i] matches Err(e)
        ==> not_of_shape(e)) by {
        assert(decreases_to!(l => l[i]));
        lemma_payload_error(l[i]);
    }
    if crate::collect::collected(parts) is Err {
        lemma_some_first(parts, 0);
        let k = crate::collect::first_failure(parts);
        assert(0 <= k < parts.len() && parts[k] is Err);
    }
}

/// Where some result is a failure, some failure is the first.
proof fn lemma_some_first<V, E>(r: Seq<Result<V, E>>, k: int)
    requires
        0 <= k <= r.len(),
        forall|j: int| 0 <= j < k ==> (#[trigger] r[j]) is Ok,
        exists|i: int| 0 <= i < r.len() && (#[trigger] r[i]) is Err,
    ensures
        exists|i: int|
            0 <= i < r.len() && (#[trigger] r[i]) is Err && forall|j: int|
                0 <= j < i ==> (#[trigger] r[j]) is Ok,
    decreases r.len() - k,
{
    if k < r.len() {
        if r[k] is Err {
            assert(0 <= k < r.len() && r[k] is Err);
        } else {
            lemma_some_first(r, k + 1);
        }
    }
}

proof fn lemma_args(
    t: ArgsView,
    k: int,
    parent: SkillNodeId,
    gathered: ArgsView,
    g: GraphView,
)
    requires
        0 <= k <= t.len(),
        forward(g),
        parent.0 < g.nodes.len(),
        g.nodes.len() + (size_args(t, t.len()) - size_args(t, k as nat)) <= node_limit(),
    ensures
        match args_appended(t, k, parent, gathered, g) {
            Ok((h, _)) => forward(h) && grown(g, h, parent.0 as int) && h.nodes.len()
                <= g.nodes.len() + (size_args(t, t.len()) - size_args(t, k as nat)),
            Err(e) => not_of_shape(e),
        },
    decreases size_args(t, t.len()), (t.len() - k + 2) as nat,
{
    if k < t.len() {
        lemma_args_sum_from(t, k);
        lemma_value_in_args(t, k, t.len());
        let (key, v) = t[k];
        lemma_node_from_value_size(v);
        lemma_payload_error(v);
        match payload_node(key, v) {
            Ok(Some(c)) => {
                lemma_payload(c, parent, key, g);
                match payload_appended(c, parent, key, g) {
                    Ok(h) => {
                        lemma_args(t, k + 1, parent, gathered, h);
                    },
                    Err(_) => {},
                }
            },
            Ok(None) => {
                match graph_value(v) {
                    Ok(w) => {
                        lemma_args(t, k + 1, parent, put(gathered, key, w), g);
                    },
                    Err(_) => {},
                }
            },
            Err(_) => {},
        }
    }
}

proof fn lemma_path_rises(g: GraphView, p: Seq<SkillNodeId>, k: int)
    requires
        forward(g),
        is_path(g, p),
        0 <= k < p.len(),
    ensures
        p[0].0 <= p[k].0,
    decreases k,
{
    if k > 0 {
        lemma_path_rises(g, p, k - 1);
        assert(edge(g, p[k - 1], p[k - 1 + 1]));
        assert(targets(g.nodes[p[k - 1].0 as int]).contains(p[k]));
    }
}

proof fn lemma_references(nodes: Seq<GraphNodeView>, x: SkillNodeId)
    requires
        references(nodes).contains(x),
    ensures
        exists|i: int| 0 <= i < nodes.len() && #[trigger] targets(nodes[i]).contains(x),
    decreases nodes.len(),
{
    if nodes.len() > 0 {
        let p = nodes.drop_last();
        let k = references(nodes).index_of(x);
        if k < references(p).len() {
            assert(references(p)[k] == x);
            lemma_references(p, x);
            let i = choose|i: int| 0 <= i < p.len() && #[trigger] targets(p[i]).contains(x);
            assert(p[i] == nodes[i]);
        } else {
            assert(targets(nodes.last())[k - references(p).len()] == x);
            assert(targets(nodes[nodes.len() - 1]).contains(x));
        }
    }
}

/// A graph whose nodes refer to later nodes alone, with a root, is well formed.
pub proof fn law_forward_graphs_are_valid(g: GraphView)
    requires
        forward(g),
        g.root is Some,
        (g.root->0).0 < g.nodes.len(),
    ensures
        checked(g) is Ok,
{
    law_valid_graphs(g);
    let root = g.root->0;
    assert(g.nodes[root.0 as int].id == SkillNodeId(root.0));
    assert forall|i: int| 0 <= i < references(g.nodes).len() implies has_node(
        g,
        #[trigger] references(g.nodes)[i],
    ) by {
        let x = references(g.nodes)[i];
        assert(references(g.nodes).contains(x));
        lemma_references(g.nodes, x);
        let j = choose|j: int| 0 <= j < g.nodes.len() && #[trigger] targets(g.nodes[j]).contains(x);
        assert(j < x.0 < g.nodes.len());
        assert(g.nodes[x.0 as int].id == SkillNodeId(x.0));
    }
    assert forall|a: SkillNodeId| #[trigger] reaches(g, root, a) implies !leads(g, a, a) by {
        if leads(g, a, a) {
            let c = choose|c: SkillNodeId| #[trigger] edge(g, a, c) && reaches(g, c, a);
            let p = choose|p: Seq<SkillNodeId>| #[trigger]
                is_path(g, p) && p[0] == c && p.last() == a;
            lemma_path_rises(g, p, p.len() - 1);
            assert(targets(g.nodes[a.0 as int]).contains(c));
        }
    }
}

/// The law of graphs: the shape of a graph that is built from a syntax tree is never at fault, as
/// long as the numbers last.
pub proof fn law_built_graphs_are_valid(
    id: Seq<char>,
    tags: Seq<Seq<char>>,
    params: ArgsView,
    root: NodeView,
)
    requires
        size_node(root) <= node_limit(),
    ensures
        graph_from(id, tags, params, root) matches Err(e) ==> !(e is Runtime && e->Runtime_0 is Graph),
        graph_from(id, tags, params, root) matches Ok(g) ==> forward(g) && g.root == Some(
            SkillNodeId(0),
        ) && g.id == id && g.tags == tags && g.params == params,
{
    match graph_args(params) {
        Ok(p) => {
            let start = GraphView { id, tags, params: p, root: None, nodes: Seq::empty() };
            law_appending_builds_trees(root, start);
            match appended(root, start) {
                Ok((g, root_id)) => {
                    let whole = GraphView { root: Some(root_id), ..g };
                    assert(forward(whole));
                    law_forward_graphs_are_valid(whole);
                },
                Err(_) => {},
            }
        },
        Err(_) => {},
    }
}

} // verus!
