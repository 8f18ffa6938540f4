//! The graph of a skill stands for its syntax tree.
use crate::append::{
    appended, args_appended, child_appended, children_appended, graph_args, graph_value,
    kind_replaced, next_id, payload_appended,
};
use crate::append_laws::{grown, lemma_args_sum_from, lemma_sum_from, node_limit};
use crate::compile::graph_from;
use crate::error::SkillNodeId;
use crate::graph::{
    child_pushed, has_node, node_added, payload_pushed, slot, slot_pushed, GraphNodeView, GraphView,
    KindView, SlotsView,
};
use crate::kind_laws::bare;
use crate::link_laws::law_added_nodes_are_named;
use crate::materialize::materialized;
use crate::node::{ComponentsView, EmitView, ExtensionView, RepeatView, SetVarView};
use crate::payload::{
    lemma_node_from_value_size, lemma_node_in_list, lemma_value_in_args, payload_node, size_args,
    size_node, size_nodes,
};
use crate::table::{distinct, has_key, key_index, law_put_then_lookup, lookup, put};
use crate::value::{ArgsView, NodeView, ValueView};
use vstd::prelude::*;

verus! {

/// The slots hold nothing.
pub open spec fn vacant(s: SlotsView) -> bool {
    s.len() == 0
}

/// The slots hold one node, under this name.
pub open spec fn holds_one(s: SlotsView, name: Seq<char>, x: SkillNodeId) -> bool {
    s.len() == 1 && s[0].0 == name && s[0].1.len() == 1 && s[0].1[0] == x
}

/// The slots hold nodes under one name, as many as are said.
pub open spec fn holds_many(s: SlotsView, name: Seq<char>, count: nat) -> bool {
    if count == 0 {
        s.len() == 0
    } else {
        s.len() == 1 && s[0].0 == name && s[0].1.len() == count
    }
}

/// The node with this number, and what it refers to, stand for the syntax tree.
pub open spec fn depicts(g: GraphView, id: SkillNodeId, n: NodeView) -> bool
    decreases size_node(n), 0nat,
{
    id.0 < g.nodes.len() && {
        let x = g.nodes[id.0 as int];
        match n {
            NodeView::Sequence(l) => x.kind is Sequence && vacant(x.payloads) && holds_many(
                x.children,
                "items"@,
                l.len(),
            ) && all_depicted(g, id, slot(x.children, "items"@), l, l.len()),
            NodeView::Parallel(l) => x.kind is Parallel && vacant(x.payloads) && holds_many(
                x.children,
                "branches"@,
                l.len(),
            ) && all_depicted(g, id, slot(x.children, "branches"@), l, l.len()),
            NodeView::Delay(seconds, c) => x.kind == (KindView::Delay { seconds }) && vacant(
                x.payloads,
            ) && holds_many(x.children, "then"@, 1) && below(g, id, x.children[0].1[0], *c),
            NodeView::Repeat { times, duration, interval, node } => x.kind == (KindView::Repeat {
                times,
                duration,
                interval,
            }) && vacant(x.payloads) && holds_many(x.children, "body"@, 1) && below(
                g,
                id,
                x.children[0].1[0],
                *node,
            ),
            NodeView::If { condition, then_node, else_node } => x.kind == (KindView::If {
                condition,
            }) && vacant(x.payloads) && x.children.len() >= 1 && x.children[0].0 == "then"@
                && x.children[0].1.len() == 1 && below(g, id, x.children[0].1[0], *then_node)
                && match else_node {
                None => x.children.len() == 1,
                Some(c) => x.children.len() == 2 && x.children[1].0 == "else"@
                    && x.children[1].1.len() == 1 && below(g, id, x.children[1].1[0], *c),
            },
            NodeView::Let(name, value, c) => x.kind == (KindView::SetSkillVar { name, value })
                && vacant(x.payloads) && holds_many(x.children, "then"@, 1) && below(
                g,
                id,
                x.children[0].1[0],
                *c,
            ),
            NodeView::On(event, c) => x.kind == (KindView::WaitEvent { event }) && vacant(
                x.children,
            ) && holds_many(x.payloads, event, 1) && below(g, id, x.payloads[0].1[0], *c),
            NodeView::Emit(event, payload) => x.kind == (KindView::EmitSkillEvent {
                event,
                payload,
            }) && vacant(x.children) && vacant(x.payloads),
            NodeView::Action(constructor, t) => x.kind is Extension && x.kind->constructor
                == constructor && vacant(x.children) && args_depicted(
                g,
                id,
                x.payloads,
                x.kind->Extension_args,
                t,
                t.len(),
            ),
            _ => false,
        }
    }
}

/// A later node, with what it refers to, stands for the syntax tree.
pub open spec fn below(g: GraphView, id: SkillNodeId, x: SkillNodeId, n: NodeView) -> bool
    decreases size_node(n), 1nat,
{
    id.0 < x.0 && depicts(g, x, n)
}

/// The first `k` of the nodes stand for the first `k` syntax trees.
pub open spec fn all_depicted(
    g: GraphView,
    id: SkillNodeId,
    ids: Seq<SkillNodeId>,
    l: Seq<NodeView>,
    k: nat,
) -> bool
    decreases size_nodes(l, l.len()), k + 2,
{
    if 0 < k <= l.len() {
        proof {
            lemma_node_in_list(l, k - 1, l.len());
        }
        all_depicted(g, id, ids, l, (k - 1) as nat) && k <= ids.len() && below(
            g,
            id,
            ids[k - 1],
            l[k - 1],
        )
    } else {
        true
    }
}

/// Of the first `k` arguments, each that stands for a node has it as the last payload under its
/// name, and each other stands among the arguments.
pub open spec fn args_depicted(
    g: GraphView,
    id: SkillNodeId,
    payloads: SlotsView,
    args: ArgsView,
    t: ArgsView,
    k: nat,
) -> bool
    decreases size_args(t, t.len()), k + 2,
{
    if 0 < k <= t.len() {
        let (key, v) = t[k - 1];
        args_depicted(g, id, payloads, args, t, (k - 1) as nat) && match payload_node(key, v) {
            Ok(Some(c)) => {
                proof {
                    lemma_node_from_value_size(v);
                    lemma_value_in_args(t, k - 1, t.len());
                }
                slot(payloads, key).len() == 1 && below(g, id, slot(payloads, key)[0], c)
            },
            Ok(None) => lookup(args, key) == Some(v),
            Err(_) => false,
        }
    } else {
        true
    }
}

/// The nodes behind the `p`-th are the same in both graphs, as far as the first one goes.
spec fn same_behind(g: GraphView, h: GraphView, p: int) -> bool {
    g.nodes.len() <= h.nodes.len() && forall|j: int|
        p < j < g.nodes.len() ==> #[trigger] h.nodes[j] == g.nodes[j]
}

proof fn lemma_depicts_kept(g: GraphView, h: GraphView, p: int, id: SkillNodeId, n: NodeView)
    requires
        same_behind(g, h, p),
        p < id.0,
        depicts(g, id, n),
    ensures
        depicts(h, id, n),
    decreases size_node(n), 0nat,
{
    let x = g.nodes[id.0 as int];
    assert(h.nodes[id.0 as int] == x);
    match n {
        NodeView::Sequence(l) => {
            lemma_all_kept(g, h, p, id, slot(x.children, "items"@), l, l.len());
        },
        NodeView::Parallel(l) => {
            lemma_all_kept(g, h, p, id, slot(x.children, "branches"@), l, l.len());
        },
        NodeView::Delay(_, c) => {
            lemma_depicts_kept(g, h, p, x.children[0].1[0], *c);
        },
        NodeView::Repeat { times, duration, interval, node } => {
            lemma_depicts_kept(g, h, p, x.children[0].1[0], *node);
        },
        NodeView::If { condition, then_node, else_node } => {
            lemma_depicts_kept(g, h, p, x.children[0].1[0], *then_node);
            if let Some(c) = else_node {
                lemma_depicts_kept(g, h, p, x.children[1].1[0], *c);
            }
        },
        NodeView::Let(_, _, c) => {
            lemma_depicts_kept(g, h, p, x.children[0].1[0], *c);
        },
        NodeView::On(_, c) => {
            lemma_depicts_kept(g, h, p, x.payloads[0].1[0], *c);
        },
        NodeView::Action(_, t) => {
            lemma_args_kept(g, h, p, id, x.payloads, x.kind->Extension_args, t, t.len());
        },
        _ => {},
    }
}

proof fn lemma_all_kept(
    g: GraphView,
    h: GraphView,
    p: int,
    id: SkillNodeId,
    ids: Seq<SkillNodeId>,
    l: Seq<NodeView>,
    k: nat,
)
    requires
        same_behind(g, h, p),
        p <= id.0,
        k <= l.len(),
        all_depicted(g, id, ids, l, k),
    ensures
        all_depicted(h, id, ids, l, k),
    decreases size_nodes(l, l.len()), k + 2,
{
    if k > 0 {
        lemma_node_in_list(l, k - 1, l.len());
        lemma_all_kept(g, h, p, id, ids, l, (k - 1) as nat);
        assert(below(g, id, ids[k - 1], l[k - 1]));
        lemma_depicts_kept(g, h, p, ids[k - 1], l[k - 1]);
        assert(below(h, id, ids[k - 1], l[k - 1]));
    }
}

proof fn lemma_args_kept(
    g: GraphView,
    h: GraphView,
    p: int,
    id: SkillNodeId,
    payloads: SlotsView,
    args: ArgsView,
    t: ArgsView,
    k: nat,
)
    requires
        same_behind(g, h, p),
        p <= id.0,
        k <= t.len(),
        args_depicted(g, id, payloads, args, t, k),
    ensures
        args_depicted(h, id, payloads, args, t, k),
    decreases size_args(t, t.len()), k + 2,
{
    if k > 0 {
        lemma_args_kept(g, h, p, id, payloads, args, t, (k - 1) as nat);
        let (key, v) = t[k - 1];
        lemma_node_from_value_size(v);
        lemma_value_in_args(t, k - 1, t.len());
        match payload_node(key, v) {
            Ok(Some(c)) => {
                assert(below(g, id, slot(payloads, key)[0], c));
                lemma_depicts_kept(g, h, p, slot(payloads, key)[0], c);
                assert(below(h, id, slot(payloads, key)[0], c));
            },
            _ => {},
        }
    }
}

/// A child that is appended stands for its tree, behind the nodes that there were, which stay.
proof fn lemma_child(c: NodeView, parent: SkillNodeId, name: Seq<char>, g: GraphView)
    requires
        well_named(c),
        parent.0 < g.nodes.len(),
        g.nodes.len() + size_node(c) <= node_limit(),
    ensures
        child_appended(c, parent, name, g) matches Ok(h) ==> linked(g, h, parent, name, c, false),
        payload_appended(c, parent, name, g) matches Ok(h) ==> linked(g, h, parent, name, c, true),
    decreases size_node(c), 1nat,
{
    law_graphs_depict_trees(c, g);
    law_added_nodes_are_named(c, g);
    match appended(c, g) {
        Ok((mid, x)) => {
            let h = child_pushed(mid, parent, name, x);
            assert(same_behind(mid, h, parent.0 as int));
            lemma_depicts_kept(mid, h, parent.0 as int, x, c);
            let q = payload_pushed(mid, parent, name, x);
            assert(same_behind(mid, q, parent.0 as int));
            lemma_depicts_kept(mid, q, parent.0 as int, x, c);
        },
        Err(_) => {},
    }
}

/// A graph with one more tree, linked into a slot of the parent.
spec fn linked(
    g: GraphView,
    h: GraphView,
    parent: SkillNodeId,
    name: Seq<char>,
    c: NodeView,
    payload: bool,
) -> bool {
    let p = parent.0 as int;
    let x = SkillNodeId(g.nodes.len() as u32);
    &&& grown(g, h, p)
    &&& g.nodes.len() < h.nodes.len() <= g.nodes.len() + size_node(c)
    &&& x.0 == g.nodes.len()
    &&& below(h, parent, x, c)
    &&& h.nodes[p].kind == g.nodes[p].kind
    &&& if payload {
        &&& h.nodes[p].children == g.nodes[p].children
        &&& h.nodes[p].payloads == slot_pushed(g.nodes[p].payloads, name, x)
    } else {
        &&& h.nodes[p].payloads == g.nodes[p].payloads
        &&& h.nodes[p].children == slot_pushed(g.nodes[p].children, name, x)
    }
}

/// The arguments of all actions in the tree have different names.
pub open spec fn well_named(n: NodeView) -> bool
    decreases size_node(n), 0nat,
{
    match n {
        NodeView::Sequence(l) => all_well_named(l, l.len()),
        NodeView::Parallel(l) => all_well_named(l, l.len()),
        NodeView::Delay(_, c) => well_named(*c),
        NodeView::Repeat { times, duration, interval, node } => well_named(*node),
        NodeView::If { condition, then_node, else_node } => well_named(*then_node)
            && match else_node {
            Some(c) => well_named(*c),
            None => true,
        },
        NodeView::Let(_, _, c) => well_named(*c),
        NodeView::On(_, c) => well_named(*c),
        NodeView::Action(_, t) => distinct(t) && args_well_named(t, t.len()),
        _ => true,
    }
}

pub open spec fn all_well_named(l: Seq<NodeView>, k: nat) -> bool
    decreases size_nodes(l, l.len()), k + 2,
{
    if 0 < k <= l.len() {
        proof {
            lemma_node_in_list(l, k - 1, l.len());
        }
        all_well_named(l, (k - 1) as nat) && well_named(l[k - 1])
    } else {
        true
    }
}

pub open spec fn args_well_named(t: ArgsView, k: nat) -> bool
    decreases size_args(t, t.len()), k + 2,
{
    if 0 < k <= t.len() {
        let (key, v) = t[k - 1];
        args_well_named(t, (k - 1) as nat) && match payload_node(key, v) {
            Ok(Some(c)) => {
                proof {
                    lemma_node_from_value_size(v);
                    lemma_value_in_args(t, k - 1, t.len());
                }
                well_named(c)
            },
            _ => true,
        }
    } else {
        true
    }
}

proof fn lemma_each_well_named(l: Seq<NodeView>, k: nat, i: int)
    requires
        all_well_named(l, k),
        0 <= i < k <= l.len(),
    ensures
        well_named(l[i]),
    decreases k,
{
    if i < k - 1 {
        lemma_each_well_named(l, (k - 1) as nat, i);
    }
}

proof fn lemma_each_arg_well_named(t: ArgsView, k: nat, i: int)
    requires
        args_well_named(t, k),
        0 <= i < k <= t.len(),
    ensures
        payload_node(t[i].0, t[i].1) matches Ok(Some(c)) ==> well_named(c),
    decreases k,
{
    if i < k - 1 {
        lemma_each_arg_well_named(t, (k - 1) as nat, i);
    }
}

proof fn lemma_children(
    l: Seq<NodeView>,
    k: nat,
    parent: SkillNodeId,
    name: Seq<char>,
    g: GraphView,
)
    requires
        k <= l.len(),
        all_well_named(l, l.len()),
        parent.0 < g.nodes.len(),
        g.nodes.len() + (size_nodes(l, l.len()) - size_nodes(l, k)) <= node_limit(),
        vacant(g.nodes[parent.0 as int].payloads),
        holds_many(g.nodes[parent.0 as int].children, name, k),
        all_depicted(g, parent, slot(g.nodes[parent.0 as int].children, name), l, k),
    ensures
        children_appended(l, k as int, parent, name, g) matches Ok(h) ==> {
            let x = h.nodes[parent.0 as int];
            &&& grown(g, h, parent.0 as int)
            &&& x.kind == g.nodes[parent.0 as int].kind
            &&& vacant(x.payloads)
            &&& holds_many(x.children, name, l.len())
            &&& all_depicted(h, parent, slot(x.children, name), l, l.len())
        },
    decreases size_nodes(l, l.len()), (l.len() - k + 2) as nat,
{
    if k < l.len() {
        lemma_sum_from(l, k as int);
        lemma_each_well_named(l, l.len(), k as int);
        lemma_child(l[k as int], parent, name, g);
        match child_appended(l[k as int], parent, name, g) {
            Ok(h) => {
                let p = parent.0 as int;
                let s = g.nodes[p].children;
                let t = h.nodes[p].children;
                let x = SkillNodeId(g.nodes.len() as u32);
                lemma_one_more_in_slot(s, name, k, x);
                lemma_all_kept(g, h, p, parent, slot(s, name), l, k);
                lemma_prefix_depicted(h, parent, slot(s, name), slot(t, name), l, k);
                assert(slot(t, name)[k as int] == x);
                assert(all_depicted(h, parent, slot(t, name), l, k + 1));
                lemma_children(l, k + 1, parent, name, h);
            },
            Err(_) => {},
        }
    }
}

proof fn lemma_one_more_in_slot(s: SlotsView, name: Seq<char>, k: nat, x: SkillNodeId)
    requires
        holds_many(s, name, k),
    ensures
        holds_many(slot_pushed(s, name, x), name, k + 1),
        slot(slot_pushed(s, name, x), name) == slot(s, name).push(x),
        slot(s, name).len() == k,
{
    if k > 0 {
        assert(s[0].0 == name);
        assert(has_key(s, name));
        let i = key_index(s, name);
        assert(0 <= i < s.len() && s[i].0 == name);
    } else {
        assert(!has_key(s, name));
    }
    let t = slot_pushed(s, name, x);
    assert(t[0].0 == name);
    assert(has_key(t, name));
    let j = key_index(t, name);
    assert(0 <= j < t.len() && t[j].0 == name);
}

proof fn lemma_prefix_depicted(
    g: GraphView,
    id: SkillNodeId,
    a: Seq<SkillNodeId>,
    b: Seq<SkillNodeId>,
    l: Seq<NodeView>,
    k: nat,
)
    requires
        k <= l.len(),
        all_depicted(g, id, a, l, k),
        a.len() <= b.len(),
        forall|i: int| 0 <= i < a.len() ==> #[trigger] b[i] == a[i],
    ensures
        all_depicted(g, id, b, l, k),
    decreases k,
{
    if k > 0 {
        lemma_prefix_depicted(g, id, a, b, l, (k - 1) as nat);
        assert(b[k - 1] == a[k - 1]);
    }
}

/// No argument from the `k`-th on has a slot or a place among the gathered ones yet.
spec fn still_free(t: ArgsView, k: int, payloads: SlotsView, gathered: ArgsView) -> bool {
    forall|i: int|
        k <= i < t.len() ==> !has_key(payloads, (#[trigger] t[i]).0) && !has_key(gathered, t[i].0)
}

proof fn lemma_args(
    t: ArgsView,
    k: nat,
    parent: SkillNodeId,
    gathered: ArgsView,
    g: GraphView,
)
    requires
        k <= t.len(),
        distinct(t),
        args_well_named(t, t.len()),
        distinct(gathered),
        distinct(g.nodes[parent.0 as int].payloads),
        parent.0 < g.nodes.len(),
        g.nodes.len() + (size_args(t, t.len()) - size_args(t, k)) <= node_limit(),
        vacant(g.nodes[parent.0 as int].children),
        still_free(t, k as int, g.nodes[parent.0 as int].payloads, gathered),
        args_depicted(g, parent, g.nodes[parent.0 as int].payloads, gathered, t, k),
    ensures
        args_appended(t, k as int, parent, gathered, g) matches Ok((h, args)) ==> {
            let x = h.nodes[parent.0 as int];
            &&& grown(g, h, parent.0 as int)
            &&& vacant(x.children)
            &&& args_depicted(h, parent, x.payloads, args, t, t.len())
        },
    decreases size_args(t, t.len()), (t.len() - k + 2) as nat,
{
    if k < t.len() {
        let p = parent.0 as int;
        let (key, v) = t[k as int];
        lemma_args_sum_from(t, k as int);
        lemma_value_in_args(t, k as int, t.len());
        lemma_node_from_value_size(v);
        lemma_each_arg_well_named(t, t.len(), k as int);
        assert(!has_key(g.nodes[p].payloads, t[k as int].0));
        match payload_node(key, v) {
            Ok(Some(c)) => {
                lemma_child(c, parent, key, g);
                match payload_appended(c, parent, key, g) {
                    Ok(h) => {
                        let s = g.nodes[p].payloads;
                        let u = h.nodes[p].payloads;
                        let x = SkillNodeId(g.nodes.len() as u32);
                        let l = slot(s, key).push(x);
                        crate::table::lemma_distinct(s, key, l);
                        law_put_then_lookup(s, key, l, key);
                        assert(slot(s, key) =~= Seq::empty());
                        assert(slot(u, key)[0] == x);
                        lemma_args_kept(g, h, p, parent, s, gathered, t, k);
                        lemma_other_slots(h, parent, s, u, gathered, gathered, t, k, key);
                        assert forall|i: int| k + 1 <= i < t.len() implies !has_key(
                            u,
                            (#[trigger] t[i]).0,
                        ) && !has_key(gathered, t[i].0) by {
                            assert(t[i].0 != key);
                            assert(!has_key(s, t[i].0));
                            law_put_then_lookup(s, key, l, t[i].0);
                        }
                        assert(args_depicted(h, parent, u, gathered, t, k + 1));
                        lemma_args(t, k + 1, parent, gathered, h);
                    },
                    Err(_) => {},
                }
            },
            Ok(None) => {
                match graph_value(v) {
                    Ok(w) => {
                        let s = g.nodes[p].payloads;
                        let more = put(gathered, key, w);
                        crate::table::lemma_distinct(gathered, key, w);
                        law_put_then_lookup(gathered, key, w, key);
                        lemma_other_slots(g, parent, s, s, gathered, more, t, k, key);
                        assert forall|i: int| k + 1 <= i < t.len() implies !has_key(
                            s,
                            (#[trigger] t[i]).0,
                        ) && !has_key(more, t[i].0) by {
                            assert(t[i].0 != key);
                            assert(!has_key(gathered, t[i].0));
                            law_put_then_lookup(gathered, key, w, t[i].0);
                        }
                        assert(args_depicted(g, parent, s, more, t, k + 1));
                        lemma_args(t, k + 1, parent, more, g);
                    },
                    Err(_) => {},
                }
            },
            Err(_) => {},
        }
    }
}

/// What is depicted of the first arguments does not depend on one with another name.
proof fn lemma_other_slots(
    g: GraphView,
    id: SkillNodeId,
    s: SlotsView,
    u: SlotsView,
    a: ArgsView,
    b: ArgsView,
    t: ArgsView,
    k: nat,
    key: Seq<char>,
)
    requires
        k < t.len(),
        distinct(t),
        distinct(s),
        distinct(a),
        t[k as int].0 == key,
        u == s || exists|l: Seq<SkillNodeId>| u == #[trigger] put(s, key, l),
        b == a || exists|w: ValueView| b == #[trigger] put(a, key, w),
        args_depicted(g, id, s, a, t, k),
    ensures
        args_depicted(g, id, u, b, t, k),
{
    lemma_other_slots_from(g, id, s, u, a, b, t, k, k, key);
}

proof fn lemma_other_slots_from(
    g: GraphView,
    id: SkillNodeId,
    s: SlotsView,
    u: SlotsView,
    a: ArgsView,
    b: ArgsView,
    t: ArgsView,
    at: nat,
    k: nat,
    key: Seq<char>,
)
    requires
        k <= at < t.len(),
        distinct(t),
        distinct(s),
        distinct(a),
        t[at as int].0 == key,
        u == s || exists|l: Seq<SkillNodeId>| u == #[trigger] put(s, key, l),
        b == a || exists|w: ValueView| b == #[trigger] put(a, key, w),
        args_depicted(g, id, s, a, t, k),
    ensures
        args_depicted(g, id, u, b, t, k),
    decreases k,
{
    if k > 0 {
        lemma_other_slots_from(g, id, s, u, a, b, t, at, (k - 1) as nat, key);
        let name = t[k - 1].0;
        assert(name != key);
        if u != s {
            let l = choose|l: Seq<SkillNodeId>| u == #[trigger] put(s, key, l);
            law_put_then_lookup(s, key, l, name);
        }
        if b != a {
            let w = choose|w: ValueView| b == #[trigger] put(a, key, w);
            law_put_then_lookup(a, key, w, name);
        }
    }
}

/// The law of graphs: a syntax tree that is appended to a graph is depicted by the node that it gives
/// and by what that node refers to: every node with its kind and its settings, every child under the
/// name of its place and in its order, and every argument that stands for a node as a payload under
/// its name.
#[verifier::rlimit(60)]
pub proof fn law_graphs_depict_trees(n: NodeView, g: GraphView)
    requires
        well_named(n),
        g.nodes.len() + size_node(n) <= node_limit(),
    ensures
        appended(n, g) matches Ok((h, id)) ==> depicts(h, id, n),
    decreases size_node(n), 0nat,
{
    let id = next_id(g);
    let at = g.nodes.len() as int;
    assert(size_node(n) > 0);
    assert(id.0 == at);
    match n {
        NodeView::Sequence(l) => {
            let start = node_added(g, KindView::Sequence);
            assert(slot(start.nodes[at].children, "items"@).len() == 0);
            lemma_children(l, 0, id, "items"@, start);
        },
        NodeView::Parallel(l) => {
            let start = node_added(g, KindView::Parallel);
            lemma_children(l, 0, id, "branches"@, start);
        },
        NodeView::Delay(seconds, c) => {
            let start = node_added(g, KindView::Delay { seconds });
            lemma_child(*c, id, "then"@, start);
            lemma_one_more_in_slot(
                start.nodes[at].children,
                "then"@,
                0,
                SkillNodeId(start.nodes.len() as u32),
            );
        },
        NodeView::Repeat { times, duration, interval, node } => {
            let start = node_added(g, KindView::Repeat { times, duration, interval });
            lemma_child(*node, id, "body"@, start);
            lemma_one_more_in_slot(
                start.nodes[at].children,
                "body"@,
                0,
                SkillNodeId(start.nodes.len() as u32),
            );
        },
        NodeView::If { condition, then_node, else_node } => {
            let start = node_added(g, KindView::If { condition });
            lemma_child(*then_node, id, "then"@, start);
            lemma_one_more_in_slot(
                start.nodes[at].children,
                "then"@,
                0,
                SkillNodeId(start.nodes.len() as u32),
            );
            match (child_appended(*then_node, id, "then"@, start), else_node) {
                (Ok(g2), Some(c)) => {
                    lemma_child(*c, id, "else"@, g2);
                    match child_appended(*c, id, "else"@, g2) {
                        Ok(h) => {
                            let s = g2.nodes[at].children;
                            assert(s[0].0 == "then"@);
                            lemma_then_else();
                            assert(!has_key(s, "else"@));
                            assert(slot(s, "else"@) =~= Seq::empty());
                            assert(same_behind(g2, h, at));
                            lemma_depicts_kept(g2, h, at, s[0].1[0], *then_node);
                        },
                        Err(_) => {},
                    }
                },
                _ => {},
            }
        },
        NodeView::Let(name, v, c) => {
            let start = node_added(g, KindView::SetSkillVar { name, value: v });
            lemma_child(*c, id, "then"@, start);
            lemma_one_more_in_slot(
                start.nodes[at].children,
                "then"@,
                0,
                SkillNodeId(start.nodes.len() as u32),
            );
        },
        NodeView::On(event, c) => {
            let start = node_added(g, KindView::WaitEvent { event });
            lemma_child(*c, id, event, start);
            lemma_one_more_in_slot(
                start.nodes[at].payloads,
                event,
                0,
                SkillNodeId(start.nodes.len() as u32),
            );
        },
        NodeView::Action(constructor, t) => {
            let start = node_added(g, KindView::Extension { constructor, args: Seq::empty() });
            lemma_args(t, 0, id, Seq::empty(), start);
            match args_appended(t, 0, id, Seq::empty(), start) {
                Ok((h, args)) => {
                    let after = kind_replaced(h, id, KindView::Extension { constructor, args });
                    law_added_nodes_are_named(n, g);
                    lemma_id_kept(t, 0, id, Seq::empty(), start);
                    assert(has_node(h, id));
                    assert(same_behind(h, after, at));
                    lemma_args_kept(
                        h,
                        after,
                        at,
                        id,
                        h.nodes[at].payloads,
                        args,
                        t,
                        t.len(),
                    );
                },
                Err(_) => {},
            }
        },
        _ => {},
    }
}

proof fn lemma_then_else()
    ensures
        "then"@ != "else"@,
{
    reveal_strlit("then");
    reveal_strlit("else");
    assert("then"@[0] != "else"@[0]);
}

/// The parent of arguments keeps its number.
proof fn lemma_id_kept(
    t: ArgsView,
    k: int,
    parent: SkillNodeId,
    gathered: ArgsView,
    g: GraphView,
)
    requires
        0 <= k <= t.len(),
        parent.0 < g.nodes.len(),
        g.nodes.len() + (size_args(t, t.len()) - size_args(t, k as nat)) <= node_limit(),
    ensures
        args_appended(t, k, parent, gathered, g) matches Ok((h, _)) ==> h.nodes.len()
            >= g.nodes.len() && h.nodes[parent.0 as int].id == g.nodes[parent.0 as int].id,
    decreases t.len() - k,
{
    if k < t.len() {
        let (key, v) = t[k];
        lemma_args_sum_from(t, k);
        lemma_node_from_value_size(v);
        match payload_node(key, v) {
            Ok(Some(c)) => {
                law_added_nodes_are_named(c, g);
                match payload_appended(c, parent, key, g) {
                    Ok(h) => lemma_id_kept(t, k + 1, parent, gathered, h),
                    Err(_) => {},
                }
            },
            Ok(None) => match graph_value(v) {
                Ok(w) => lemma_id_kept(t, k + 1, parent, put(gathered, key, w), g),
                Err(_) => {},
            },
            Err(_) => {},
        }
    }
}

/// The law of the world: the node of a graph is brought into the world with its own entity and
/// exactly the component of its kind, with all its settings, and with the entities of its children
/// and payloads.
pub proof fn law_nodes_in_the_world(nodes: Seq<GraphNodeView>, entities: Seq<u64>, i: int)
    requires
        0 <= i < nodes.len(),
    ensures
        ({
            let r = materialized(nodes, entities)[i];
            &&& materialized(nodes, entities).len() == nodes.len()
            &&& r.entity == entities[i]
            &&& match nodes[i].kind {
                KindView::Sequence => r.components == (ComponentsView { sequence: true, ..bare() }),
                KindView::Parallel => r.components == (ComponentsView { parallel: true, ..bare() }),
                KindView::Delay { seconds } => r.components == (ComponentsView {
                    delay: Some(seconds),
                    ..bare()
                }),
                KindView::Repeat { times, duration, interval } => r.components == (ComponentsView {
                    repeat: Some(RepeatView { times, duration, interval }),
                    ..bare()
                }),
                KindView::If { condition } => r.components == (ComponentsView {
                    if_node: Some(condition),
                    ..bare()
                }),
                KindView::WaitEvent { event } => r.components == (ComponentsView {
                    wait_event: Some(event),
                    ..bare()
                }),
                KindView::EmitSkillEvent { event, payload } => r.components == (ComponentsView {
                    emit: Some(EmitView { event, payload }),
                    ..bare()
                }),
                KindView::SetSkillVar { name, value } => r.components == (ComponentsView {
                    set_var: Some(SetVarView { name, value }),
                    ..bare()
                }),
                KindView::WithSkillContext => r.components == (ComponentsView {
                    with_context: true,
                    ..bare()
                }),
                KindView::Extension { constructor, args } => r.components == (ComponentsView {
                    extension: Some(ExtensionView { constructor, args }),
                    ..bare()
                }),
            }
            &&& r.children.len() == crate::graph::flat(nodes[i].children).len()
            &&& forall|j: int|
                0 <= j < r.children.len() ==> #[trigger] r.children[j] == entities[crate::graph::flat(
                    nodes[i].children,
                )[j].0 as int]
        }),
{
}

/// The law of compiling: the graph of a skill depicts the body that was compiled, from its root.
pub proof fn law_compiled_graphs_depict(
    id: Seq<char>,
    tags: Seq<Seq<char>>,
    params: ArgsView,
    root: NodeView,
)
    requires
        well_named(root),
        size_node(root) <= node_limit(),
    ensures
        graph_from(id, tags, params, root) matches Ok(g) ==> g.root is Some && depicts(
            g,
            g.root->0,
            root,
        ) && g.id == id && g.tags == tags && g.params == params,
{
    match graph_args(params) {
        Ok(p) => {
            let start = GraphView { id, tags, params: p, root: None, nodes: Seq::empty() };
            law_graphs_depict_trees(root, start);
            crate::link_laws::lemma_fields(root, start);
            match appended(root, start) {
                Ok((g, root_id)) => {
                    let whole = GraphView { root: Some(root_id), ..g };
                    assert(same_behind(g, whole, -1));
                    lemma_depicts_kept(g, whole, -1, root_id, root);
                },
                Err(_) => {},
            }
        },
        Err(_) => {},
    }
}

} // verus!
