//! Skill graphs.
use crate::context::SkillTags;
use crate::error::{SkillGraphError, SkillNodeId};
use crate::keys::{copy_keys, key_list, no_keys};
use crate::table::{distinct, has_key, key_index, lemma_found, lookup, put, KeyedMap};
use crate::value::{
    args_view, copy_args, copy_expr, copy_value, expr_view, no_args, ArgsView, SkillExpr, SkillId,
    SkillParams, SkillValue, ValueView,
};
use vstd::prelude::*;

verus! {

/// What a graph node does.
#[derive(Debug)]
pub enum SkillGraphNodeKind {
    Sequence,
    Parallel,
    Delay { seconds: SkillExpr },
    Repeat {
        times: Option<SkillExpr>,
        duration: Option<SkillExpr>,
        interval: Option<SkillExpr>,
    },
    If { condition: SkillExpr },
    WaitEvent { event: String },
    EmitSkillEvent { event: String, payload: SkillParams },
    SetSkillVar { name: String, value: SkillValue },
    WithSkillContext,
    Extension { constructor: String, args: SkillParams },
}

pub enum KindView {
    Sequence,
    Parallel,
    Delay { seconds: Seq<char> },
    Repeat {
        times: Option<Seq<char>>,
        duration: Option<Seq<char>>,
        interval: Option<Seq<char>>,
    },
    If { condition: Seq<char> },
    WaitEvent { event: Seq<char> },
    EmitSkillEvent { event: Seq<char>, payload: ArgsView },
    SetSkillVar { name: Seq<char>, value: ValueView },
    WithSkillContext,
    Extension { constructor: Seq<char>, args: ArgsView },
}

impl SkillGraphNodeKind {
    pub open spec fn view(&self) -> KindView {
        match self {
            SkillGraphNodeKind::Sequence => KindView::Sequence,
            SkillGraphNodeKind::Parallel => KindView::Parallel,
            SkillGraphNodeKind::Delay { seconds } => KindView::Delay { seconds: seconds@ },
            SkillGraphNodeKind::Repeat { times, duration, interval } => KindView::Repeat {
                times: expr_view(*times),
                duration: expr_view(*duration),
                interval: expr_view(*interval),
            },
            SkillGraphNodeKind::If { condition } => KindView::If { condition: condition@ },
            SkillGraphNodeKind::WaitEvent { event } => KindView::WaitEvent { event: event@ },
            SkillGraphNodeKind::EmitSkillEvent { event, payload } => KindView::EmitSkillEvent {
                event: event@,
                payload: args_view(*payload),
            },
            SkillGraphNodeKind::SetSkillVar { name, value } => KindView::SetSkillVar {
                name: name@,
                value: value@,
            },
            SkillGraphNodeKind::WithSkillContext => KindView::WithSkillContext,
            SkillGraphNodeKind::Extension { constructor, args } => KindView::Extension {
                constructor: constructor@,
                args: args_view(*args),
            },
        }
    }
}

impl Clone for SkillGraphNodeKind {
    fn clone(&self) -> (r: SkillGraphNodeKind)
        ensures
            r@ == self@,
    {
        match self {
            SkillGraphNodeKind::Sequence => SkillGraphNodeKind::Sequence,
            SkillGraphNodeKind::Parallel => SkillGraphNodeKind::Parallel,
            SkillGraphNodeKind::Delay { seconds } => SkillGraphNodeKind::Delay {
                seconds: seconds.clone(),
            },
            SkillGraphNodeKind::Repeat { times, duration, interval } => {
                SkillGraphNodeKind::Repeat {
                    times: copy_expr(times),
                    duration: copy_expr(duration),
                    interval: copy_expr(interval),
                }
            },
            SkillGraphNodeKind::If { condition } => SkillGraphNodeKind::If {
                condition: condition.clone(),
            },
            SkillGraphNodeKind::WaitEvent { event } => SkillGraphNodeKind::WaitEvent {
                event: event.clone(),
            },
            SkillGraphNodeKind::EmitSkillEvent { event, payload } => {
                SkillGraphNodeKind::EmitSkillEvent {
                    event: event.clone(),
                    payload: copy_args(payload),
                }
            },
            SkillGraphNodeKind::SetSkillVar { name, value } => SkillGraphNodeKind::SetSkillVar {
                name: name.clone(),
                value: copy_value(value),
            },
            SkillGraphNodeKind::WithSkillContext => SkillGraphNodeKind::WithSkillContext,
            SkillGraphNodeKind::Extension { constructor, args } => SkillGraphNodeKind::Extension {
                constructor: constructor.clone(),
                args: copy_args(args),
            },
        }
    }
}

/// What stands in the slots of a node.
pub type SlotsView = Seq<(Seq<char>, Seq<SkillNodeId>)>;

/// The entries of a table of slots.
pub open spec fn slots_view(m: KeyedMap<Vec<SkillNodeId>>) -> SlotsView {
    Seq::new(m.vals().len(), |i: int| (m.names()[i], m.vals()[i]@))
}

/// What stands in one slot.
pub open spec fn slot(s: SlotsView, name: Seq<char>) -> Seq<SkillNodeId> {
    match lookup(s, name) {
        Some(l) => l,
        None => Seq::empty(),
    }
}

/// The slots with one more node at the end of the named slot.
pub open spec fn slot_pushed(s: SlotsView, name: Seq<char>, child: SkillNodeId) -> SlotsView {
    put(s, name, slot(s, name).push(child))
}

/// All nodes in all slots, in order.
pub open spec fn flat(s: SlotsView) -> Seq<SkillNodeId>
    decreases s.len(),
{
    if s.len() == 0 {
        Seq::empty()
    } else {
        flat(s.drop_last()) + s.last().1
    }
}

proof fn lemma_slots(m: KeyedMap<Vec<SkillNodeId>>, name: Seq<char>)
    requires
        distinct(m@),
    ensures
        distinct(slots_view(m)),
        has_key(slots_view(m), name) == has_key(m@, name),
        has_key(m@, name) ==> key_index(slots_view(m), name) == key_index(m@, name)
            && 0 <= key_index(m@, name) < m@.len(),
{
    assert forall|i: int, j: int|
        0 <= i < slots_view(m).len() && 0 <= j < slots_view(m).len() && (#[trigger] slots_view(
            m,
        )[i]).0 == (#[trigger] slots_view(m)[j]).0 implies i == j by {
        assert(m@[i].0 == m@[j].0);
    }
    if has_key(m@, name) {
        let i = key_index(m@, name);
        assert(0 <= i < m@.len() && m@[i].0 == name);
        assert(slots_view(m)[i].0 == name);
        lemma_found(slots_view(m), i);
    }
    if has_key(slots_view(m), name) {
        let i = key_index(slots_view(m), name);
        assert(slots_view(m)[i].0 == name);
        assert(m@[i].0 == name);
    }
}

fn copy_ids(l: &Vec<SkillNodeId>) -> (r: Vec<SkillNodeId>)
    ensures
        r@ == l@,
{
    let mut out: Vec<SkillNodeId> = Vec::new();
    let n: usize = l.len();
    let mut i: usize = 0;
    while i < n
        invariant
            i <= n,
            n == l@.len(),
            out@ == l@.subrange(0, i as int),
        decreases n - i,
    {
        out.push(l[i]);
        i = i + 1;
        assert(out@ =~= l@.subrange(0, i as int));
    }
    assert(out@ =~= l@);
    out
}

fn copy_slots(m: &KeyedMap<Vec<SkillNodeId>>) -> (r: KeyedMap<Vec<SkillNodeId>>)
    ensures
        slots_view(r) == slots_view(*m),
{
    let mut out: Vec<Vec<SkillNodeId>> = Vec::new();
    let n: usize = m.len();
    let mut i: usize = 0;
    while i < n
        invariant
            i <= n,
            n == m@.len(),
            out@.len() == i,
            forall|j: int| 0 <= j < i ==> (#[trigger] out@[j])@ == m.vals()[j]@,
        decreases n - i,
    {
        out.push(copy_ids(m.value(i)));
        i = i + 1;
    }
    let r = m.rebuilt(out);
    assert(slots_view(r) =~= slots_view(*m));
    r
}

/// The nodes in a slot.
pub fn slot_nodes(m: &KeyedMap<Vec<SkillNodeId>>, name: &str) -> (r: Vec<SkillNodeId>)
    ensures
        r@ == slot(slots_view(*m), name@),
{
    let found = m.get(name);
    proof {
        lemma_slots(*m, name@);
    }
    match found {
        Some(l) => copy_ids(l),
        None => Vec::new(),
    }
}

fn push_slot(m: &mut KeyedMap<Vec<SkillNodeId>>, name: String, child: SkillNodeId)
    ensures
        slots_view(*final(m)) == slot_pushed(slots_view(*old(m)), name@, child),
{
    let ghost before = *m;
    let mut l: Vec<SkillNodeId> = slot_nodes(m, name.as_str());
    l.push(child);
    let ghost list = l;
    let _ = m.insert(name, l);
    proof {
        lemma_slots(before, name@);
        lemma_slots_put(before, *m, name@, list);
    }
}

proof fn lemma_slots_put(
    before: KeyedMap<Vec<SkillNodeId>>,
    now: KeyedMap<Vec<SkillNodeId>>,
    name: Seq<char>,
    list: Vec<SkillNodeId>,
)
    requires
        distinct(before@),
        now@ == put(before@, name, list),
    ensures
        slots_view(now) == put(slots_view(before), name, list@),
{
    lemma_slots(before, name);
    let t = put(slots_view(before), name, list@);
    assert(slots_view(now).len() == now@.len());
    assert(slots_view(before).len() == before@.len());
    assert(t.len() == now@.len());
    assert forall|i: int| 0 <= i < now@.len() implies #[trigger] slots_view(now)[i] == t[i] by {
        assert(slots_view(now)[i] == (now@[i].0, now@[i].1@));
        if i < before@.len() {
            assert(slots_view(before)[i] == (before@[i].0, before@[i].1@));
        }
    }
    assert(slots_view(now) =~= t);
}

/// A node of a skill graph with the nodes in its slots.
#[derive(Debug)]
pub struct SkillGraphNode {
    pub id: SkillNodeId,
    pub kind: SkillGraphNodeKind,
    pub children: KeyedMap<Vec<SkillNodeId>>,
    pub payloads: KeyedMap<Vec<SkillNodeId>>,
}

pub struct GraphNodeView {
    pub id: SkillNodeId,
    pub kind: KindView,
    pub children: SlotsView,
    pub payloads: SlotsView,
}

/// A node with empty slots.
pub open spec fn bare_node(id: SkillNodeId, kind: KindView) -> GraphNodeView {
    GraphNodeView { id, kind, children: Seq::empty(), payloads: Seq::empty() }
}

impl SkillGraphNode {
    pub open spec fn view(&self) -> GraphNodeView {
        GraphNodeView {
            id: self.id,
            kind: self.kind@,
            children: slots_view(self.children),
            payloads: slots_view(self.payloads),
        }
    }

    pub fn new(id: SkillNodeId, kind: SkillGraphNodeKind) -> (r: SkillGraphNode)
        ensures
            r@ == bare_node(id, kind@),
            r.id == id,
    {
        let r = SkillGraphNode { id, kind, children: KeyedMap::new(), payloads: KeyedMap::new() };
        assert(slots_view(r.children) =~= Seq::empty());
        assert(slots_view(r.payloads) =~= Seq::empty());
        r
    }
}

impl Clone for SkillGraphNode {
    fn clone(&self) -> (r: SkillGraphNode)
        ensures
            r@ == self@,
    {
        SkillGraphNode {
            id: self.id,
            kind: self.kind.clone(),
            children: copy_slots(&self.children),
            payloads: copy_slots(&self.payloads),
        }
    }
}

/// A compiled skill as a graph of nodes.
#[derive(Debug)]
pub struct SkillGraph {
    pub id: SkillId,
    pub tags: SkillTags,
    pub params: SkillParams,
    pub root: Option<SkillNodeId>,
    pub nodes: Vec<SkillGraphNode>,
}

pub struct GraphView {
    pub id: Seq<char>,
    pub tags: Seq<Seq<char>>,
    pub params: ArgsView,
    pub root: Option<SkillNodeId>,
    pub nodes: Seq<GraphNodeView>,
}

/// The contents of a list of graph nodes.
pub open spec fn graph_nodes_view(s: Seq<SkillGraphNode>) -> Seq<GraphNodeView> {
    Seq::new(s.len(), |i: int| s[i]@)
}

/// The graph has a node with this number.
pub open spec fn has_node(g: GraphView, id: SkillNodeId) -> bool {
    id.0 < g.nodes.len() && g.nodes[id.0 as int].id == id
}

/// The graph with one more node, numbered by its place.
pub open spec fn node_added(g: GraphView, kind: KindView) -> GraphView {
    GraphView {
        nodes: g.nodes.push(bare_node(SkillNodeId(g.nodes.len() as u32), kind)),
        ..g
    }
}

/// The graph with another node in a place.
pub open spec fn node_replaced(g: GraphView, id: SkillNodeId, node: GraphNodeView) -> GraphView {
    GraphView { nodes: g.nodes.update(id.0 as int, node), ..g }
}

/// The graph with `child` at the end of a child slot of `parent`.
pub open spec fn child_pushed(
    g: GraphView,
    parent: SkillNodeId,
    name: Seq<char>,
    child: SkillNodeId,
) -> GraphView {
    let node = g.nodes[parent.0 as int];
    node_replaced(
        g,
        parent,
        GraphNodeView { children: slot_pushed(node.children, name, child), ..node },
    )
}

/// The graph with `child` at the end of a payload slot of `parent`.
pub open spec fn payload_pushed(
    g: GraphView,
    parent: SkillNodeId,
    name: Seq<char>,
    child: SkillNodeId,
) -> GraphView {
    let node = g.nodes[parent.0 as int];
    node_replaced(
        g,
        parent,
        GraphNodeView { payloads: slot_pushed(node.payloads, name, child), ..node },
    )
}

/// The first of two nodes that the graph does not have.
pub open spec fn missing_of(g: GraphView, a: SkillNodeId, b: SkillNodeId) -> Option<
    SkillGraphError,
> {
    if !has_node(g, a) {
        Some(SkillGraphError::MissingNode(a))
    } else if !has_node(g, b) {
        Some(SkillGraphError::MissingNode(b))
    } else {
        None
    }
}

impl SkillGraph {
    pub open spec fn view(&self) -> GraphView {
        GraphView {
            id: self.id@,
            tags: key_list(self.tags),
            params: args_view(self.params),
            root: self.root,
            nodes: graph_nodes_view(self.nodes@),
        }
    }

    /// A graph without nodes.
    pub fn new(id: SkillId) -> (r: SkillGraph)
        ensures
            r@ == (GraphView {
                id: id@,
                tags: Seq::empty(),
                params: Seq::empty(),
                root: None,
                nodes: Seq::empty(),
            }),
    {
        let r = SkillGraph {
            id,
            tags: no_keys(),
            params: no_args(),
            root: None,
            nodes: Vec::new(),
        };
        assert(graph_nodes_view(r.nodes@) =~= Seq::empty());
        r
    }

    /// Adds a node, numbered by its place.
    pub fn add_node(&mut self, kind: SkillGraphNodeKind) -> (r: SkillNodeId)
        ensures
            final(self)@ == node_added(old(self)@, kind@),
            r == SkillNodeId(old(self)@.nodes.len() as u32),
            final(self).id == old(self).id,
            final(self).tags == old(self).tags,
            final(self).params == old(self).params,
    {
        let id = SkillNodeId(#[verifier::truncate] (self.nodes.len() as u32));
        self.nodes.push(SkillGraphNode::new(id, kind));
        assert(graph_nodes_view(self.nodes@) =~= graph_nodes_view(old(self).nodes@).push(
            bare_node(id, kind@),
        ));
        id
    }

    /// The node with a number.
    pub fn node(&self, id: SkillNodeId) -> (r: Option<&SkillGraphNode>)
        ensures
            match r {
                Some(n) => has_node(self@, id) && n@ == self@.nodes[id.0 as int] && *n
                    == self.nodes@[id.0 as int],
                None => !has_node(self@, id),
            },
    {
        let i: usize = id.0 as usize;
        if i < self.nodes.len() && self.nodes[i].id == id {
            Some(&self.nodes[i])
        } else {
            None
        }
    }

    /// The node with a number, to be changed.
    pub fn node_mut(&mut self, id: SkillNodeId) -> (r: Option<&mut SkillGraphNode>)
        ensures
            match r {
                Some(n) => has_node(old(self)@, id) && n@ == old(self)@.nodes[id.0 as int]
                    && final(self)@.nodes =~= old(self)@.nodes.update(id.0 as int, final(n)@)
                    && final(self)@ == node_replaced(old(self)@, id, final(n)@),
                None => !has_node(old(self)@, id) && *final(self) == *old(self),
            },
    {
        let i: usize = id.0 as usize;
        if i < self.nodes.len() && self.nodes[i].id == id {
            Some(&mut self.nodes[i])
        } else {
            None
        }
    }

    /// Makes a node the root.
    pub fn set_root(&mut self, id: SkillNodeId)
        ensures
            final(self)@ == (GraphView { root: Some(id), ..old(self)@ }),
    {
        self.root = Some(id);
    }

    fn ensure_node(&self, id: SkillNodeId) -> (r: Result<(), SkillGraphError>)
        ensures
            r == if has_node(self@, id) {
                Ok::<(), SkillGraphError>(())
            } else {
                Err(SkillGraphError::MissingNode(id))
            },
    {
        match self.node(id) {
            Some(_) => Ok(()),
            None => Err(SkillGraphError::MissingNode(id)),
        }
    }

    /// Puts `child` at the end of a child slot of `parent`.
    pub fn push_child(&mut self, parent: SkillNodeId, slot: String, child: SkillNodeId) -> (r:
        Result<(), SkillGraphError>)
        ensures
            match missing_of(old(self)@, parent, child) {
                Some(e) => r == Err::<(), SkillGraphError>(e) && *final(self) == *old(self),
                None => r is Ok && final(self)@ == child_pushed(
                    old(self)@,
                    parent,
                    slot@,
                    child,
                ),
            },
    {
        match self.ensure_node(parent) {
            Ok(_) => {},
            Err(e) => return Err(e),
        }
        match self.ensure_node(child) {
            Ok(_) => {},
            Err(e) => return Err(e),
        }
        let i: usize = parent.0 as usize;
        push_slot(&mut self.nodes[i].children, slot, child);
        assert(graph_nodes_view(self.nodes@) =~= child_pushed(
            old(self)@,
            parent,
            slot@,
            child,
        ).nodes);
        Ok(())
    }

    /// Puts `child` at the end of a payload slot of `parent`.
    pub fn push_payload(&mut self, parent: SkillNodeId, slot: String, child: SkillNodeId) -> (r:
        Result<(), SkillGraphError>)
        ensures
            match missing_of(old(self)@, parent, child) {
                Some(e) => r == Err::<(), SkillGraphError>(e) && *final(self) == *old(self),
                None => r is Ok && final(self)@ == payload_pushed(
                    old(self)@,
                    parent,
                    slot@,
                    child,
                ),
            },
    {
        match self.ensure_node(parent) {
            Ok(_) => {},
            Err(e) => return Err(e),
        }
        match self.ensure_node(child) {
            Ok(_) => {},
            Err(e) => return Err(e),
        }
        let i: usize = parent.0 as usize;
        push_slot(&mut self.nodes[i].payloads, slot, child);
        assert(graph_nodes_view(self.nodes@) =~= payload_pushed(
            old(self)@,
            parent,
            slot@,
            child,
        ).nodes);
        Ok(())
    }
}

/// A copy of a list of graph nodes.
fn copy_graph_nodes(l: &Vec<SkillGraphNode>) -> (r: Vec<SkillGraphNode>)
    ensures
        graph_nodes_view(r@) == graph_nodes_view(l@),
{
    let mut out: Vec<SkillGraphNode> = Vec::new();
    let n: usize = l.len();
    let mut i: usize = 0;
    while i < n
        invariant
            i <= n,
            n == l@.len(),
            out@.len() == i,
            forall|j: int| 0 <= j < i ==> (#[trigger] out@[j])@ == l@[j]@,
        decreases n - i,
    {
        out.push(l[i].clone());
        i = i + 1;
    }
    assert(graph_nodes_view(out@) =~= graph_nodes_view(l@));
    out
}

impl Clone for SkillGraph {
    fn clone(&self) -> (r: SkillGraph)
        ensures
            r@ == self@,
    {
        SkillGraph {
            id: self.id.clone(),
            tags: copy_keys(&self.tags),
            params: copy_args(&self.params),
            root: self.root,
            nodes: copy_graph_nodes(&self.nodes),
        }
    }
}

} // verus!
