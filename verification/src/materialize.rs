//! Bringing a skill graph into the world: one entity for each node.
use crate::cast::CompiledSkillRecord;
use crate::def::{copy_requirements, SkillCompiled};
use crate::error::SkillNodeId;
use crate::graph::{
    flat, has_node, slots_view, GraphNodeView, GraphView, KindView, SkillGraph, SkillGraphNodeKind,
    SlotsView,
};
use crate::keys::copy_keys;
use crate::node::{
    no_components, ComponentsView, Delay, EmitSkillEvent, EmitView, ExtensionView, If, Parallel,
    PlaceView, RecordView, Repeat, RepeatView, Sequence, SetSkillVar, SetVarView, SkillChildOf,
    SkillExtension, SkillNodeRecord, SkillPayloadOf, WaitEvent, WithSkillContext,
};
use crate::table::KeyedMap;
use crate::validate::{
    checked, complete, law_valid_graphs, lemma_targets_referred, references, targets,
};
use crate::value::{copy_args, copy_expr, copy_value};
use vstd::prelude::*;

verus! {

/// The components of a node of a kind.
pub open spec fn components_from(k: KindView) -> ComponentsView {
    let none = no_components();
    match k {
        KindView::Sequence => ComponentsView { sequence: true, ..none },
        KindView::Parallel => ComponentsView { parallel: true, ..none },
        KindView::Delay { seconds } => ComponentsView { delay: Some(seconds), ..none },
        KindView::Repeat { times, duration, interval } => ComponentsView {
            repeat: Some(RepeatView { times, duration, interval }),
            ..none
        },
        KindView::If { condition } => ComponentsView { if_node: Some(condition), ..none },
        KindView::WaitEvent { event } => ComponentsView { wait_event: Some(event), ..none },
        KindView::EmitSkillEvent { event, payload } => ComponentsView {
            emit: Some(EmitView { event, payload }),
            ..none
        },
        KindView::SetSkillVar { name, value } => ComponentsView {
            set_var: Some(SetVarView { name, value }),
            ..none
        },
        KindView::WithSkillContext => ComponentsView { with_context: true, ..none },
        KindView::Extension { constructor, args } => ComponentsView {
            extension: Some(ExtensionView { constructor, args }),
            ..none
        },
    }
}

/// The entities of nodes.
pub open spec fn entities_of(l: Seq<SkillNodeId>, entities: Seq<u64>) -> Seq<u64> {
    Seq::new(l.len(), |i: int| entities[l[i].0 as int])
}

/// Where nodes stand, by number.
pub type Places = Seq<Option<PlaceView>>;

/// The places after the first `k` nodes of a slot got theirs.
pub open spec fn list_placed(
    p: Places,
    parent: u64,
    slot: Seq<char>,
    l: Seq<SkillNodeId>,
    k: nat,
) -> Places
    decreases k,
{
    if 0 < k <= l.len() {
        list_placed(p, parent, slot, l, (k - 1) as nat).update(
            l[k - 1].0 as int,
            Some(PlaceView { parent, slot, order: (k - 1) as u32 }),
        )
    } else {
        p
    }
}

/// The places after the nodes of the first `k` slots got theirs.
pub open spec fn slots_placed(p: Places, parent: u64, s: SlotsView, k: nat) -> Places
    decreases k,
{
    if 0 < k <= s.len() {
        list_placed(
            slots_placed(p, parent, s, (k - 1) as nat),
            parent,
            s[k - 1].0,
            s[k - 1].1,
            s[k - 1].1.len(),
        )
    } else {
        p
    }
}

/// No node has a place.
pub open spec fn no_places(n: nat) -> Places {
    Seq::new(n, |i: int| None)
}

/// The places of children after those of the first `k` nodes got theirs.
pub open spec fn children_placed(nodes: Seq<GraphNodeView>, entities: Seq<u64>, k: nat) -> Places
    decreases k,
{
    if 0 < k <= nodes.len() {
        slots_placed(
            children_placed(nodes, entities, (k - 1) as nat),
            entities[k - 1],
            nodes[k - 1].children,
            nodes[k - 1].children.len(),
        )
    } else {
        no_places(nodes.len())
    }
}

/// The places of payloads after those of the first `k` nodes got theirs.
pub open spec fn payloads_placed(nodes: Seq<GraphNodeView>, entities: Seq<u64>, k: nat) -> Places
    decreases k,
{
    if 0 < k <= nodes.len() {
        slots_placed(
            payloads_placed(nodes, entities, (k - 1) as nat),
            entities[k - 1],
            nodes[k - 1].payloads,
            nodes[k - 1].payloads.len(),
        )
    } else {
        no_places(nodes.len())
    }
}

/// The records of the nodes of a graph.
pub open spec fn materialized(nodes: Seq<GraphNodeView>, entities: Seq<u64>) -> Seq<RecordView> {
    Seq::new(
        nodes.len(),
        |i: int|
            RecordView {
                entity: entities[i],
                components: components_from(nodes[i].kind),
                children: entities_of(flat(nodes[i].children), entities),
                child_of: children_placed(nodes, entities, nodes.len())[i],
                payloads: entities_of(flat(nodes[i].payloads), entities),
                payload_of: payloads_placed(nodes, entities, nodes.len())[i],
            },
    )
}

/// Slots refer to the first `n` nodes alone.
pub open spec fn slots_within(s: SlotsView, n: nat) -> bool {
    forall|i: int, j: int|
        0 <= i < s.len() && 0 <= j < s[i].1.len() ==> (#[trigger] s[i].1[j]).0 < n
}

/// All nodes refer to nodes of the graph alone.
pub open spec fn refers_within(nodes: Seq<GraphNodeView>) -> bool {
    forall|i: int|
        0 <= i < nodes.len() ==> slots_within((#[trigger] nodes[i]).children, nodes.len())
            && slots_within(nodes[i].payloads, nodes.len())
}

/// A place as it is kept.
struct Place {
    parent: u64,
    slot: String,
    order: u32,
}

spec fn place_content(p: Option<Place>) -> Option<PlaceView> {
    match p {
        Some(x) => Some(PlaceView { parent: x.parent, slot: x.slot@, order: x.order }),
        None => None,
    }
}

spec fn places_content(s: Seq<Option<Place>>) -> Places {
    Seq::new(s.len(), |i: int| place_content(s[i]))
}

fn place_slots(
    places: &mut Vec<Option<Place>>,
    parent: u64,
    slots: &KeyedMap<Vec<SkillNodeId>>,
)
    requires
        slots_within(slots_view(*slots), old(places)@.len()),
    ensures
        places_content(final(places)@) == slots_placed(
            places_content(old(places)@),
            parent,
            slots_view(*slots),
            slots_view(*slots).len(),
        ),
        final(places)@.len() == old(places)@.len(),
{
    let ghost s = slots_view(*slots);
    let ghost start = places_content(places@);
    let n: usize = slots.len();
    let mut i: usize = 0;
    while i < n
        invariant
            i <= n,
            n == slots@.len(),
            s == slots_view(*slots),
            places@.len() == start.len(),
            slots_within(s, places@.len()),
            places_content(places@) == slots_placed(start, parent, s, i as nat),
        decreases n - i,
    {
        let name = slots.key(i);
        let l = slots.value(i);
        assert(s[i as int] == (name@, l@));
        let ghost before = places_content(places@);
        let k: usize = l.len();
        let mut j: usize = 0;
        while j < k
            invariant
                j <= k,
                k == l@.len(),
                i < n,
                n == s.len(),
                s[i as int] == (name@, l@),
                places@.len() == before.len(),
                slots_within(s, places@.len()),
                places_content(places@) == list_placed(before, parent, name@, l@, j as nat),
            decreases k - j,
        {
            assert(s[i as int].1[j as int].0 < places@.len());
            let at: usize = l[j].0 as usize;
            let place = Place {
                parent,
                slot: name.clone(),
                order: #[verifier::truncate] (j as u32),
            };
            let ghost was = places@;
            places.set(at, Some(place));
            assert(places_content(places@) =~= places_content(was).update(
                at as int,
                place_content(Some(place)),
            ));
            j = j + 1;
        }
        i = i + 1;
    }
}

fn empty_places(n: usize) -> (r: Vec<Option<Place>>)
    ensures
        places_content(r@) == no_places(n as nat),
        r@.len() == n,
{
    let mut out: Vec<Option<Place>> = Vec::new();
    let mut i: usize = 0;
    while i < n
        invariant
            i <= n,
            out@.len() == i,
            forall|j: int| 0 <= j < i ==> (#[trigger] out@[j]) is None,
        decreases n - i,
    {
        out.push(None);
        i = i + 1;
    }
    assert(places_content(out@) =~= no_places(n as nat));
    out
}

fn entity_list(slots: &KeyedMap<Vec<SkillNodeId>>, entities: &Vec<u64>) -> (r: Vec<u64>)
    requires
        slots_within(slots_view(*slots), entities@.len()),
    ensures
        r@ == entities_of(flat(slots_view(*slots)), entities@),
{
    let ghost s = slots_view(*slots);
    let mut out: Vec<u64> = Vec::new();
    let n: usize = slots.len();
    let mut i: usize = 0;
    assert(out@ =~= entities_of(flat(s.subrange(0, 0)), entities@));
    while i < n
        invariant
            i <= n,
            n == slots@.len(),
            s == slots_view(*slots),
            slots_within(s, entities@.len()),
            out@ == entities_of(flat(s.subrange(0, i as int)), entities@),
        decreases n - i,
    {
        let l = slots.value(i);
        assert(s[i as int] == (slots@[i as int].0, l@));
        let ghost before = out@;
        let k: usize = l.len();
        let mut j: usize = 0;
        while j < k
            invariant
                j <= k,
                k == l@.len(),
                i < n,
                n == s.len(),
                s[i as int].1 == l@,
                slots_within(s, entities@.len()),
                out@ == before + entities_of(l@.subrange(0, j as int), entities@),
            decreases k - j,
        {
            assert(s[i as int].1[j as int].0 < entities@.len());
            out.push(entities[l[j].0 as usize]);
            j = j + 1;
            assert(out@ =~= before + entities_of(l@.subrange(0, j as int), entities@));
        }
        i = i + 1;
        proof {
            let p = s.subrange(0, i as int);
            assert(p.drop_last() =~= s.subrange(0, i - 1));
            assert(l@.subrange(0, k as int) =~= l@);
            assert(out@ =~= entities_of(flat(p), entities@));
        }
    }
    assert(s.subrange(0, n as int) =~= s);
    out
}

fn with_role(entity: u64, kind: &SkillGraphNodeKind) -> (r: SkillNodeRecord)
    ensures
        r@.entity == entity,
        r@.components == components_from(kind@),
        r.entity == entity,
{
    let mut r = SkillNodeRecord::new(entity);
    match kind {
        SkillGraphNodeKind::Sequence => {
            r.sequence = Some(Sequence);
        },
        SkillGraphNodeKind::Parallel => {
            r.parallel = Some(Parallel);
        },
        SkillGraphNodeKind::Delay { seconds } => {
            r.delay = Some(Delay { seconds: seconds.clone() });
        },
        SkillGraphNodeKind::Repeat { times, duration, interval } => {
            r.repeat =
            Some(
                Repeat {
                    times: copy_expr(times),
                    duration: copy_expr(duration),
                    interval: copy_expr(interval),
                },
            );
        },
        SkillGraphNodeKind::If { condition } => {
            r.if_node = Some(If { condition: condition.clone() });
        },
        SkillGraphNodeKind::WaitEvent { event } => {
            r.wait_event = Some(WaitEvent { event: event.clone() });
        },
        SkillGraphNodeKind::EmitSkillEvent { event, payload } => {
            r.emit = Some(EmitSkillEvent { event: event.clone(), payload: copy_args(payload) });
        },
        SkillGraphNodeKind::SetSkillVar { name, value } => {
            r.set_var = Some(SetSkillVar { name: name.clone(), value: copy_value(value) });
        },
        SkillGraphNodeKind::WithSkillContext => {
            r.with_context = Some(WithSkillContext);
        },
        SkillGraphNodeKind::Extension { constructor, args } => {
            r.extension =
            Some(SkillExtension { constructor: constructor.clone(), args: copy_args(args) });
        },
    }
    r
}

/// The records of the nodes of a graph, in the given entities.
pub fn materialize_graph(graph: &SkillGraph, entities: &Vec<u64>) -> (r: Vec<SkillNodeRecord>)
    requires
        entities@.len() == graph.nodes@.len(),
        refers_within(graph@.nodes),
    ensures
        Seq::new(r@.len(), |i: int| r@[i]@) == materialized(graph@.nodes, entities@),
{
    let ghost nodes = graph@.nodes;
    let n: usize = graph.nodes.len();
    let mut children: Vec<Option<Place>> = empty_places(n);
    let mut payloads: Vec<Option<Place>> = empty_places(n);
    let mut i: usize = 0;
    while i < n
        invariant
            i <= n,
            n == graph.nodes@.len(),
            n == entities@.len(),
            nodes == graph@.nodes,
            refers_within(nodes),
            children@.len() == n,
            payloads@.len() == n,
            places_content(children@) == children_placed(nodes, entities@, i as nat),
            places_content(payloads@) == payloads_placed(nodes, entities@, i as nat),
        decreases n - i,
    {
        let node = &graph.nodes[i];
        assert(nodes[i as int] == node@);
        place_slots(&mut children, entities[i], &node.children);
        place_slots(&mut payloads, entities[i], &node.payloads);
        i = i + 1;
    }
    let mut out: Vec<SkillNodeRecord> = Vec::new();
    let mut i: usize = 0;
    while i < n
        invariant
            i <= n,
            n == graph.nodes@.len(),
            n == entities@.len(),
            nodes == graph@.nodes,
            refers_within(nodes),
            children@.len() == n,
            payloads@.len() == n,
            out@.len() == i,
            places_content(children@) == children_placed(nodes, entities@, n as nat),
            places_content(payloads@) == payloads_placed(nodes, entities@, n as nat),
            forall|j: int|
                0 <= j < i ==> (#[trigger] out@[j])@ == materialized(nodes, entities@)[j],
        decreases n - i,
    {
        let node = &graph.nodes[i];
        assert(nodes[i as int] == node@);
        let mut record = with_role(entities[i], &node.kind);
        record.children = Some(entity_list(&node.children, entities));
        record.payloads = Some(entity_list(&node.payloads, entities));
        record.child_of =
        match &children[i] {
            Some(p) => Some(
                SkillChildOf { parent: p.parent, slot: p.slot.clone(), order: p.order },
            ),
            None => None,
        };
        record.payload_of =
        match &payloads[i] {
            Some(p) => Some(
                SkillPayloadOf { parent: p.parent, slot: p.slot.clone(), order: p.order },
            ),
            None => None,
        };
        proof {
            assert(places_content(children@)[i as int] == place_content(children@[i as int]));
            assert(places_content(payloads@)[i as int] == place_content(payloads@[i as int]));
            assert(record@.child_of == place_content(children@[i as int]));
            assert(record@.payload_of == place_content(payloads@[i as int]));
            assert(record@.components == components_from(node@.kind));
        }
        out.push(record);
        i = i + 1;
    }
    assert(Seq::new(out@.len(), |i: int| out@[i]@) =~= materialized(nodes, entities@));
    out
}

/// The record of a compiled skill whose graph has been brought into the world.
pub fn compiled_record_of(compiled: &SkillCompiled, entity: u64, entities: &Vec<u64>) -> (r:
    CompiledSkillRecord)
    requires
        entities@.len() == compiled.graph.nodes@.len(),
        compiled.graph.root matches Some(root) ==> root.0 < entities@.len(),
    ensures
        r@.entity == entity,
        r@.id == compiled@.id,
        r@.params == compiled@.graph.params,
        r@.tags == compiled@.tags,
        r@.requirements == compiled@.requirements,
        r@.roots == match compiled@.graph.root {
            Some(root) => Some(seq![entities@[root.0 as int]]),
            None => None,
        },
{
    let roots: Option<Vec<u64>> = match compiled.graph.root {
        Some(root) => {
            let mut l: Vec<u64> = Vec::new();
            l.push(entities[root.0 as usize]);
            Some(l)
        },
        None => None,
    };
    CompiledSkillRecord {
        entity,
        id: compiled.id.clone(),
        params: copy_args(&compiled.graph.params),
        tags: copy_keys(&compiled.tags),
        requirements: copy_requirements(&compiled.requirements),
        roots,
    }
}

proof fn lemma_in_flat(s: SlotsView, i: int, j: int)
    requires
        0 <= i < s.len(),
        0 <= j < s[i].1.len(),
    ensures
        flat(s).contains(s[i].1[j]),
    decreases s.len(),
{
    let p = s.drop_last();
    if i < p.len() {
        assert(p[i] == s[i]);
        lemma_in_flat(p, i, j);
        let k = flat(p).index_of(s[i].1[j]);
        assert(flat(s)[k] == s[i].1[j]);
    } else {
        assert(flat(s)[flat(p).len() + j] == s[i].1[j]);
    }
}

/// A well-formed graph can be brought into the world.
pub proof fn law_valid_graphs_can_be_materialized(g: GraphView)
    requires
        checked(g) is Ok,
    ensures
        refers_within(g.nodes),
        g.root is Some,
        (g.root->0).0 < g.nodes.len(),
{
    law_valid_graphs(g);
    assert forall|n: int| 0 <= n < g.nodes.len() implies slots_within(
        (#[trigger] g.nodes[n]).children,
        g.nodes.len(),
    ) && slots_within(g.nodes[n].payloads, g.nodes.len()) by {
        let node = g.nodes[n];
        assert forall|i: int, j: int|
            0 <= i < node.children.len() && 0 <= j < node.children[i].1.len() implies (
        #[trigger] node.children[i].1[j]).0 < g.nodes.len() by {
            let x = node.children[i].1[j];
            lemma_in_flat(node.children, i, j);
            let k = flat(node.children).index_of(x);
            assert(targets(node)[k] == x);
            lemma_target_exists(g, n, x);
        }
        assert forall|i: int, j: int|
            0 <= i < node.payloads.len() && 0 <= j < node.payloads[i].1.len() implies (
        #[trigger] node.payloads[i].1[j]).0 < g.nodes.len() by {
            let x = node.payloads[i].1[j];
            lemma_in_flat(node.payloads, i, j);
            let k = flat(node.payloads).index_of(x);
            assert(targets(node)[flat(node.children).len() + k] == x);
            lemma_target_exists(g, n, x);
        }
    }
}

proof fn lemma_target_exists(g: GraphView, n: int, x: SkillNodeId)
    requires
        complete(g),
        0 <= n < g.nodes.len(),
        targets(g.nodes[n]).contains(x),
    ensures
        has_node(g, x),
{
    lemma_targets_referred(g.nodes, n, x);
    let i = references(g.nodes).index_of(x);
    assert(has_node(g, references(g.nodes)[i]));
}

} // verus!
