//! A graph that is brought into the world is found there as it was compiled.
use crate::append_laws::{in_slots, node_limit};
use crate::error::SkillNodeId;
use crate::graph::{flat, slot, GraphNodeView, GraphView, SlotsView};
use crate::materialize::{
    children_placed, entities_of, list_placed, materialized, payloads_placed, slots_placed, Places,
};
use crate::node::{
    children_ranked, payload_table, payloads_grouped, payloads_ranked, ranked_in, record_from,
    record_of, slot_children, slot_payloads, unranked, PlaceView, Ranked, RecordView,
};
use crate::table::{distinct, has_key, key_index, lemma_found, put};
use crate::tree_laws::{holds_at, node_single, refers, slots_single, tree};
use vstd::prelude::*;

verus! {

/// Where a node stands.
spec fn place(parent: u64, name: Seq<char>, j: int) -> Option<PlaceView> {
    Some(PlaceView { parent, slot: name, order: j as u32 })
}

proof fn lemma_list_len(p: Places, parent: u64, name: Seq<char>, l: Seq<SkillNodeId>, k: nat)
    requires
        forall|j: int| 0 <= j < l.len() ==> (#[trigger] l[j]).0 < p.len(),
    ensures
        list_placed(p, parent, name, l, k).len() == p.len(),
    decreases k,
{
    if 0 < k <= l.len() {
        lemma_list_len(p, parent, name, l, (k - 1) as nat);
        assert(l[k - 1].0 < p.len());
    }
}

/// A node that is not in the list keeps its place.
proof fn lemma_list_keeps(
    p: Places,
    parent: u64,
    name: Seq<char>,
    l: Seq<SkillNodeId>,
    k: nat,
    y: int,
)
    requires
        0 <= y < p.len(),
        forall|j: int| 0 <= j < l.len() ==> (#[trigger] l[j]).0 != y,
        forall|j: int| 0 <= j < l.len() ==> (#[trigger] l[j]).0 < p.len(),
    ensures
        list_placed(p, parent, name, l, k)[y] == p[y],
    decreases k,
{
    if 0 < k <= l.len() {
        lemma_list_keeps(p, parent, name, l, (k - 1) as nat, y);
        lemma_list_len(p, parent, name, l, (k - 1) as nat);
        assert(l[k - 1].0 != y);
    }
}

/// A node of the list gets its place.
proof fn lemma_list_places(
    p: Places,
    parent: u64,
    name: Seq<char>,
    l: Seq<SkillNodeId>,
    k: nat,
    j: int,
)
    requires
        0 <= j < k <= l.len(),
        forall|a: int, b: int| 0 <= a < l.len() && 0 <= b < l.len() && l[a] == l[b] ==> a == b,
        forall|a: int| 0 <= a < l.len() ==> (#[trigger] l[a]).0 < p.len(),
    ensures
        list_placed(p, parent, name, l, k)[l[j].0 as int] == place(parent, name, j),
    decreases k,
{
    lemma_list_len(p, parent, name, l, (k - 1) as nat);
    assert(l[k - 1].0 < p.len());
    assert(l[j].0 < p.len());
    if j < k - 1 {
        lemma_list_places(p, parent, name, l, (k - 1) as nat, j);
        assert(l[j].0 != l[k - 1].0) by {
            if l[j].0 == l[k - 1].0 {
                assert(l[j] == l[k - 1]);
            }
        }
    }
}

spec fn all_below(s: SlotsView, n: nat) -> bool {
    forall|i: int, j: int, x: SkillNodeId| #[trigger] holds_at(s, i, j, x) ==> x.0 < n
}

proof fn lemma_slots_len(p: Places, parent: u64, s: SlotsView, k: nat)
    requires
        all_below(s, p.len()),
    ensures
        slots_placed(p, parent, s, k).len() == p.len(),
    decreases k,
{
    if 0 < k <= s.len() {
        lemma_slots_len(p, parent, s, (k - 1) as nat);
        let l = s[k - 1].1;
        assert forall|j: int| 0 <= j < l.len() implies (#[trigger] l[j]).0 < p.len() by {
            assert(holds_at(s, k - 1, j, l[j]));
        }
        lemma_list_len(
            slots_placed(p, parent, s, (k - 1) as nat),
            parent,
            s[k - 1].0,
            s[k - 1].1,
            s[k - 1].1.len(),
        );
    }
}

proof fn lemma_slots_keep(p: Places, parent: u64, s: SlotsView, k: nat, y: SkillNodeId)
    requires
        y.0 < p.len(),
        !in_slots(s, y),
        all_below(s, p.len()),
    ensures
        slots_placed(p, parent, s, k)[y.0 as int] == p[y.0 as int],
    decreases k,
{
    if 0 < k <= s.len() {
        lemma_slots_keep(p, parent, s, (k - 1) as nat, y);
        lemma_slots_len(p, parent, s, (k - 1) as nat);
        let l = s[k - 1].1;
        assert forall|j: int| 0 <= j < l.len() implies (#[trigger] l[j]).0 != y.0 && l[j].0
            < p.len() by {
            assert(holds_at(s, k - 1, j, l[j]));
            if l[j].0 == y.0 {
                assert(l[j] == y);
                assert(s[k - 1].1.contains(y));
            }
        }
        lemma_list_keeps(
            slots_placed(p, parent, s, (k - 1) as nat),
            parent,
            s[k - 1].0,
            l,
            l.len(),
            y.0 as int,
        );
    }
}

proof fn lemma_slots_place(p: Places, parent: u64, s: SlotsView, k: nat, i: int, j: int)
    requires
        0 <= i < k <= s.len(),
        0 <= j < s[i].1.len(),
        slots_single(s),
        all_below(s, p.len()),
    ensures
        slots_placed(p, parent, s, k)[s[i].1[j].0 as int] == place(parent, s[i].0, j),
    decreases k,
{
    let before = slots_placed(p, parent, s, (k - 1) as nat);
    lemma_slots_len(p, parent, s, (k - 1) as nat);
    let l = s[k - 1].1;
    assert forall|a: int| 0 <= a < l.len() implies (#[trigger] l[a]).0 < p.len() by {
        assert(holds_at(s, k - 1, a, l[a]));
    }
    if i == k - 1 {
        assert forall|a: int, b: int|
            0 <= a < l.len() && 0 <= b < l.len() && l[a] == l[b] implies a == b by {
            assert(holds_at(s, k - 1, a, l[a]));
            assert(holds_at(s, k - 1, b, l[a]));
        }
        lemma_list_places(before, parent, s[i].0, l, l.len(), j);
    } else {
        let x = s[i].1[j];
        lemma_slots_place(p, parent, s, (k - 1) as nat, i, j);
        assert(holds_at(s, i, j, x));
        assert forall|a: int| 0 <= a < l.len() implies (#[trigger] l[a]).0 != x.0 by {
            if l[a].0 == x.0 {
                assert(l[a] == x);
                assert(holds_at(s, k - 1, a, x));
            }
        }
        lemma_list_keeps(before, parent, s[k - 1].0, l, l.len(), x.0 as int);
    }
}

/// The slots that are asked for: those of children, or those of payloads.
spec fn slots_of(n: GraphNodeView, payload: bool) -> SlotsView {
    if payload {
        n.payloads
    } else {
        n.children
    }
}

spec fn placed(nodes: Seq<GraphNodeView>, entities: Seq<u64>, k: nat, payload: bool) -> Places {
    if payload {
        payloads_placed(nodes, entities, k)
    } else {
        children_placed(nodes, entities, k)
    }
}

proof fn lemma_placed_len(g: GraphView, entities: Seq<u64>, k: nat, payload: bool)
    requires
        tree(g),
    ensures
        placed(g.nodes, entities, k, payload).len() == g.nodes.len(),
    decreases k,
{
    let nodes = g.nodes;
    if 0 < k <= nodes.len() {
        lemma_placed_len(g, entities, (k - 1) as nat, payload);
        lemma_below(g, k - 1, payload);
        let s = slots_of(nodes[k - 1], payload);
        lemma_slots_len(
            placed(nodes, entities, (k - 1) as nat, payload),
            entities[k - 1],
            s,
            s.len(),
        );
    }
}

proof fn lemma_below(g: GraphView, n: int, payload: bool)
    requires
        tree(g),
        0 <= n < g.nodes.len(),
    ensures
        all_below(slots_of(g.nodes[n], payload), g.nodes.len()),
{
    let s = slots_of(g.nodes[n], payload);
    assert forall|i: int, j: int, x: SkillNodeId| #[trigger] holds_at(s, i, j, x) implies x.0
        < g.nodes.len() by {
        assert(s[i].1.contains(x));
        assert(in_slots(s, x));
        crate::tree_laws::lemma_refers_forward(g, n, x);
    }
}

/// In a tree every child has its place.
proof fn lemma_placed(
    g: GraphView,
    entities: Seq<u64>,
    k: nat,
    payload: bool,
    n: int,
    i: int,
    j: int,
)
    requires
        tree(g),
        0 <= n < k <= g.nodes.len(),
        0 <= i < slots_of(g.nodes[n], payload).len(),
        0 <= j < slots_of(g.nodes[n], payload)[i].1.len(),
    ensures
        placed(g.nodes, entities, k, payload)[slots_of(
            g.nodes[n],
            payload,
        )[i].1[j].0 as int] == place(entities[n], slots_of(g.nodes[n], payload)[i].0, j),
    decreases k,
{
    let before = placed(g.nodes, entities, (k - 1) as nat, payload);
    lemma_placed_len(g, entities, (k - 1) as nat, payload);
    let s = slots_of(g.nodes[k - 1], payload);
    lemma_below(g, k - 1, payload);
    assert(node_single(g.nodes[k - 1]));
    if n == k - 1 {
        lemma_slots_place(before, entities[n], s, s.len(), i, j);
    } else {
        lemma_placed(g, entities, (k - 1) as nat, payload, n, i, j);
        let t = slots_of(g.nodes[n], payload);
        let x = t[i].1[j];
        assert(t[i].1.contains(x));
        assert(in_slots(t, x));
        assert(refers(g.nodes[n], x));
        lemma_below(g, n, payload);
        assert(holds_at(t, i, j, x));
        if in_slots(s, x) {
            assert(refers(g.nodes[k - 1], x));
        }
        lemma_slots_keep(before, entities[k - 1], s, s.len(), x);
    }
}

proof fn lemma_record(s: Seq<RecordView>, x: int, k: int)
    requires
        0 <= k <= x < s.len(),
        forall|a: int, b: int|
            0 <= a < s.len() && 0 <= b < s.len() && (#[trigger] s[a]).entity == (
            #[trigger] s[b]).entity ==> a == b,
    ensures
        record_from(s, s[x].entity, k) == Some(s[x]),
    decreases x - k,
{
    if k < x {
        assert(s[k].entity != s[x].entity);
        lemma_record(s, x, k + 1);
    }
}

proof fn lemma_record_found(g: GraphView, entities: Seq<u64>, x: int)
    requires
        entities.len() == g.nodes.len(),
        entities.no_duplicates(),
        0 <= x < g.nodes.len(),
    ensures
        record_of(materialized(g.nodes, entities), entities[x]) == Some(
            materialized(g.nodes, entities)[x],
        ),
{
    let s = materialized(g.nodes, entities);
    assert forall|a: int, b: int|
        0 <= a < s.len() && 0 <= b < s.len() && (#[trigger] s[a]).entity == (
        #[trigger] s[b]).entity implies a == b by {
        assert(s[a].entity == entities[a] && s[b].entity == entities[b]);
    }
    lemma_record(s, x, 0);
}

/// How many nodes stand in the first `m` slots.
spec fn before_slot(s: SlotsView, m: int) -> nat {
    flat(s.subrange(0, m)).len()
}

proof fn lemma_before_next(s: SlotsView, m: int)
    requires
        0 <= m < s.len(),
    ensures
        before_slot(s, m + 1) == before_slot(s, m) + s[m].1.len(),
{
    let p = s.subrange(0, m + 1);
    assert(p.drop_last() =~= s.subrange(0, m));
    assert(p.last() == s[m]);
}

/// The place of a node of a slot among all nodes in slots.
proof fn lemma_flat_at(s: SlotsView, m: int, j: int)
    requires
        0 <= m < s.len(),
        0 <= j < s[m].1.len(),
    ensures
        before_slot(s, m) + j < flat(s).len(),
        flat(s)[before_slot(s, m) + j] == s[m].1[j],
    decreases s.len(),
{
    let p = s.drop_last();
    if m == s.len() - 1 {
        assert(s.subrange(0, m) =~= p);
    } else {
        assert(p[m] == s[m]);
        lemma_flat_at(p, m, j);
        assert(p.subrange(0, m) =~= s.subrange(0, m));
    }
}

/// The ranked list of a slot, up to a place.
spec fn ranked_list(l: Seq<SkillNodeId>, entities: Seq<u64>, k: int) -> Seq<Ranked> {
    Seq::new(k as nat, |j: int| (j as u32, entities[l[j].0 as int]))
}

/// The ranked list of the slot with a name, as far as the first `m` slots and `j` nodes of the
/// next hold it.
spec fn ranked_so_far(s: SlotsView, entities: Seq<u64>, name: Seq<char>, m: int, j: int) -> Seq<
    Ranked,
> {
    if has_key(s, name) && key_index(s, name) < m {
        let l = s[key_index(s, name)].1;
        ranked_list(l, entities, l.len() as int)
    } else if m < s.len() && s[m].0 == name {
        ranked_list(s[m].1, entities, j)
    } else {
        Seq::empty()
    }
}

spec fn ranked_of(
    s: Seq<RecordView>,
    l: Seq<u64>,
    k: nat,
    parent: u64,
    name: Seq<char>,
    payload: bool,
) -> Seq<Ranked> {
    if payload {
        payloads_ranked(s, l, k, parent, name)
    } else {
        children_ranked(s, l, k, parent, name)
    }
}

spec fn fits(g: GraphView, entities: Seq<u64>, n: int, payload: bool) -> bool {
    &&& tree(g)
    &&& entities.len() == g.nodes.len()
    &&& entities.no_duplicates()
    &&& 0 <= n < g.nodes.len()
    &&& forall|i: int|
        0 <= i < slots_of(g.nodes[n], payload).len() ==> (#[trigger] slots_of(
            g.nodes[n],
            payload,
        )[i]).1.len() <= node_limit()
}

proof fn lemma_step(
    g: GraphView,
    entities: Seq<u64>,
    n: int,
    payload: bool,
    name: Seq<char>,
    m: int,
    j: int,
)
    requires
        fits(g, entities, n, payload),
        0 <= m < slots_of(g.nodes[n], payload).len(),
        0 <= j < slots_of(g.nodes[n], payload)[m].1.len(),
    ensures
        ({
            let s = slots_of(g.nodes[n], payload);
            let w = materialized(g.nodes, entities);
            let l = entities_of(flat(s), entities);
            let x = s[m].1[j];
            &&& before_slot(s, m) + j < l.len()
            &&& l[before_slot(s, m) + j] == entities[x.0 as int]
            &&& x.0 < g.nodes.len()
            &&& record_of(w, entities[x.0 as int]) == Some(w[x.0 as int])
            &&& (if payload {
                w[x.0 as int].payload_of
            } else {
                w[x.0 as int].child_of
            }) == place(entities[n], s[m].0, j)
        }),
{
    let s = slots_of(g.nodes[n], payload);
    let x = s[m].1[j];
    lemma_flat_at(s, m, j);
    lemma_below(g, n, payload);
    assert(holds_at(s, m, j, x));
    lemma_record_found(g, entities, x.0 as int);
    lemma_placed(g, entities, g.nodes.len(), payload, n, m, j);
}

proof fn lemma_ranked(
    g: GraphView,
    entities: Seq<u64>,
    n: int,
    payload: bool,
    name: Seq<char>,
    m: int,
    j: int,
)
    requires
        fits(g, entities, n, payload),
        0 <= m <= slots_of(g.nodes[n], payload).len(),
        0 <= j,
        m < slots_of(g.nodes[n], payload).len() ==> j <= slots_of(g.nodes[n], payload)[m].1.len(),
        m == slots_of(g.nodes[n], payload).len() ==> j == 0,
    ensures
        ({
            let s = slots_of(g.nodes[n], payload);
            ranked_of(
                materialized(g.nodes, entities),
                entities_of(flat(s), entities),
                (before_slot(s, m) + j) as nat,
                entities[n],
                name,
                payload,
            ) == ranked_so_far(s, entities, name, m, j)
        }),
    decreases m, j,
{
    let s = slots_of(g.nodes[n], payload);
    let w = materialized(g.nodes, entities);
    let l = entities_of(flat(s), entities);
    assert(node_single(g.nodes[n]));
    if j > 0 {
        lemma_ranked(g, entities, n, payload, name, m, j - 1);
        lemma_step(g, entities, n, payload, name, m, j - 1);
        let k = (before_slot(s, m) + j) as nat;
        let before = ranked_so_far(s, entities, name, m, j - 1);
        assert(k - 1 == before_slot(s, m) + (j - 1));
        if s[m].0 == name {
            lemma_found(s, m);
            assert(before =~= ranked_list(s[m].1, entities, j - 1));
            let x: Ranked = ((j - 1) as u32, entities[s[m].1[j - 1].0 as int]);
            assert(s[m].1.len() <= node_limit());
            assert(ranked_of(w, l, k, entities[n], name, payload) == ranked_in(before, x));
            if before.len() > 0 {
                assert(before.last() == ((j - 2) as u32, entities[s[m].1[j - 2].0 as int]));
            }
            assert(ranked_in(before, x) == before.push(x));
            assert(before.push(x) =~= ranked_list(s[m].1, entities, j));
        } else {
            assert(ranked_of(w, l, k, entities[n], name, payload) == before);
            assert(before == ranked_so_far(s, entities, name, m, j));
        }
    } else if m > 0 {
        let last = s[m - 1].1.len() as int;
        lemma_ranked(g, entities, n, payload, name, m - 1, last);
        lemma_before_next(s, m - 1);
        assert(before_slot(s, m) + 0 == before_slot(s, m - 1) + last);
        let was = ranked_so_far(s, entities, name, m - 1, last);
        if has_key(s, name) {
            let at = key_index(s, name);
            assert(0 <= at < s.len() && s[at].0 == name);
            if s[m - 1].0 == name {
                lemma_found(s, m - 1);
            } else if m < s.len() && s[m].0 == name {
                lemma_found(s, m);
                assert(ranked_list(s[m].1, entities, 0) =~= Seq::empty());
            }
        } else {
            if s[m - 1].0 == name {
                assert(has_key(s, name));
            }
            if m < s.len() && s[m].0 == name {
                assert(has_key(s, name));
            }
        }
        assert(was =~= ranked_so_far(s, entities, name, m, 0));
    } else {
        assert(s.subrange(0, 0) =~= Seq::empty());
        assert(before_slot(s, 0) == 0);
        assert(ranked_so_far(s, entities, name, 0, 0) =~= Seq::empty());
    }
}

proof fn lemma_slot_found(
    g: GraphView,
    entities: Seq<u64>,
    n: int,
    payload: bool,
    name: Seq<char>,
)
    requires
        fits(g, entities, n, payload),
    ensures
        ({
            let s = slots_of(g.nodes[n], payload);
            unranked(
                ranked_of(
                    materialized(g.nodes, entities),
                    entities_of(flat(s), entities),
                    flat(s).len(),
                    entities[n],
                    name,
                    payload,
                ),
            ) == entities_of(slot(s, name), entities)
        }),
{
    let s = slots_of(g.nodes[n], payload);
    lemma_ranked(g, entities, n, payload, name, s.len() as int, 0);
    assert(s.subrange(0, s.len() as int) =~= s);
    assert(before_slot(s, s.len() as int) == flat(s).len());
    let found = ranked_so_far(s, entities, name, s.len() as int, 0);
    if has_key(s, name) {
        let at = key_index(s, name);
        assert(0 <= at < s.len() && s[at].0 == name);
        assert(slot(s, name) == s[at].1);
    }
    assert(unranked(found) =~= entities_of(slot(s, name), entities));
}

/// The law of children: in the world, the children in a slot of a node are the entities of the
/// nodes that the graph has in that slot, in their order.
pub proof fn law_children_are_found(g: GraphView, entities: Seq<u64>, n: int, name: Seq<char>)
    requires
        tree(g),
        entities.len() == g.nodes.len(),
        entities.no_duplicates(),
        0 <= n < g.nodes.len(),
        forall|i: int|
            0 <= i < g.nodes[n].children.len() ==> (#[trigger] g.nodes[n].children[i]).1.len()
                <= node_limit(),
    ensures
        slot_children(materialized(g.nodes, entities), entities[n], name) == entities_of(
            slot(g.nodes[n].children, name),
            entities,
        ),
{
    lemma_record_found(g, entities, n);
    lemma_slot_found(g, entities, n, false, name);
}

/// The law of payloads: in the world, the payloads in a slot of a node are the entities of the
/// nodes that the graph has in that slot, in their order.
pub proof fn law_payloads_are_found(g: GraphView, entities: Seq<u64>, n: int, name: Seq<char>)
    requires
        tree(g),
        entities.len() == g.nodes.len(),
        entities.no_duplicates(),
        0 <= n < g.nodes.len(),
        forall|i: int|
            0 <= i < g.nodes[n].payloads.len() ==> (#[trigger] g.nodes[n].payloads[i]).1.len()
                <= node_limit(),
    ensures
        slot_payloads(materialized(g.nodes, entities), entities[n], name) == entities_of(
            slot(g.nodes[n].payloads, name),
            entities,
        ),
{
    lemma_record_found(g, entities, n);
    lemma_slot_found(g, entities, n, true, name);
}

/// The groups of the first `m` slots and of the first `j` nodes of the next.
spec fn groups_so_far(s: SlotsView, entities: Seq<u64>, m: int, j: int) -> Seq<
    (Seq<char>, Seq<Ranked>),
> {
    let full = Seq::new(
        m as nat,
        |i: int| (s[i].0, ranked_list(s[i].1, entities, s[i].1.len() as int)),
    );
    if j > 0 {
        full.push((s[m].0, ranked_list(s[m].1, entities, j)))
    } else {
        full
    }
}

proof fn lemma_groups_distinct(s: SlotsView, entities: Seq<u64>, m: int, j: int)
    requires
        distinct(s),
        0 <= m <= s.len(),
        0 <= j,
        m == s.len() ==> j == 0,
    ensures
        distinct(groups_so_far(s, entities, m, j)),
{
    let t = groups_so_far(s, entities, m, j);
    assert forall|a: int, b: int|
        0 <= a < t.len() && 0 <= b < t.len() && (#[trigger] t[a]).0 == (
        #[trigger] t[b]).0 implies a == b by {
        assert(t[a].0 == s[a].0);
        assert(t[b].0 == s[b].0);
    }
}

proof fn lemma_grouped(g: GraphView, entities: Seq<u64>, n: int, m: int, j: int)
    requires
        fits(g, entities, n, true),
        forall|i: int|
            0 <= i < g.nodes[n].payloads.len() ==> (#[trigger] g.nodes[n].payloads[i]).1.len() > 0,
        0 <= m <= g.nodes[n].payloads.len(),
        0 <= j,
        m < g.nodes[n].payloads.len() ==> j <= g.nodes[n].payloads[m].1.len(),
        m == g.nodes[n].payloads.len() ==> j == 0,
    ensures
        ({
            let s = g.nodes[n].payloads;
            payloads_grouped(
                materialized(g.nodes, entities),
                entities_of(flat(s), entities),
                (before_slot(s, m) + j) as nat,
                entities[n],
            ) == groups_so_far(s, entities, m, j)
        }),
    decreases m, j,
{
    let s = g.nodes[n].payloads;
    let w = materialized(g.nodes, entities);
    let l = entities_of(flat(s), entities);
    assert(node_single(g.nodes[n]));
    if j > 0 {
        lemma_grouped(g, entities, n, m, j - 1);
        lemma_step(g, entities, n, true, s[m].0, m, j - 1);
        let k = (before_slot(s, m) + j) as nat;
        let before = groups_so_far(s, entities, m, j - 1);
        let x: Ranked = ((j - 1) as u32, entities[s[m].1[j - 1].0 as int]);
        let list = ranked_list(s[m].1, entities, j - 1);
        assert(slots_of(g.nodes[n], true)[m].1.len() <= node_limit());
        lemma_groups_distinct(s, entities, m, j - 1);
        if j - 1 > 0 {
            assert(before[m] == (s[m].0, list));
            lemma_found(before, m);
            assert(list.last() == ((j - 2) as u32, entities[s[m].1[j - 2].0 as int]));
            assert(ranked_in(list, x) == list.push(x));
            assert(put(before, s[m].0, list.push(x)) =~= groups_so_far(s, entities, m, j)) by {
                assert(list.push(x) =~= ranked_list(s[m].1, entities, j));
            }
        } else {
            assert(!has_key(before, s[m].0)) by {
                if has_key(before, s[m].0) {
                    let i = key_index(before, s[m].0);
                    assert(0 <= i < before.len() && before[i].0 == s[m].0);
                    assert(before[i].0 == s[i].0);
                }
            }
            assert(ranked_in(Seq::empty(), x) == Seq::<Ranked>::empty().push(x));
            assert(Seq::<Ranked>::empty().push(x) =~= ranked_list(s[m].1, entities, 1));
            assert(put(before, s[m].0, Seq::<Ranked>::empty().push(x)) =~= groups_so_far(
                s,
                entities,
                m,
                1,
            ));
        }
    } else if m > 0 {
        let last = s[m - 1].1.len() as int;
        lemma_grouped(g, entities, n, m - 1, last);
        lemma_before_next(s, m - 1);
        assert(last > 0);
        assert(groups_so_far(s, entities, m - 1, last) =~= groups_so_far(s, entities, m, 0));
    } else {
        assert(s.subrange(0, 0) =~= Seq::empty());
        assert(before_slot(s, 0) == 0);
        assert(groups_so_far(s, entities, 0, 0) =~= Seq::empty());
    }
}

/// The law of payload tables: in the world, an action is given the payload slots of its node in
/// their order, each with the entities of its nodes.
pub proof fn law_payload_tables_are_found(g: GraphView, entities: Seq<u64>, n: int)
    requires
        tree(g),
        entities.len() == g.nodes.len(),
        entities.no_duplicates(),
        0 <= n < g.nodes.len(),
        forall|i: int|
            0 <= i < g.nodes[n].payloads.len() ==> 0 < (#[trigger] g.nodes[n].payloads[i]).1.len()
                <= node_limit(),
    ensures
        payload_table(materialized(g.nodes, entities), entities[n]) == Seq::new(
            g.nodes[n].payloads.len(),
            |i: int|
                (
                    g.nodes[n].payloads[i].0,
                    entities_of(g.nodes[n].payloads[i].1, entities),
                ),
        ),
{
    let s = g.nodes[n].payloads;
    lemma_record_found(g, entities, n);
    lemma_grouped(g, entities, n, s.len() as int, 0);
    assert(s.subrange(0, s.len() as int) =~= s);
    assert(before_slot(s, s.len() as int) == flat(s).len());
    let t = payload_table(materialized(g.nodes, entities), entities[n]);
    let grouped = groups_so_far(s, entities, s.len() as int, 0);
    assert forall|i: int| 0 <= i < s.len() implies #[trigger] t[i] == (
        s[i].0,
        entities_of(s[i].1, entities),
    ) by {
        assert(grouped[i] == (s[i].0, ranked_list(s[i].1, entities, s[i].1.len() as int)));
        assert(unranked(ranked_list(s[i].1, entities, s[i].1.len() as int)) =~= entities_of(
            s[i].1,
            entities,
        ));
    }
    assert(t =~= Seq::new(s.len(), |i: int| (s[i].0, entities_of(s[i].1, entities))));
}

} // verus!
