//! What stands in the slots of a node.
use crate::append::{appended, args_node_free, nested_node_error, node_free};
use crate::error::{ErrorView, SkillGraphError, SkillNodeId};
use crate::graph::{child_pushed, missing_of, node_added, payload_pushed, slot, GraphView, KindView};
use crate::node::{
    by_rank, children_of, children_ranked, law_ranked_in, only_child, payload_table,
    payloads_grouped, payloads_of, payloads_ranked, ranked_in, record_from, record_of,
    slot_children, slot_payloads, unranked, Ranked, RecordView,
};
use crate::table::{distinct, has_key, law_put_then_lookup, lemma_distinct, lemma_found, lookup};
use crate::value::{ArgsView, NodeView, ValueView};
use vstd::prelude::*;

verus! {

proof fn lemma_record(s: Seq<RecordView>, k: int, i: int)
    requires
        0 <= k <= i < s.len(),
        forall|j: int| k <= j < i ==> (#[trigger] s[j]).entity != s[i].entity,
    ensures
        record_from(s, s[i].entity, k) == Some(s[i]),
    decreases i - k,
{
    if k < i {
        assert(s[k].entity != s[i].entity);
        lemma_record(s, k + 1, i);
    }
}

proof fn lemma_no_record(s: Seq<RecordView>, e: u64, k: int)
    requires
        0 <= k <= s.len(),
        forall|j: int| k <= j < s.len() ==> (#[trigger] s[j]).entity != e,
    ensures
        record_from(s, e, k) is None,
    decreases s.len() - k,
{
    if k < s.len() {
        assert(s[k].entity != e);
        lemma_no_record(s, e, k + 1);
    }
}

/// A law of records: the record of an entity is the first with it, and there is none without.
pub proof fn law_records_are_found(s: Seq<RecordView>, e: u64, i: int)
    ensures
        0 <= i < s.len() && s[i].entity == e && (forall|j: int|
            0 <= j < i ==> (#[trigger] s[j]).entity != e) ==> record_of(s, e) == Some(s[i]),
        (forall|j: int| 0 <= j < s.len() ==> (#[trigger] s[j]).entity != e) ==> record_of(s, e)
            is None,
{
    if 0 <= i < s.len() && s[i].entity == e && (forall|j: int|
        0 <= j < i ==> (#[trigger] s[j]).entity != e) {
        lemma_record(s, 0, i);
    }
    if forall|j: int| 0 <= j < s.len() ==> (#[trigger] s[j]).entity != e {
        lemma_no_record(s, e, 0);
    }
}

/// The rank of a node in a child slot.
pub open spec fn child_rank(s: Seq<RecordView>, x: u64, parent: u64, name: Seq<char>) -> Option<u32> {
    match record_of(s, x) {
        Some(r) => match r.child_of {
            Some(p) => if p.parent == parent && p.slot == name {
                Some(p.order)
            } else {
                None
            },
            None => None,
        },
        None => None,
    }
}

/// The rank of a node in a payload slot.
pub open spec fn payload_rank(s: Seq<RecordView>, x: u64, parent: u64, name: Seq<char>) -> Option<
    u32,
> {
    match record_of(s, x) {
        Some(r) => match r.payload_of {
            Some(p) => if p.parent == parent && p.slot == name {
                Some(p.order)
            } else {
                None
            },
            None => None,
        },
        None => None,
    }
}

/// Exactly those of the first `k` nodes that have a rank stand in the list, each as often as there,
/// in order of their ranks.
pub open spec fn ranks(l: Seq<u64>, k: nat, f: spec_fn(u64) -> Option<u32>, r: Seq<Ranked>) -> bool {
    &&& by_rank(r)
    &&& forall|i: int| 0 <= i < r.len() ==> f((#[trigger] r[i]).1) == Some(r[i].0)
    &&& forall|x: u64|
        f(x) is Some ==> r.to_multiset().count((f(x)->0, x)) == #[trigger] l.take(
            k as int,
        ).to_multiset().count(x)
}

proof fn lemma_step(
    l: Seq<u64>,
    k: nat,
    f: spec_fn(u64) -> Option<u32>,
    before: Seq<Ranked>,
    after: Seq<Ranked>,
)
    requires
        0 < k <= l.len(),
        ranks(l, (k - 1) as nat, f, before),
        after == match f(l[k - 1]) {
            Some(o) => ranked_in(before, (o, l[k - 1])),
            None => before,
        },
    ensures
        ranks(l, k, f, after),
{
    broadcast use vstd::seq_lib::group_to_multiset_ensures;

    let y = l[k - 1];
    assert(l.take(k as int) =~= l.take(k - 1).push(y));
    if let Some(o) = f(y) {
        law_ranked_in(before, (o, y));
        assert forall|i: int| 0 <= i < after.len() implies f((#[trigger] after[i]).1) == Some(
            after[i].0,
        ) by {
            assert(after.contains(after[i]));
            assert(after.to_multiset().count(after[i]) > 0);
            if after[i] != (o, y) {
                assert(before.to_multiset().count(after[i]) > 0);
                assert(before.contains(after[i]));
                let j = choose|j: int| 0 <= j < before.len() && before[j] == after[i];
                assert(f(before[j].1) == Some(before[j].0));
            }
        }
    }
    assert forall|x: u64| f(x) is Some implies after.to_multiset().count((f(x)->0, x))
        == #[trigger] l.take(k as int).to_multiset().count(x) by {
        assert(before.to_multiset().count((f(x)->0, x)) == l.take(k - 1).to_multiset().count(x));
    }
}

proof fn lemma_children_ranked(
    s: Seq<RecordView>,
    l: Seq<u64>,
    k: nat,
    parent: u64,
    name: Seq<char>,
)
    requires
        k <= l.len(),
    ensures
        ranks(l, k, |x: u64| child_rank(s, x, parent, name), children_ranked(s, l, k, parent, name)),
    decreases k,
{
    broadcast use vstd::seq_lib::group_to_multiset_ensures;

    let f = |x: u64| child_rank(s, x, parent, name);
    if k > 0 {
        lemma_children_ranked(s, l, (k - 1) as nat, parent, name);
        lemma_step(
            l,
            k,
            f,
            children_ranked(s, l, (k - 1) as nat, parent, name),
            children_ranked(s, l, k, parent, name),
        );
    } else {
        assert(l.take(0) =~= Seq::empty());
    }
}

proof fn lemma_payloads_ranked(
    s: Seq<RecordView>,
    l: Seq<u64>,
    k: nat,
    parent: u64,
    name: Seq<char>,
)
    requires
        k <= l.len(),
    ensures
        ranks(
            l,
            k,
            |x: u64| payload_rank(s, x, parent, name),
            payloads_ranked(s, l, k, parent, name),
        ),
    decreases k,
{
    broadcast use vstd::seq_lib::group_to_multiset_ensures;

    let f = |x: u64| payload_rank(s, x, parent, name);
    if k > 0 {
        lemma_payloads_ranked(s, l, (k - 1) as nat, parent, name);
        lemma_step(
            l,
            k,
            f,
            payloads_ranked(s, l, (k - 1) as nat, parent, name),
            payloads_ranked(s, l, k, parent, name),
        );
    } else {
        assert(l.take(0) =~= Seq::empty());
    }
}

/// Every node of a list has a rank, they are in order of rank, and every node of `l` with a rank is
/// among them.
pub open spec fn stand_in_order(r: Seq<u64>, l: Seq<u64>, f: spec_fn(u64) -> Option<u32>) -> bool {
    &&& forall|i: int| 0 <= i < r.len() ==> l.contains(#[trigger] r[i]) && f(r[i]) is Some
    &&& forall|i: int, j: int|
        0 <= i < j < r.len() ==> f(#[trigger] r[i])->0 <= f(#[trigger] r[j])->0
    &&& forall|x: u64| #[trigger] l.contains(x) && f(x) is Some ==> r.contains(x)
    &&& l.no_duplicates() ==> r.no_duplicates()
}

proof fn lemma_in_order(l: Seq<u64>, f: spec_fn(u64) -> Option<u32>, r: Seq<Ranked>)
    requires
        ranks(l, l.len(), f, r),
    ensures
        stand_in_order(unranked(r), l, f),
{
    broadcast use vstd::seq_lib::group_to_multiset_ensures;

    let u = unranked(r);
    assert(l.take(l.len() as int) =~= l);
    assert forall|i: int| 0 <= i < u.len() implies l.contains(#[trigger] u[i]) && f(u[i]) is Some by {
        assert(f(r[i].1) == Some(r[i].0));
        assert(r.contains(r[i]));
        assert(r.to_multiset().count(r[i]) > 0);
        assert(r[i] == (f(u[i])->0, u[i]));
        assert(l.take(l.len() as int).to_multiset().count(u[i]) > 0);
    }
    assert forall|i: int, j: int| 0 <= i < j < u.len() implies f(#[trigger] u[i])->0 <= f(
        #[trigger] u[j],
    )->0 by {
        assert(f(r[i].1) == Some(r[i].0));
        assert(f(r[j].1) == Some(r[j].0));
        assert(r[i].0 <= r[j].0);
    }
    assert forall|x: u64| #[trigger] l.contains(x) && f(x) is Some implies u.contains(x) by {
        assert(l.take(l.len() as int).to_multiset().count(x) > 0);
        let y = (f(x)->0, x);
        assert(r.to_multiset().count(y) > 0);
        assert(r.contains(y));
        let i = choose|i: int| 0 <= i < r.len() && r[i] == y;
        assert(u[i] == x);
    }
    if l.no_duplicates() {
        l.lemma_multiset_has_no_duplicates();
        assert forall|i: int, j: int| 0 <= i < j < u.len() implies u[i] != u[j] by {
            if u[i] == u[j] {
                let x = u[i];
                assert(f(r[i].1) == Some(r[i].0));
                assert(f(r[j].1) == Some(r[j].0));
                let y = (f(x)->0, x);
                assert(r[i] == y && r[j] == y);
                assert(l.take(l.len() as int).to_multiset().count(x) <= 1) by {
                    if l.to_multiset().count(x) > 0 {
                        assert(l.to_multiset().contains(x));
                    }
                }
                assert(r.to_multiset().count(y) <= 1);
                lemma_two(r, i, j);
            }
        }
    }
}

proof fn lemma_two(r: Seq<Ranked>, i: int, j: int)
    requires
        0 <= i < j < r.len(),
        r[i] == r[j],
    ensures
        r.to_multiset().count(r[i]) >= 2,
{
    broadcast use vstd::seq_lib::group_to_multiset_ensures;

    let w = r.remove(j);
    assert(w[i] == r[i]);
    assert(w.contains(r[i]));
    assert(w.to_multiset().count(r[i]) > 0);
    assert(w.insert(j, r[j]) =~= r);
}

/// The law of child slots: in a slot of a node stand those of its children that say so, each once
/// and in order of their ranks, and no others.
pub proof fn law_children_stand_in_order(s: Seq<RecordView>, e: u64, name: Seq<char>)
    ensures
        stand_in_order(
            slot_children(s, e, name),
            children_of(s, e),
            |x: u64| child_rank(s, x, e, name),
        ),
{
    let l = children_of(s, e);
    lemma_children_ranked(s, l, l.len(), e, name);
    lemma_in_order(
        l,
        |x: u64| child_rank(s, x, e, name),
        children_ranked(s, l, l.len(), e, name),
    );
}

/// The law of payload slots: in a slot of a node stand those of its payloads that say so, each once
/// and in order of their ranks, and no others.
pub proof fn law_payloads_stand_in_order(s: Seq<RecordView>, e: u64, name: Seq<char>)
    ensures
        stand_in_order(
            slot_payloads(s, e, name),
            payloads_of(s, e),
            |x: u64| payload_rank(s, x, e, name),
        ),
{
    let l = payloads_of(s, e);
    lemma_payloads_ranked(s, l, l.len(), e, name);
    lemma_in_order(
        l,
        |x: u64| payload_rank(s, x, e, name),
        payloads_ranked(s, l, l.len(), e, name),
    );
}

/// A law of slots: the only child is the one that stands there; without one, or with several, there
/// is none.
pub proof fn law_only_child(s: Seq<RecordView>, e: u64, name: Seq<char>, x: u64)
    ensures
        slot_children(s, e, name) == seq![x] ==> only_child(s, e, name) == Ok::<u64, ErrorView>(x),
        slot_children(s, e, name).len() != 1 ==> only_child(s, e, name) is Err,
{
    assert(seq![x].len() == 1 && seq![x][0] == x);
}

proof fn lemma_grouped(s: Seq<RecordView>, l: Seq<u64>, k: nat, parent: u64, name: Seq<char>)
    requires
        k <= l.len(),
    ensures
        distinct(payloads_grouped(s, l, k, parent)),
        match lookup(payloads_grouped(s, l, k, parent), name) {
            Some(g) => g.len() > 0 && g == payloads_ranked(s, l, k, parent, name),
            None => payloads_ranked(s, l, k, parent, name).len() == 0,
        },
    decreases k,
{
    if k > 0 {
        let before = payloads_grouped(s, l, (k - 1) as nat, parent);
        lemma_grouped(s, l, (k - 1) as nat, parent, name);
        if let Some(r) = record_of(s, l[k - 1]) {
            if let Some(p) = r.payload_of {
                if p.parent == parent {
                    lemma_grouped(s, l, (k - 1) as nat, parent, p.slot);
                    let group = match lookup(before, p.slot) {
                        Some(g) => g,
                        None => Seq::empty(),
                    };
                    let x = (p.order, l[k - 1]);
                    lemma_distinct(before, p.slot, ranked_in(group, x));
                    law_put_then_lookup(before, p.slot, ranked_in(group, x), name);
                    lemma_ranked_len(group, x);
                    if lookup(before, p.slot) is None {
                        assert(group =~= payloads_ranked(s, l, (k - 1) as nat, parent, p.slot));
                    }
                }
            }
        }
    }
}

proof fn lemma_ranked_len(l: Seq<Ranked>, x: Ranked)
    ensures
        ranked_in(l, x).len() == l.len() + 1,
    decreases l.len(),
{
    if !(l.len() == 0 || l.last().0 <= x.0) {
        lemma_ranked_len(l.drop_last(), x);
    }
}

/// A law of payloads: the table of the payloads of a node has an entry for each slot that is not
/// empty, with what stands in the slot.
pub proof fn law_payloads_by_slot(s: Seq<RecordView>, e: u64, name: Seq<char>)
    ensures
        match lookup(payload_table(s, e), name) {
            Some(l) => l.len() > 0 && l == slot_payloads(s, e, name),
            None => slot_payloads(s, e, name).len() == 0,
        },
{
    let l = payloads_of(s, e);
    let g = payloads_grouped(s, l, l.len(), e);
    let t = payload_table(s, e);
    lemma_grouped(s, l, l.len(), e, name);
    assert(distinct(t)) by {
        assert forall|i: int, j: int|
            0 <= i < t.len() && 0 <= j < t.len() && (#[trigger] t[i]).0 == (#[trigger] t[j]).0
            implies i == j by {
            assert(g[i].0 == g[j].0);
        }
    }
    if has_key(g, name) {
        let i = choose|i: int| 0 <= i < g.len() && (#[trigger] g[i]).0 == name;
        lemma_found(g, i);
        assert(t[i].0 == name);
        lemma_found(t, i);
    } else if has_key(t, name) {
        let i = choose|i: int| 0 <= i < t.len() && (#[trigger] t[i]).0 == name;
        assert(g[i].0 == name);
    }
}

/// A law of graphs: a node that is added is the last, has its kind and nothing in its slots; those
/// before it stay.
pub proof fn law_added_nodes(g: GraphView, kind: KindView, name: Seq<char>, i: int)
    requires
        g.nodes.len() < u32::MAX,
    ensures
        ({
            let a = node_added(g, kind);
            &&& a.nodes.len() == g.nodes.len() + 1
            &&& a.nodes.last().kind == kind
            &&& a.nodes.last().id.0 == g.nodes.len()
            &&& slot(a.nodes.last().children, name).len() == 0
            &&& slot(a.nodes.last().payloads, name).len() == 0
            &&& 0 <= i < g.nodes.len() ==> a.nodes[i] == g.nodes[i]
            &&& a.root == g.root
        }),
{
}

/// A law of graphs: a child is pushed at the end of its slot; the other slots, the payloads and the
/// other nodes stay.
pub proof fn law_pushed_children(
    g: GraphView,
    parent: SkillNodeId,
    name: Seq<char>,
    child: SkillNodeId,
    other: Seq<char>,
    i: int,
)
    requires
        parent.0 < g.nodes.len(),
        distinct(g.nodes[parent.0 as int].children),
    ensures
        ({
            let a = child_pushed(g, parent, name, child);
            let (n, m) = (g.nodes[parent.0 as int], a.nodes[parent.0 as int]);
            &&& slot(m.children, name) == slot(n.children, name).push(child)
            &&& other != name ==> slot(m.children, other) == slot(n.children, other)
            &&& m.payloads == n.payloads
            &&& m.kind == n.kind
            &&& m.id == n.id
            &&& a.nodes.len() == g.nodes.len()
            &&& 0 <= i < g.nodes.len() && i != parent.0 ==> a.nodes[i] == g.nodes[i]
            &&& a.root == g.root
        }),
{
    let n = g.nodes[parent.0 as int];
    law_put_then_lookup(n.children, name, slot(n.children, name).push(child), other);
}

/// A law of graphs: a payload is pushed at the end of its slot; the other slots, the children and
/// the other nodes stay.
pub proof fn law_pushed_payloads(
    g: GraphView,
    parent: SkillNodeId,
    name: Seq<char>,
    child: SkillNodeId,
    other: Seq<char>,
    i: int,
)
    requires
        parent.0 < g.nodes.len(),
        distinct(g.nodes[parent.0 as int].payloads),
    ensures
        ({
            let a = payload_pushed(g, parent, name, child);
            let (n, m) = (g.nodes[parent.0 as int], a.nodes[parent.0 as int]);
            &&& slot(m.payloads, name) == slot(n.payloads, name).push(child)
            &&& other != name ==> slot(m.payloads, other) == slot(n.payloads, other)
            &&& m.children == n.children
            &&& m.kind == n.kind
            &&& m.id == n.id
            &&& a.nodes.len() == g.nodes.len()
            &&& 0 <= i < g.nodes.len() && i != parent.0 ==> a.nodes[i] == g.nodes[i]
            &&& a.root == g.root
        }),
{
    let n = g.nodes[parent.0 as int];
    law_put_then_lookup(n.payloads, name, slot(n.payloads, name).push(child), other);
}

/// A law of graphs: a link between two nodes of the graph can be made; otherwise the parent is named
/// if it is missing, else the child.
pub proof fn law_missing_nodes_are_named(g: GraphView, a: SkillNodeId, b: SkillNodeId)
    requires
        forall|i: int| 0 <= i < g.nodes.len() ==> (#[trigger] g.nodes[i]).id.0 == i,
    ensures
        a.0 < g.nodes.len() && b.0 < g.nodes.len() ==> missing_of(g, a, b) is None,
        a.0 >= g.nodes.len() ==> missing_of(g, a, b) == Some(SkillGraphError::MissingNode(a)),
        a.0 < g.nodes.len() && b.0 >= g.nodes.len() ==> missing_of(g, a, b) == Some(
            SkillGraphError::MissingNode(b),
        ),
{
}

/// A law of values in graphs: a node may stand nowhere in them, not within a list or a table
/// either, at any depth; other values may.
pub proof fn law_values_in_graphs_hold_no_nodes(
    v: ValueView,
    l: Seq<ValueView>,
    t: ArgsView,
    i: int,
)
    ensures
        v is Node ==> !node_free(v),
        !(v is Node) && !(v is List) && !(v is Table) ==> node_free(v),
        0 <= i < l.len() && !node_free(l[i]) ==> !node_free(ValueView::List(l)),
        0 <= i < t.len() && !node_free(t[i].1) ==> !node_free(ValueView::Table(t))
            && !args_node_free(t),
        (forall|j: int| 0 <= j < l.len() ==> node_free(#[trigger] l[j])) ==> node_free(
            ValueView::List(l),
        ),
        (forall|j: int| 0 <= j < t.len() ==> node_free((#[trigger] t[j]).1)) ==> node_free(
            ValueView::Table(t),
        ) && args_node_free(t),
{
    let (a, b) = (ValueView::List(l), ValueView::Table(t));
    if 0 <= i < l.len() && node_free(a) {
        assert(node_free(a->List_0[i]));
    }
    if 0 <= i < t.len() && node_free(b) {
        assert(node_free(b->Table_0[i].1));
    }
}

/// A law of values in graphs: a variable or an event with a node in its value is refused; an event
/// without one is not.
pub proof fn law_nodes_in_values_are_refused(
    name: Seq<char>,
    v: ValueView,
    c: NodeView,
    t: ArgsView,
    g: GraphView,
)
    ensures
        !node_free(v) ==> appended(NodeView::Let(name, v, Box::new(c)), g) == Err::<
            (GraphView, SkillNodeId),
            ErrorView,
        >(nested_node_error()),
        !args_node_free(t) ==> appended(NodeView::Emit(name, t), g) == Err::<
            (GraphView, SkillNodeId),
            ErrorView,
        >(nested_node_error()),
        args_node_free(t) ==> appended(NodeView::Emit(name, t), g) is Ok,
{
}

} // verus!
