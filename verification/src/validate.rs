//! Which skill graphs are well formed.
use crate::error::{SkillGraphError, SkillNodeId};
use crate::graph::{
    flat, has_node, slots_view, GraphNodeView, GraphView, SkillGraph, SkillGraphNode,
};
use crate::keys::{add_id, drop_id, has_id, id_set, no_ids};
use crate::table::KeyedMap;
use indexmap::IndexSet;
use vstd::prelude::*;

verus! {

/// The nodes that a node refers to: those in its child slots, and then those in its payload slots.
pub open spec fn targets(n: GraphNodeView) -> Seq<SkillNodeId> {
    flat(n.children) + flat(n.payloads)
}

/// The nodes that any node refers to, node by node.
pub open spec fn references(nodes: Seq<GraphNodeView>) -> Seq<SkillNodeId>
    decreases nodes.len(),
{
    if nodes.len() == 0 {
        Seq::empty()
    } else {
        references(nodes.drop_last()) + targets(nodes.last())
    }
}

/// The first node of the list from place `k` on that the graph does not have.
pub open spec fn first_missing(g: GraphView, l: Seq<SkillNodeId>, k: int) -> Option<SkillNodeId>
    decreases l.len() - k,
{
    if 0 <= k < l.len() {
        if has_node(g, l[k]) {
            first_missing(g, l, k + 1)
        } else {
            Some(l[k])
        }
    } else {
        None
    }
}

/// A walk into depth from node `id`. Nodes in `visiting` are being walked through, those in
/// `visited` have been left. The outcome is the set of nodes that have been left at the end, or the
/// first fault.
pub open spec fn visit(g: GraphView, id: SkillNodeId, visiting: Set<u32>, visited: Set<u32>) -> Result<
    Set<u32>,
    SkillGraphError,
>
    decreases g.nodes.len() - visiting.len(), 0int,
{
    if visited.contains(id.0) {
        Ok(visited)
    } else if visiting.contains(id.0) {
        Err(SkillGraphError::Cycle { at: id })
    } else if !has_node(g, id) {
        Err(SkillGraphError::MissingNode(id))
    } else if visiting.finite() && visiting.len() < g.nodes.len() {
        match visit_all(g, targets(g.nodes[id.0 as int]), 0, visiting.insert(id.0), visited) {
            Ok(left) => Ok(left.insert(id.0)),
            Err(e) => Err(e),
        }
    } else {
        arbitrary()
    }
}

/// A walk into depth from each node of the list in turn, from place `k` on.
pub open spec fn visit_all(
    g: GraphView,
    l: Seq<SkillNodeId>,
    k: int,
    visiting: Set<u32>,
    visited: Set<u32>,
) -> Result<Set<u32>, SkillGraphError>
    decreases g.nodes.len() - visiting.len(), l.len() - k,
{
    if 0 <= k < l.len() {
        match visit(g, l[k], visiting, visited) {
            Ok(left) => visit_all(g, l, k + 1, visiting, left),
            Err(e) => Err(e),
        }
    } else {
        Ok(visited)
    }
}

/// Whether a graph is well formed, and its first fault if it is not: a missing root, a reference
/// to a missing node, or a cycle that can be reached from the root.
pub open spec fn checked(g: GraphView) -> Result<(), SkillGraphError> {
    match g.root {
        None => Err(SkillGraphError::MissingRoot),
        Some(root) => if !has_node(g, root) {
            Err(SkillGraphError::MissingNode(root))
        } else {
            match first_missing(g, references(g.nodes), 0) {
                Some(id) => Err(SkillGraphError::MissingNode(id)),
                None => match visit(g, root, Set::empty(), Set::empty()) {
                    Ok(_) => Ok(()),
                    Err(e) => Err(e),
                },
            }
        },
    }
}

proof fn lemma_few_below(s: Set<u32>, n: nat)
    requires
        s.finite(),
        forall|v: u32| s.contains(v) ==> v < n,
    ensures
        s.len() <= n,
    decreases n,
{
    if n == 0 {
        if s.len() > 0 {
            let v = s.choose();
            assert(s.contains(v));
        }
    } else if n - 1 <= u32::MAX {
        let top = (n - 1) as u32;
        lemma_few_below(s.remove(top), (n - 1) as nat);
    } else {
        lemma_few_below(s, (n - 1) as nat);
    }
}

fn push_flat(m: &KeyedMap<Vec<SkillNodeId>>, out: &mut Vec<SkillNodeId>)
    ensures
        final(out)@ == old(out)@ + flat(slots_view(*m)),
{
    let ghost s = slots_view(*m);
    let ghost start = out@;
    let n: usize = m.len();
    let mut i: usize = 0;
    assert(out@ =~= start + flat(s.subrange(0, 0)));
    while i < n
        invariant
            i <= n,
            n == m@.len(),
            s == slots_view(*m),
            out@ == start + flat(s.subrange(0, i as int)),
        decreases n - i,
    {
        let l = m.value(i);
        let ghost so_far = out@;
        let k: usize = l.len();
        let mut j: usize = 0;
        while j < k
            invariant
                j <= k,
                k == l@.len(),
                out@ == so_far + l@.subrange(0, j as int),
            decreases k - j,
        {
            out.push(l[j]);
            j = j + 1;
            assert(out@ =~= so_far + l@.subrange(0, j as int));
        }
        i = i + 1;
        proof {
            let p = s.subrange(0, i as int);
            assert(p.drop_last() =~= s.subrange(0, i - 1));
            assert(p.last() == (m.names()[i - 1], l@));
            assert(l@.subrange(0, k as int) =~= l@);
            assert(out@ =~= start + flat(p));
        }
    }
    assert(s.subrange(0, n as int) =~= s);
}

fn push_targets(node: &SkillGraphNode, out: &mut Vec<SkillNodeId>)
    ensures
        final(out)@ == old(out)@ + targets(node@),
{
    push_flat(&node.children, out);
    push_flat(&node.payloads, out);
    assert(out@ =~= old(out)@ + targets(node@));
}

impl SkillGraph {
    fn all_references(&self) -> (r: Vec<SkillNodeId>)
        ensures
            r@ == references(self@.nodes),
    {
        let mut out: Vec<SkillNodeId> = Vec::new();
        let ghost s = self@.nodes;
        let n: usize = self.nodes.len();
        let mut i: usize = 0;
        assert(out@ =~= references(s.subrange(0, 0)));
        while i < n
            invariant
                i <= n,
                n == self.nodes@.len(),
                s == self@.nodes,
                out@ == references(s.subrange(0, i as int)),
            decreases n - i,
        {
            push_targets(&self.nodes[i], &mut out);
            i = i + 1;
            proof {
                let p = s.subrange(0, i as int);
                assert(p.drop_last() =~= s.subrange(0, i - 1));
                assert(p.last() == self.nodes@[i - 1]@);
            }
        }
        assert(s.subrange(0, n as int) =~= s);
        out
    }

    /// Whether the graph is well formed.
    pub fn validate(&self) -> (r: Result<(), SkillGraphError>)
        ensures
            r == checked(self@),
    {
        let root = match self.root {
            Some(root) => root,
            None => return Err(SkillGraphError::MissingRoot),
        };
        if self.node(root).is_none() {
            return Err(SkillGraphError::MissingNode(root));
        }
        let all: Vec<SkillNodeId> = self.all_references();
        let n: usize = all.len();
        let mut i: usize = 0;
        while i < n
            invariant
                i <= n,
                n == all@.len(),
                first_missing(self@, all@, 0) == first_missing(self@, all@, i as int),
                all@ == references(self@.nodes),
                self@.root == Some(root),
                has_node(self@, root),
            decreases n - i,
        {
            if self.node(all[i]).is_none() {
                return Err(SkillGraphError::MissingNode(all[i]));
            }
            i = i + 1;
        }
        let mut visiting: IndexSet<u32> = no_ids();
        let mut visited: IndexSet<u32> = no_ids();
        assert(first_missing(self@, references(self@.nodes), 0) is None);
        match self.visit_acyclic(root, &mut visiting, &mut visited) {
            Ok(_) => Ok(()),
            Err(e) => Err(e),
        }
    }

    /// Walks into depth from a node, as [`visit`] describes.
    fn visit_acyclic(
        &self,
        id: SkillNodeId,
        visiting: &mut IndexSet<u32>,
        visited: &mut IndexSet<u32>,
    ) -> (r: Result<(), SkillGraphError>)
        requires
            id_set(*old(visiting)).finite(),
            forall|v: u32| id_set(*old(visiting)).contains(v) ==> v < self@.nodes.len(),
        ensures
            match visit(self@, id, id_set(*old(visiting)), id_set(*old(visited))) {
                Ok(left) => r is Ok && id_set(*final(visiting)) == id_set(*old(visiting))
                    && id_set(*final(visited)) == left,
                Err(e) => r == Err::<(), SkillGraphError>(e),
            },
        decreases self@.nodes.len() - id_set(*old(visiting)).len(), 0int,
    {
        if has_id(visited, id.0) {
            return Ok(());
        }
        let ghost before = id_set(*visiting);
        let fresh: bool = add_id(visiting, id.0);
        if !fresh {
            return Err(SkillGraphError::Cycle { at: id });
        }
        let node = match self.node(id) {
            Some(n) => n,
            None => return Err(SkillGraphError::MissingNode(id)),
        };
        let mut next: Vec<SkillNodeId> = Vec::new();
        push_targets(node, &mut next);
        assert(next@ =~= targets(node@));
        proof {
            lemma_few_below(before.insert(id.0), self@.nodes.len());
        }
        let ghost inside = before.insert(id.0);
        let ghost start = id_set(*visited);
        let n: usize = next.len();
        let mut i: usize = 0;
        while i < n
            invariant
                i <= n,
                n == next@.len(),
                inside.finite(),
                inside == before.insert(id.0),
                inside.len() == before.len() + 1,
                inside.len() <= self@.nodes.len(),
                before == id_set(*old(visiting)),
                forall|v: u32| inside.contains(v) ==> v < self@.nodes.len(),
                id_set(*visiting) == inside,
                visit_all(self@, next@, 0, inside, start) == visit_all(
                    self@,
                    next@,
                    i as int,
                    inside,
                    id_set(*visited),
                ),
                visit(self@, id, id_set(*old(visiting)), id_set(*old(visited))) == (match visit_all(
                    self@,
                    next@,
                    0,
                    inside,
                    start,
                ) {
                    Ok(left) => Ok::<Set<u32>, SkillGraphError>(left.insert(id.0)),
                    Err(e) => Err(e),
                }),
            decreases n - i,
        {
            match self.visit_acyclic(next[i], visiting, visited) {
                Ok(_) => {},
                Err(e) => return Err(e),
            }
            i = i + 1;
        }
        let _ = drop_id(visiting, id.0);
        assert(id_set(*visiting) =~= before);
        let _ = add_id(visited, id.0);
        Ok(())
    }
}

/// The graph has an edge from `a` to `b`.
pub open spec fn edge(g: GraphView, a: SkillNodeId, b: SkillNodeId) -> bool {
    has_node(g, a) && targets(g.nodes[a.0 as int]).contains(b)
}

/// Each node of the path has an edge to the next one.
pub open spec fn is_path(g: GraphView, p: Seq<SkillNodeId>) -> bool {
    p.len() >= 1 && forall|i: int| 0 <= i < p.len() - 1 ==> edge(g, #[trigger] p[i], p[i + 1])
}

/// A path leads from `a` to `b`.
pub open spec fn reaches(g: GraphView, a: SkillNodeId, b: SkillNodeId) -> bool {
    exists|p: Seq<SkillNodeId>| #[trigger] is_path(g, p) && p[0] == a && p.last() == b
}

/// A path with at least one edge leads from `a` to `b`.
pub open spec fn leads(g: GraphView, a: SkillNodeId, b: SkillNodeId) -> bool {
    exists|c: SkillNodeId| #[trigger] edge(g, a, c) && reaches(g, c, b)
}

/// A cycle can be reached from the root.
pub open spec fn has_reachable_cycle(g: GraphView) -> bool {
    exists|a: SkillNodeId| #[trigger] reaches(g, g.root->0, a) && leads(g, a, a)
}

/// Every node that some node refers to is in the graph.
pub open spec fn complete(g: GraphView) -> bool {
    forall|i: int|
        0 <= i < references(g.nodes).len() ==> has_node(g, #[trigger] references(g.nodes)[i])
}

proof fn lemma_reaches_self(g: GraphView, a: SkillNodeId)
    ensures
        reaches(g, a, a),
{
    let p = seq![a];
    assert(is_path(g, p) && p[0] == a && p.last() == a);
}

proof fn lemma_reaches_step(g: GraphView, a: SkillNodeId, b: SkillNodeId, c: SkillNodeId)
    requires
        reaches(g, a, b),
        edge(g, b, c),
    ensures
        reaches(g, a, c),
{
    let p = choose|p: Seq<SkillNodeId>| #[trigger] is_path(g, p) && p[0] == a && p.last() == b;
    let q = p.push(c);
    assert forall|i: int| 0 <= i < q.len() - 1 implies edge(g, #[trigger] q[i], q[i + 1]) by {
        if i < p.len() - 1 {
            assert(q[i] == p[i] && q[i + 1] == p[i + 1]);
        } else {
            assert(q[i] == p.last());
        }
    }
    assert(is_path(g, q) && q[0] == a && q.last() == c);
}

proof fn lemma_leads_step(g: GraphView, a: SkillNodeId, b: SkillNodeId, c: SkillNodeId)
    requires
        leads(g, a, b),
        edge(g, b, c),
    ensures
        leads(g, a, c),
{
    let d = choose|d: SkillNodeId| #[trigger] edge(g, a, d) && reaches(g, d, b);
    lemma_reaches_step(g, d, b, c);
}

/// A cycle that the walk reports is one, and the walk came there from where it began.
proof fn lemma_cycle_found(
    g: GraphView,
    root: SkillNodeId,
    id: SkillNodeId,
    visiting: Set<u32>,
    visited: Set<u32>,
    at: SkillNodeId,
)
    requires
        visiting.finite(),
        forall|v: u32| visiting.contains(v) ==> v < g.nodes.len(),
        reaches(g, root, id),
        forall|v: u32| #[trigger] visiting.contains(v) ==> leads(g, SkillNodeId(v), id),
        visit(g, id, visiting, visited) == Err::<Set<u32>, SkillGraphError>(
            SkillGraphError::Cycle { at },
        ),
    ensures
        reaches(g, root, at),
        leads(g, at, at),
    decreases g.nodes.len() - visiting.len(), 0int,
{
    if visited.contains(id.0) {
    } else if visiting.contains(id.0) {
        assert(leads(g, SkillNodeId(id.0), id));
    } else if has_node(g, id) {
        lemma_few_below(visiting.insert(id.0), g.nodes.len());
        let l = targets(g.nodes[id.0 as int]);
        lemma_cycle_found_in_list(g, root, id, l, 0, visiting.insert(id.0), visited, at, visiting);
    }
}

proof fn lemma_cycle_found_in_list(
    g: GraphView,
    root: SkillNodeId,
    id: SkillNodeId,
    l: Seq<SkillNodeId>,
    k: int,
    inside: Set<u32>,
    visited: Set<u32>,
    at: SkillNodeId,
    outside: Set<u32>,
)
    requires
        has_node(g, id),
        l == targets(g.nodes[id.0 as int]),
        0 <= k,
        inside == outside.insert(id.0),
        !outside.contains(id.0),
        outside.finite(),
        inside.len() <= g.nodes.len(),
        forall|v: u32| inside.contains(v) ==> v < g.nodes.len(),
        reaches(g, root, id),
        forall|v: u32| #[trigger] outside.contains(v) ==> leads(g, SkillNodeId(v), id),
        visit_all(g, l, k, inside, visited) == Err::<Set<u32>, SkillGraphError>(
            SkillGraphError::Cycle { at },
        ),
    ensures
        reaches(g, root, at),
        leads(g, at, at),
    decreases g.nodes.len() - inside.len(), l.len() - k + 1,
{
    if k < l.len() {
        let next = l[k];
        assert(l.contains(next));
        assert(edge(g, id, next));
        match visit(g, next, inside, visited) {
            Ok(left) => {
                lemma_cycle_found_in_list(g, root, id, l, k + 1, inside, left, at, outside);
            },
            Err(e) => {
                lemma_reaches_step(g, root, id, next);
                assert forall|v: u32| #[trigger] inside.contains(v) implies leads(
                    g,
                    SkillNodeId(v),
                    next,
                ) by {
                    if v == id.0 {
                        lemma_reaches_self(g, next);
                        assert(SkillNodeId(v) == id);
                    } else {
                        lemma_leads_step(g, SkillNodeId(v), id, next);
                    }
                }
                lemma_cycle_found(g, root, next, inside, visited, at);
            },
        }
    }
}

/// Every path from `a` has at most `d` edges.
pub open spec fn within(g: GraphView, a: SkillNodeId, d: nat) -> bool
    decreases d,
{
    forall|b: SkillNodeId| #[trigger] edge(g, a, b) ==> d > 0 && within(g, b, (d - 1) as nat)
}

spec fn bounded(g: GraphView, a: SkillNodeId) -> bool {
    exists|d: nat| #[trigger] within(g, a, d)
}

proof fn lemma_within_more(g: GraphView, a: SkillNodeId, d: nat, e: nat)
    requires
        within(g, a, d),
        d <= e,
    ensures
        within(g, a, e),
    decreases d,
{
    assert forall|b: SkillNodeId| #[trigger] edge(g, a, b) implies e > 0 && within(
        g,
        b,
        (e - 1) as nat,
    ) by {
        lemma_within_more(g, b, (d - 1) as nat, (e - 1) as nat);
    }
}

proof fn lemma_bounded_list(g: GraphView, l: Seq<SkillNodeId>, k: nat) -> (d: nat)
    requires
        k <= l.len(),
        forall|i: int| 0 <= i < l.len() ==> bounded(g, #[trigger] l[i]),
    ensures
        forall|i: int| 0 <= i < k ==> within(g, #[trigger] l[i], d),
    decreases k,
{
    if k == 0 {
        0
    } else {
        let d0 = lemma_bounded_list(g, l, (k - 1) as nat);
        assert(bounded(g, l[k - 1]));
        let d1 = choose|d: nat| #[trigger] within(g, l[k - 1], d);
        let d = if d0 < d1 {
            d1
        } else {
            d0
        };
        assert forall|i: int| 0 <= i < k implies within(g, #[trigger] l[i], d) by {
            if i < k - 1 {
                lemma_within_more(g, l[i], d0, d);
            } else {
                lemma_within_more(g, l[i], d1, d);
            }
        }
        d
    }
}

spec fn all_bounded(g: GraphView, s: Set<u32>) -> bool {
    forall|v: u32| #[trigger] s.contains(v) ==> bounded(g, SkillNodeId(v))
}

/// From a node that the walk has left, every path ends.
proof fn lemma_left_is_bounded(
    g: GraphView,
    id: SkillNodeId,
    visiting: Set<u32>,
    visited: Set<u32>,
)
    requires
        visiting.finite(),
        forall|v: u32| visiting.contains(v) ==> v < g.nodes.len(),
        all_bounded(g, visited),
        visit(g, id, visiting, visited) is Ok,
    ensures
        all_bounded(g, visit(g, id, visiting, visited)->Ok_0),
        visit(g, id, visiting, visited)->Ok_0.contains(id.0),
        visited.subset_of(visit(g, id, visiting, visited)->Ok_0),
    decreases g.nodes.len() - visiting.len(), 0int,
{
    if !visited.contains(id.0) && !visiting.contains(id.0) && has_node(g, id) {
        let inside = visiting.insert(id.0);
        lemma_few_below(inside, g.nodes.len());
        let l = targets(g.nodes[id.0 as int]);
        lemma_list_left_is_bounded(g, l, 0, inside, visited);
        let left = visit_all(g, l, 0, inside, visited)->Ok_0;
        assert forall|i: int| 0 <= i < l.len() implies bounded(g, #[trigger] l[i]) by {
            assert(left.contains(l[i].0));
            assert(SkillNodeId(l[i].0) == l[i]);
        }
        let d = lemma_bounded_list(g, l, l.len());
        assert(within(g, id, d + 1)) by {
            assert forall|b: SkillNodeId| #[trigger] edge(g, id, b) implies within(g, b, d) by {
                let i = l.index_of(b);
                assert(l[i] == b);
            }
        }
        assert(SkillNodeId(id.0) == id);
    }
}

proof fn lemma_list_left_is_bounded(
    g: GraphView,
    l: Seq<SkillNodeId>,
    k: int,
    inside: Set<u32>,
    visited: Set<u32>,
)
    requires
        0 <= k,
        inside.finite(),
        inside.len() <= g.nodes.len(),
        forall|v: u32| inside.contains(v) ==> v < g.nodes.len(),
        all_bounded(g, visited),
        visit_all(g, l, k, inside, visited) is Ok,
    ensures
        all_bounded(g, visit_all(g, l, k, inside, visited)->Ok_0),
        visited.subset_of(visit_all(g, l, k, inside, visited)->Ok_0),
        forall|i: int|
            k <= i < l.len() ==> visit_all(g, l, k, inside, visited)->Ok_0.contains(
                (#[trigger] l[i]).0,
            ),
    decreases g.nodes.len() - inside.len(), l.len() - k + 1,
{
    if k < l.len() {
        lemma_left_is_bounded(g, l[k], inside, visited);
        let left = visit(g, l[k], inside, visited)->Ok_0;
        lemma_list_left_is_bounded(g, l, k + 1, inside, left);
        assert forall|i: int| k <= i < l.len() implies visit_all(
            g,
            l,
            k,
            inside,
            visited,
        )->Ok_0.contains((#[trigger] l[i]).0) by {
            if i == k {
                assert(left.contains(l[i].0));
            }
        }
    }
}

proof fn lemma_within_path(g: GraphView, p: Seq<SkillNodeId>, d: nat, k: int)
    requires
        is_path(g, p),
        within(g, p[0], d),
        0 <= k < p.len(),
    ensures
        k <= d,
        within(g, p[k], (d - k) as nat),
    decreases k,
{
    if k > 0 {
        lemma_within_path(g, p, d, k - 1);
        assert(edge(g, p[k - 1], p[k - 1 + 1]));
    }
}

proof fn lemma_bounded_has_no_cycle(g: GraphView, a: SkillNodeId, d: nat)
    requires
        within(g, a, d),
    ensures
        !leads(g, a, a),
    decreases d,
{
    if leads(g, a, a) {
        let c = choose|c: SkillNodeId| #[trigger] edge(g, a, c) && reaches(g, c, a);
        let p = choose|p: Seq<SkillNodeId>| #[trigger] is_path(g, p) && p[0] == c && p.last() == a;
        lemma_within_path(g, p, (d - 1) as nat, p.len() - 1);
        lemma_bounded_has_no_cycle(g, a, (d - 1 - (p.len() - 1)) as nat);
    }
}

proof fn lemma_first_missing(g: GraphView, l: Seq<SkillNodeId>, k: int)
    requires
        0 <= k,
    ensures
        first_missing(g, l, k) is None <==> forall|i: int|
            k <= i < l.len() ==> has_node(g, #[trigger] l[i]),
    decreases l.len() - k,
{
    if k < l.len() {
        lemma_first_missing(g, l, k + 1);
    }
}

/// What a node refers to is among all references.
pub proof fn lemma_targets_referred(nodes: Seq<GraphNodeView>, n: int, b: SkillNodeId)
    requires
        0 <= n < nodes.len(),
        targets(nodes[n]).contains(b),
    ensures
        references(nodes).contains(b),
    decreases nodes.len(),
{
    if n == nodes.len() - 1 {
        let i = targets(nodes[n]).index_of(b);
        assert(references(nodes)[references(nodes.drop_last()).len() + i] == b);
    } else {
        lemma_targets_referred(nodes.drop_last(), n, b);
        let i = references(nodes.drop_last()).index_of(b);
        assert(references(nodes)[i] == b);
    }
}

proof fn lemma_walk_misses_none(
    g: GraphView,
    id: SkillNodeId,
    visiting: Set<u32>,
    visited: Set<u32>,
)
    requires
        complete(g),
        has_node(g, id),
        visiting.finite(),
        forall|v: u32| visiting.contains(v) ==> v < g.nodes.len(),
    ensures
        visit(g, id, visiting, visited) matches Err(e) ==> e is Cycle,
    decreases g.nodes.len() - visiting.len(), 0int,
{
    if !visited.contains(id.0) && !visiting.contains(id.0) {
        let inside = visiting.insert(id.0);
        lemma_few_below(inside, g.nodes.len());
        lemma_list_misses_none(g, id, targets(g.nodes[id.0 as int]), 0, inside, visited);
    }
}

proof fn lemma_list_misses_none(
    g: GraphView,
    id: SkillNodeId,
    l: Seq<SkillNodeId>,
    k: int,
    inside: Set<u32>,
    visited: Set<u32>,
)
    requires
        complete(g),
        0 <= k,
        has_node(g, id),
        l == targets(g.nodes[id.0 as int]),
        inside.finite(),
        inside.len() <= g.nodes.len(),
        forall|v: u32| inside.contains(v) ==> v < g.nodes.len(),
    ensures
        visit_all(g, l, k, inside, visited) matches Err(e) ==> e is Cycle,
    decreases g.nodes.len() - inside.len(), l.len() - k + 1,
{
    if k < l.len() {
        assert(l.contains(l[k]));
        lemma_targets_referred(g.nodes, id.0 as int, l[k]);
        let i = references(g.nodes).index_of(l[k]);
        assert(has_node(g, references(g.nodes)[i]));
        lemma_walk_misses_none(g, l[k], inside, visited);
        match visit(g, l[k], inside, visited) {
            Ok(left) => {
                lemma_list_misses_none(g, id, l, k + 1, inside, left);
            },
            Err(_) => {},
        }
    }
}

/// The law of validation: a graph is well formed exactly if it has its root, has every node that
/// is referred to, and no cycle can be reached from the root.
pub proof fn law_valid_graphs(g: GraphView)
    ensures
        checked(g) is Ok <==> g.root is Some && has_node(g, g.root->0) && complete(g)
            && !has_reachable_cycle(g),
{
    if g.root is Some && has_node(g, g.root->0) {
        let root = g.root->0;
        lemma_first_missing(g, references(g.nodes), 0);
        if complete(g) {
            lemma_walk_misses_none(g, root, Set::empty(), Set::empty());
            match visit(g, root, Set::empty(), Set::empty()) {
                Ok(left) => {
                    lemma_left_is_bounded(g, root, Set::empty(), Set::empty());
                    assert(bounded(g, SkillNodeId(root.0)));
                    assert(SkillNodeId(root.0) == root);
                    let d = choose|d: nat| #[trigger] within(g, root, d);
                    assert forall|a: SkillNodeId| #[trigger] reaches(g, root, a) implies !leads(
                        g,
                        a,
                        a,
                    ) by {
                        let p = choose|p: Seq<SkillNodeId>| #[trigger]
                            is_path(g, p) && p[0] == root && p.last() == a;
                        lemma_within_path(g, p, d, p.len() - 1);
                        lemma_bounded_has_no_cycle(g, a, (d - (p.len() - 1)) as nat);
                    }
                },
                Err(e) => {
                    lemma_reaches_self(g, root);
                    lemma_cycle_found(g, root, root, Set::empty(), Set::empty(), e->at);
                },
            }
        }
    }
}

/// A cycle that validation reports is one: the node it names can be reached from the root and from
/// itself.
pub proof fn law_reported_cycle(g: GraphView, at: SkillNodeId)
    requires
        checked(g) == Err::<(), SkillGraphError>(SkillGraphError::Cycle { at }),
    ensures
        g.root is Some,
        reaches(g, g.root->0, at),
        leads(g, at, at),
{
    lemma_reaches_self(g, g.root->0);
    lemma_cycle_found(g, g.root->0, g.root->0, Set::empty(), Set::empty(), at);
}

} // verus!
