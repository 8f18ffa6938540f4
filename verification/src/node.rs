//! Skill nodes as the runtime meets them: entities with components.
use crate::action::entities_view;
use crate::error::{ErrorView, MessageView, SkillError, SkillMessage};
use crate::table::{distinct, has_key, key_index, lookup, put, KeyedMap};
use crate::text::same_text;
use crate::value::{args_view, expr_view, ArgsView, SkillExpr, SkillParams, SkillValue, ValueView};
use vstd::prelude::*;

verus! {

/// Runs its items one after another.
#[derive(Clone, Copy, Debug, Default, PartialEq, Eq, Structural)]
pub struct Sequence;

/// Runs its branches side by side.
#[derive(Clone, Copy, Debug, Default, PartialEq, Eq, Structural)]
pub struct Parallel;

/// Runs its child after a while.
#[derive(Debug)]
pub struct Delay {
    pub seconds: SkillExpr,
}

/// Runs its body several times.
#[derive(Debug)]
pub struct Repeat {
    pub times: Option<SkillExpr>,
    pub duration: Option<SkillExpr>,
    pub interval: Option<SkillExpr>,
}

/// Runs one of two children.
#[derive(Debug)]
pub struct If {
    pub condition: SkillExpr,
}

/// Waits for a signal.
#[derive(Debug)]
pub struct WaitEvent {
    pub event: String,
}

/// Raises a signal.
#[derive(Debug)]
pub struct EmitSkillEvent {
    pub event: String,
    pub payload: SkillParams,
}

/// Sets a variable while its child starts.
#[derive(Debug)]
pub struct SetSkillVar {
    pub name: String,
    pub value: SkillValue,
}

/// Runs its children.
#[derive(Clone, Copy, Debug, Default, PartialEq, Eq, Structural)]
pub struct WithSkillContext;

/// Performs an action.
#[derive(Debug)]
pub struct SkillExtension {
    pub constructor: String,
    pub args: SkillParams,
}

/// The place of a node among the children of another.
#[derive(Debug)]
pub struct SkillChildOf {
    pub parent: u64,
    pub slot: String,
    pub order: u32,
}

/// The place of a node among the payloads of another.
#[derive(Debug)]
pub struct SkillPayloadOf {
    pub parent: u64,
    pub slot: String,
    pub order: u32,
}

/// An entity with the skill components that it has.
#[derive(Debug)]
pub struct SkillNodeRecord {
    pub entity: u64,
    pub sequence: Option<Sequence>,
    pub parallel: Option<Parallel>,
    pub delay: Option<Delay>,
    pub repeat: Option<Repeat>,
    pub if_node: Option<If>,
    pub wait_event: Option<WaitEvent>,
    pub emit: Option<EmitSkillEvent>,
    pub set_var: Option<SetSkillVar>,
    pub with_context: Option<WithSkillContext>,
    pub extension: Option<SkillExtension>,
    pub children: Option<Vec<u64>>,
    pub child_of: Option<SkillChildOf>,
    pub payloads: Option<Vec<u64>>,
    pub payload_of: Option<SkillPayloadOf>,
}

pub struct RepeatView {
    pub times: Option<Seq<char>>,
    pub duration: Option<Seq<char>>,
    pub interval: Option<Seq<char>>,
}

pub struct EmitView {
    pub event: Seq<char>,
    pub payload: ArgsView,
}

pub struct SetVarView {
    pub name: Seq<char>,
    pub value: ValueView,
}

pub struct ExtensionView {
    pub constructor: Seq<char>,
    pub args: ArgsView,
}

pub struct PlaceView {
    pub parent: u64,
    pub slot: Seq<char>,
    pub order: u32,
}

/// What a node does, by the first of its components that the runtime looks for.
pub enum RoleView {
    Sequence,
    Parallel,
    Delay(Seq<char>),
    Repeat(RepeatView),
    If(Seq<char>),
    SetVar(SetVarView),
    WaitEvent(Seq<char>),
    Emit(EmitView),
    WithContext,
    Extension(ExtensionView),
    Nothing,
}

/// The skill components of an entity.
pub struct ComponentsView {
    pub sequence: bool,
    pub parallel: bool,
    pub delay: Option<Seq<char>>,
    pub repeat: Option<RepeatView>,
    pub if_node: Option<Seq<char>>,
    pub set_var: Option<SetVarView>,
    pub wait_event: Option<Seq<char>>,
    pub emit: Option<EmitView>,
    pub with_context: bool,
    pub extension: Option<ExtensionView>,
}

/// No skill components.
pub open spec fn no_components() -> ComponentsView {
    ComponentsView {
        sequence: false,
        parallel: false,
        delay: None,
        repeat: None,
        if_node: None,
        set_var: None,
        wait_event: None,
        emit: None,
        with_context: false,
        extension: None,
    }
}

pub struct RecordView {
    pub entity: u64,
    pub components: ComponentsView,
    pub children: Seq<u64>,
    pub child_of: Option<PlaceView>,
    pub payloads: Seq<u64>,
    pub payload_of: Option<PlaceView>,
}

/// A list that may be absent.
pub open spec fn list_or_empty(l: Option<Vec<u64>>) -> Seq<u64> {
    match l {
        Some(v) => v@,
        None => Seq::empty(),
    }
}

impl RecordView {
    /// What the node does.
    pub open spec fn role(self) -> RoleView {
        let c = self.components;
        if c.sequence {
            RoleView::Sequence
        } else if c.parallel {
            RoleView::Parallel
        } else if c.delay is Some {
            RoleView::Delay(c.delay->0)
        } else if c.repeat is Some {
            RoleView::Repeat(c.repeat->0)
        } else if c.if_node is Some {
            RoleView::If(c.if_node->0)
        } else if c.set_var is Some {
            RoleView::SetVar(c.set_var->0)
        } else if c.wait_event is Some {
            RoleView::WaitEvent(c.wait_event->0)
        } else if c.emit is Some {
            RoleView::Emit(c.emit->0)
        } else if c.with_context {
            RoleView::WithContext
        } else if c.extension is Some {
            RoleView::Extension(c.extension->0)
        } else {
            RoleView::Nothing
        }
    }
}

impl SkillNodeRecord {
    /// The skill components of the entity.
    pub open spec fn components(&self) -> ComponentsView {
        ComponentsView {
            sequence: self.sequence is Some,
            parallel: self.parallel is Some,
            delay: match self.delay {
                Some(x) => Some(x.seconds@),
                None => None,
            },
            repeat: match self.repeat {
                Some(x) => Some(
                    RepeatView {
                        times: expr_view(x.times),
                        duration: expr_view(x.duration),
                        interval: expr_view(x.interval),
                    },
                ),
                None => None,
            },
            if_node: match self.if_node {
                Some(x) => Some(x.condition@),
                None => None,
            },
            set_var: match self.set_var {
                Some(x) => Some(SetVarView { name: x.name@, value: x.value@ }),
                None => None,
            },
            wait_event: match self.wait_event {
                Some(x) => Some(x.event@),
                None => None,
            },
            emit: match self.emit {
                Some(x) => Some(EmitView { event: x.event@, payload: args_view(x.payload) }),
                None => None,
            },
            with_context: self.with_context is Some,
            extension: match self.extension {
                Some(x) => Some(
                    ExtensionView { constructor: x.constructor@, args: args_view(x.args) },
                ),
                None => None,
            },
        }
    }

    pub open spec fn view(&self) -> RecordView {
        RecordView {
            entity: self.entity,
            components: self.components(),
            children: list_or_empty(self.children),
            child_of: match self.child_of {
                Some(p) => Some(PlaceView { parent: p.parent, slot: p.slot@, order: p.order }),
                None => None,
            },
            payloads: list_or_empty(self.payloads),
            payload_of: match self.payload_of {
                Some(p) => Some(PlaceView { parent: p.parent, slot: p.slot@, order: p.order }),
                None => None,
            },
        }
    }

    /// An entity without skill components.
    pub fn new(entity: u64) -> (r: SkillNodeRecord)
        ensures
            r@ == (RecordView {
                entity,
                components: no_components(),
                children: Seq::empty(),
                child_of: None,
                payloads: Seq::empty(),
                payload_of: None,
            }),
            r.children is None,
            r.payloads is None,
            r.entity == entity,
            r.child_of is None,
            r.payload_of is None,
    {
        SkillNodeRecord {
            entity,
            sequence: None,
            parallel: None,
            delay: None,
            repeat: None,
            if_node: None,
            wait_event: None,
            emit: None,
            set_var: None,
            with_context: None,
            extension: None,
            children: None,
            child_of: None,
            payloads: None,
            payload_of: None,
        }
    }
}

/// All skill nodes in the world.
#[derive(Debug)]
pub struct SkillNodeQueries {
    pub records: Vec<SkillNodeRecord>,
}

/// The first record of an entity, from place `k` on.
pub open spec fn record_from(s: Seq<RecordView>, e: u64, k: int) -> Option<RecordView>
    decreases s.len() - k,
{
    if 0 <= k < s.len() {
        if s[k].entity == e {
            Some(s[k])
        } else {
            record_from(s, e, k + 1)
        }
    } else {
        None
    }
}

/// The record of an entity.
pub open spec fn record_of(s: Seq<RecordView>, e: u64) -> Option<RecordView> {
    record_from(s, e, 0)
}

impl SkillNodeQueries {
    pub open spec fn view(&self) -> Seq<RecordView> {
        Seq::new(self.records@.len(), |i: int| self.records@[i]@)
    }

    /// The record of an entity.
    pub fn get(&self, entity: u64) -> (r: Option<&SkillNodeRecord>)
        ensures
            match r {
                Some(x) => record_of(self@, entity) == Some(x@),
                None => record_of(self@, entity) is None,
            },
    {
        let n: usize = self.records.len();
        let mut i: usize = 0;
        while i < n
            invariant
                i <= n,
                n == self.records@.len(),
                record_of(self@, entity) == record_from(self@, entity, i as int),
            decreases n - i,
        {
            assert(self@[i as int] == self.records@[i as int]@);
            if self.records[i].entity == entity {
                return Some(&self.records[i]);
            }
            i = i + 1;
        }
        None
    }
}

/// An entity with its rank among its siblings.
pub type Ranked = (u32, u64);

/// The list with one more entity behind all that do not rank above it.
pub open spec fn ranked_in(l: Seq<Ranked>, x: Ranked) -> Seq<Ranked>
    decreases l.len(),
{
    if l.len() == 0 || l.last().0 <= x.0 {
        l.push(x)
    } else {
        ranked_in(l.drop_last(), x).push(l.last())
    }
}

/// The entities of a list of ranked ones.
pub open spec fn unranked(l: Seq<Ranked>) -> Seq<u64> {
    Seq::new(l.len(), |i: int| l[i].1)
}

/// The children among the first `k` that stand in a slot of the parent, by rank; those of equal
/// rank keep their order.
pub open spec fn children_ranked(
    s: Seq<RecordView>,
    l: Seq<u64>,
    k: nat,
    parent: u64,
    slot: Seq<char>,
) -> Seq<Ranked>
    decreases k,
{
    if 0 < k <= l.len() {
        let before = children_ranked(s, l, (k - 1) as nat, parent, slot);
        match record_of(s, l[k - 1]) {
            Some(r) => match r.child_of {
                Some(p) => if p.parent == parent && p.slot == slot {
                    ranked_in(before, (p.order, l[k - 1]))
                } else {
                    before
                },
                None => before,
            },
            None => before,
        }
    } else {
        Seq::empty()
    }
}

/// The payloads among the first `k` that stand in a slot of the parent, by rank.
pub open spec fn payloads_ranked(
    s: Seq<RecordView>,
    l: Seq<u64>,
    k: nat,
    parent: u64,
    slot: Seq<char>,
) -> Seq<Ranked>
    decreases k,
{
    if 0 < k <= l.len() {
        let before = payloads_ranked(s, l, (k - 1) as nat, parent, slot);
        match record_of(s, l[k - 1]) {
            Some(r) => match r.payload_of {
                Some(p) => if p.parent == parent && p.slot == slot {
                    ranked_in(before, (p.order, l[k - 1]))
                } else {
                    before
                },
                None => before,
            },
            None => before,
        }
    } else {
        Seq::empty()
    }
}

/// The payloads among the first `k` of the parent, by slot and rank.
pub open spec fn payloads_grouped(s: Seq<RecordView>, l: Seq<u64>, k: nat, parent: u64) -> Seq<
    (Seq<char>, Seq<Ranked>),
>
    decreases k,
{
    if 0 < k <= l.len() {
        let before = payloads_grouped(s, l, (k - 1) as nat, parent);
        match record_of(s, l[k - 1]) {
            Some(r) => match r.payload_of {
                Some(p) => if p.parent == parent {
                    let group = match lookup(before, p.slot) {
                        Some(g) => g,
                        None => Seq::empty(),
                    };
                    put(before, p.slot, ranked_in(group, (p.order, l[k - 1])))
                } else {
                    before
                },
                None => before,
            },
            None => before,
        }
    } else {
        Seq::empty()
    }
}

/// The lists of a node.
pub open spec fn children_of(s: Seq<RecordView>, e: u64) -> Seq<u64> {
    match record_of(s, e) {
        Some(r) => r.children,
        None => Seq::empty(),
    }
}

pub open spec fn payloads_of(s: Seq<RecordView>, e: u64) -> Seq<u64> {
    match record_of(s, e) {
        Some(r) => r.payloads,
        None => Seq::empty(),
    }
}

/// The children in a slot of a node, in order.
pub open spec fn slot_children(s: Seq<RecordView>, e: u64, slot: Seq<char>) -> Seq<u64> {
    unranked(children_ranked(s, children_of(s, e), children_of(s, e).len(), e, slot))
}

/// The payloads in a slot of a node, in order.
pub open spec fn slot_payloads(s: Seq<RecordView>, e: u64, slot: Seq<char>) -> Seq<u64> {
    unranked(payloads_ranked(s, payloads_of(s, e), payloads_of(s, e).len(), e, slot))
}

/// The payloads of a node by slot.
pub open spec fn payload_table(s: Seq<RecordView>, e: u64) -> Seq<(Seq<char>, Seq<u64>)> {
    let grouped = payloads_grouped(s, payloads_of(s, e), payloads_of(s, e).len(), e);
    Seq::new(grouped.len(), |i: int| (grouped[i].0, unranked(grouped[i].1)))
}

fn rank_in(l: &mut Vec<Ranked>, x: Ranked)
    ensures
        final(l)@ == ranked_in(old(l)@, x),
{
    let ghost before = l@;
    let mut i: usize = l.len();
    let ghost mut tail = Seq::<Ranked>::empty();
    assert(before.subrange(0, i as int) =~= before);
    assert(ranked_in(before, x) =~= ranked_in(before.subrange(0, i as int), x) + tail);
    loop
        invariant
            i <= l@.len(),
            l@ == before,
            tail == before.subrange(i as int, before.len() as int),
            ranked_in(before, x) == ranked_in(before.subrange(0, i as int), x) + tail,
        ensures
            i <= l@.len(),
            l@ == before,
            tail == before.subrange(i as int, before.len() as int),
            ranked_in(before, x) == before.subrange(0, i as int).push(x) + tail,
        decreases i,
    {
        if i == 0 {
            break;
        }
        if l[i - 1].0 <= x.0 {
            break;
        }
        proof {
            let p = before.subrange(0, i as int);
            assert(p.drop_last() =~= before.subrange(0, i - 1));
            assert(p.last() == before[i - 1]);
            let longer = before.subrange(i - 1, before.len() as int);
            assert(ranked_in(p.drop_last(), x).push(p.last()) + tail =~= ranked_in(
                p.drop_last(),
                x,
            ) + longer);
            tail = longer;
        }
        i = i - 1;
    }
    l.insert(i, x);
    assert(l@ =~= before.subrange(0, i as int).push(x) + tail);
}

fn unrank(l: &Vec<Ranked>) -> (r: Vec<u64>)
    ensures
        r@ == unranked(l@),
{
    let mut out: Vec<u64> = Vec::new();
    let n: usize = l.len();
    let mut i: usize = 0;
    while i < n
        invariant
            i <= n,
            n == l@.len(),
            out@.len() == i,
            forall|j: int| 0 <= j < i ==> #[trigger] out@[j] == l@[j].1,
        decreases n - i,
    {
        out.push(l[i].1);
        i = i + 1;
    }
    assert(out@ =~= unranked(l@));
    out
}

/// The children in a slot of a node, in order.
pub fn node_children(nodes: &SkillNodeQueries, parent: u64, slot: &str) -> (r: Vec<u64>)
    ensures
        r@ == slot_children(nodes@, parent, slot@),
{
    let mut ordered: Vec<Ranked> = Vec::new();
    if let Some(record) = nodes.get(parent) {
        if let Some(l) = &record.children {
            let n: usize = l.len();
            let mut i: usize = 0;
            while i < n
                invariant
                    i <= n,
                    n == l@.len(),
                    l@ == children_of(nodes@, parent),
                    ordered@ == children_ranked(nodes@, l@, i as nat, parent, slot@),
                decreases n - i,
            {
                if let Some(child) = nodes.get(l[i]) {
                    if let Some(place) = &child.child_of {
                        if place.parent == parent && same_text(place.slot.as_str(), slot) {
                            rank_in(&mut ordered, (place.order, l[i]));
                        }
                    }
                }
                i = i + 1;
            }
        }
    }
    unrank(&ordered)
}

/// The payloads in a slot of a node, in order.
pub fn node_payloads(nodes: &SkillNodeQueries, parent: u64, slot: &str) -> (r: Vec<u64>)
    ensures
        r@ == slot_payloads(nodes@, parent, slot@),
{
    let mut ordered: Vec<Ranked> = Vec::new();
    if let Some(record) = nodes.get(parent) {
        if let Some(l) = &record.payloads {
            let n: usize = l.len();
            let mut i: usize = 0;
            while i < n
                invariant
                    i <= n,
                    n == l@.len(),
                    l@ == payloads_of(nodes@, parent),
                    ordered@ == payloads_ranked(nodes@, l@, i as nat, parent, slot@),
                decreases n - i,
            {
                if let Some(payload) = nodes.get(l[i]) {
                    if let Some(place) = &payload.payload_of {
                        if place.parent == parent && same_text(place.slot.as_str(), slot) {
                            rank_in(&mut ordered, (place.order, l[i]));
                        }
                    }
                }
                i = i + 1;
            }
        }
    }
    unrank(&ordered)
}

spec fn groups_view(m: KeyedMap<Vec<Ranked>>) -> Seq<(Seq<char>, Seq<Ranked>)> {
    Seq::new(m.vals().len(), |i: int| (m.names()[i], m.vals()[i]@))
}

proof fn lemma_groups(m: KeyedMap<Vec<Ranked>>, name: Seq<char>)
    requires
        distinct(m@),
    ensures
        has_key(groups_view(m), name) == has_key(m@, name),
        has_key(m@, name) ==> key_index(groups_view(m), name) == key_index(m@, name)
            && 0 <= key_index(m@, name) < m@.len(),
{
    if has_key(m@, name) {
        let i = key_index(m@, name);
        assert(0 <= i < m@.len() && m@[i].0 == name);
        assert(groups_view(m)[i].0 == name);
        let j = key_index(groups_view(m), name);
        assert(groups_view(m)[j].0 == name);
        assert(m@[j].0 == name);
    }
    if has_key(groups_view(m), name) {
        let i = key_index(groups_view(m), name);
        assert(groups_view(m)[i].0 == name);
        assert(m@[i].0 == name);
    }
}

fn copy_ranked(l: &Vec<Ranked>) -> (r: Vec<Ranked>)
    ensures
        r@ == l@,
{
    let mut out: Vec<Ranked> = Vec::new();
    let n: usize = l.len();
    let mut i: usize = 0;
    while i < n
        invariant
            i <= n,
            n == l@.len(),
            out@ == l@.subrange(0, i as int),
        decreases n - i,
    {
        out.push(l[i]);
        i = i + 1;
        assert(out@ =~= l@.subrange(0, i as int));
    }
    assert(out@ =~= l@);
    out
}

fn group_in(m: &mut KeyedMap<Vec<Ranked>>, slot: &String, x: Ranked)
    ensures
        groups_view(*final(m)) == put(
            groups_view(*old(m)),
            slot@,
            ranked_in(
                match lookup(groups_view(*old(m)), slot@) {
                    Some(g) => g,
                    None => Seq::empty(),
                },
                x,
            ),
        ),
{
    let ghost before = *m;
    let mut group: Vec<Ranked> = match m.get(slot.as_str()) {
        Some(g) => copy_ranked(g),
        None => Vec::new(),
    };
    proof {
        lemma_groups(before, slot@);
    }
    rank_in(&mut group, x);
    let ghost list = group;
    let _ = m.insert(slot.clone(), group);
    proof {
        let now = *m;
        assert(now@ == put(before@, slot@, list));
        assert(groups_view(now) =~= put(groups_view(before), slot@, list@)) by {
            assert forall|i: int| 0 <= i < now@.len() implies #[trigger] groups_view(now)[i] == put(
                groups_view(before),
                slot@,
                list@,
            )[i] by {
                assert(groups_view(now)[i] == (now@[i].0, now@[i].1@));
                if i < before@.len() {
                    assert(groups_view(before)[i] == (before@[i].0, before@[i].1@));
                }
            }
        }
    }
}

/// The payloads of a node by slot.
pub fn node_payload_map(nodes: &SkillNodeQueries, parent: u64) -> (r: KeyedMap<Vec<u64>>)
    ensures
        entities_view(r) == payload_table(nodes@, parent),
{
    let mut groups: KeyedMap<Vec<Ranked>> = KeyedMap::new();
    assert(groups_view(groups) =~= Seq::empty());
    if let Some(record) = nodes.get(parent) {
        if let Some(l) = &record.payloads {
            let n: usize = l.len();
            let mut i: usize = 0;
            while i < n
                invariant
                    i <= n,
                    n == l@.len(),
                    l@ == payloads_of(nodes@, parent),
                    groups_view(groups) == payloads_grouped(nodes@, l@, i as nat, parent),
                decreases n - i,
            {
                if let Some(payload) = nodes.get(l[i]) {
                    if let Some(place) = &payload.payload_of {
                        if place.parent == parent {
                            group_in(&mut groups, &place.slot, (place.order, l[i]));
                        }
                    }
                }
                i = i + 1;
            }
        }
    }
    let ghost grouped = payloads_grouped(
        nodes@,
        payloads_of(nodes@, parent),
        payloads_of(nodes@, parent).len(),
        parent,
    );
    assert(groups_view(groups) == grouped);
    let mut out: Vec<Vec<u64>> = Vec::new();
    let n: usize = groups.len();
    let mut i: usize = 0;
    while i < n
        invariant
            i <= n,
            n == groups@.len(),
            out@.len() == i,
            forall|j: int| 0 <= j < i ==> (#[trigger] out@[j])@ == unranked(groups.vals()[j]@),
        decreases n - i,
    {
        out.push(unrank(groups.value(i)));
        i = i + 1;
    }
    let r = groups.rebuilt(out);
    assert(entities_view(r) =~= payload_table(nodes@, parent));
    r
}

/// The only child in a slot.
pub open spec fn only_child(s: Seq<RecordView>, e: u64, slot: Seq<char>) -> Result<u64, ErrorView> {
    let l = slot_children(s, e, slot);
    if l.len() == 1 {
        Ok(l[0])
    } else {
        Err(ErrorView::Runtime(MessageView::ChildCount { node: e, slot, count: l.len() }))
    }
}

/// The only child in a slot.
pub fn single_child(nodes: &SkillNodeQueries, parent: u64, slot: &str) -> (r: Result<
    u64,
    SkillError,
>)
    ensures
        match r {
            Ok(c) => only_child(nodes@, parent, slot@) == Ok::<u64, ErrorView>(c),
            Err(e) => only_child(nodes@, parent, slot@) == Err::<u64, ErrorView>(e@),
        },
{
    let l: Vec<u64> = node_children(nodes, parent, slot);
    if l.len() != 1 {
        return Err(
            SkillError::Runtime(
                SkillMessage::ChildCount { node: parent, slot: slot.to_owned(), count: l.len() },
            ),
        );
    }
    Ok(l[0])
}

/// A list is in order of rank.
pub open spec fn by_rank(l: Seq<Ranked>) -> bool {
    forall|i: int, j: int| 0 <= i < j < l.len() ==> (#[trigger] l[i]).0 <= (#[trigger] l[j]).0
}

/// A law of ranking: an ordered list stays ordered, nothing is lost or added, and entities that
/// were there keep their order, those of the same rank before the new one.
pub proof fn law_ranked_in(l: Seq<Ranked>, x: Ranked)
    requires
        by_rank(l),
    ensures
        by_rank(ranked_in(l, x)),
        ranked_in(l, x).to_multiset() == l.to_multiset().insert(x),
        exists|i: int|
            0 <= i <= l.len() && #[trigger] l.insert(i, x) == ranked_in(l, x) && (forall|j: int|
                0 <= j < i ==> (#[trigger] l[j]).0 <= x.0) && (forall|j: int|
                i <= j < l.len() ==> (#[trigger] l[j]).0 > x.0),
    decreases l.len(),
{
    broadcast use vstd::seq_lib::group_to_multiset_ensures;

    if l.len() == 0 || l.last().0 <= x.0 {
        assert(l.insert(l.len() as int, x) =~= l.push(x));
    } else {
        let p = l.drop_last();
        law_ranked_in(p, x);
        let i = choose|i: int|
            0 <= i <= p.len() && #[trigger] p.insert(i, x) == ranked_in(p, x) && (forall|j: int|
                0 <= j < i ==> (#[trigger] p[j]).0 <= x.0) && (forall|j: int|
                i <= j < p.len() ==> (#[trigger] p[j]).0 > x.0);
        let r = ranked_in(l, x);
        assert(l.insert(i, x) =~= p.insert(i, x).push(l.last()));
        assert(l =~= p.push(l.last()));
        assert forall|j: int| 0 <= j < i implies (#[trigger] l[j]).0 <= x.0 by {
            assert(l[j] == p[j]);
        }
        assert forall|j: int| i <= j < l.len() implies (#[trigger] l[j]).0 > x.0 by {
            if j < p.len() {
                assert(l[j] == p[j]);
            }
        }
        assert forall|a: int, b: int| 0 <= a < b < r.len() implies (#[trigger] r[a]).0 <= (
        #[trigger] r[b]).0 by {
            assert(r == l.insert(i, x));
        }
    }
}

} // verus!
