//! Skill nodes that are written as plain values.
use crate::collect::{collected, lemma_first_failure};
use crate::error::{ErrorView, MessageView, SkillError, SkillMessage};
use crate::registry::node_outcome;
use crate::text::{begins_with, same_text, text_begins_with};
use crate::value::{
    copy_args, copy_node, copy_value, copy_values, list_view, nodes_view, ArgsView, NodeView,
    SkillNode, SkillValue, ValueView,
};
use vstd::prelude::*;

verus! {

/// How many nodes and values a value is made of.
pub open spec fn size_value(v: ValueView) -> nat
    decreases v, 0nat,
{
    match v {
        ValueView::Node(n) => 1 + size_node(*n),
        ValueView::Table(t) => 1 + size_args(t, t.len()),
        ValueView::List(l) => 1 + size_values(l, l.len()),
        _ => 1,
    }
}

/// How many nodes and values the first `k` values are made of.
pub open spec fn size_values(l: Seq<ValueView>, k: nat) -> nat
    decreases l, k,
{
    if 0 < k <= l.len() {
        size_values(l, (k - 1) as nat) + size_value(l[k - 1])
    } else {
        0
    }
}

/// How many nodes and values the first `k` arguments are made of.
pub open spec fn size_args(t: ArgsView, k: nat) -> nat
    decreases t, k,
{
    if 0 < k <= t.len() {
        size_args(t, (k - 1) as nat) + size_value(t[k - 1].1)
    } else {
        0
    }
}

/// How many nodes and values the first `k` nodes are made of.
pub open spec fn size_nodes(l: Seq<NodeView>, k: nat) -> nat
    decreases l, k,
{
    if 0 < k <= l.len() {
        size_nodes(l, (k - 1) as nat) + size_node(l[k - 1])
    } else {
        0
    }
}

/// How many nodes and values a node is made of.
pub open spec fn size_node(n: NodeView) -> nat
    decreases n, 0nat,
{
    match n {
        NodeView::Sequence(l) => 1 + size_nodes(l, l.len()),
        NodeView::Parallel(l) => 1 + size_nodes(l, l.len()),
        NodeView::Delay(_, c) => 1 + size_node(*c),
        NodeView::Repeat { times, duration, interval, node } => 1 + size_node(*node),
        NodeView::If { condition, then_node, else_node } => 1 + size_node(*then_node)
            + match else_node {
            Some(c) => size_node(*c),
            None => 0,
        },
        NodeView::Let(_, v, c) => 1 + size_value(v) + size_node(*c),
        NodeView::On(_, c) => 1 + size_node(*c),
        NodeView::Emit(_, t) => 1 + size_args(t, t.len()),
        NodeView::Action(_, t) => 1 + size_args(t, t.len()),
        NodeView::Deck(l) => 1 + size_nodes(l, l.len()),
        NodeView::Spell(_, t) => 1 + size_args(t, t.len()),
        NodeView::Modifier(_, t) => 1 + size_args(t, t.len()),
        NodeView::Typed { name, args } => 1,
    }
}

/// No value of a list is larger than the list.
pub proof fn lemma_value_in_list(l: Seq<ValueView>, i: int, k: nat)
    requires
        0 <= i < k <= l.len(),
    ensures
        size_value(l[i]) <= size_values(l, k),
    decreases k,
{
    if i < k - 1 {
        lemma_value_in_list(l, i, (k - 1) as nat);
    }
}

/// No argument is larger than the arguments.
pub proof fn lemma_value_in_args(t: ArgsView, i: int, k: nat)
    requires
        0 <= i < k <= t.len(),
    ensures
        size_value(t[i].1) <= size_args(t, k),
    decreases k,
{
    if i < k - 1 {
        lemma_value_in_args(t, i, (k - 1) as nat);
    }
}

/// No node of a list is larger than the list.
pub proof fn lemma_node_in_list(l: Seq<NodeView>, i: int, k: nat)
    requires
        0 <= i < k <= l.len(),
    ensures
        size_node(l[i]) <= size_nodes(l, k),
    decreases k,
{
    if i < k - 1 {
        lemma_node_in_list(l, i, (k - 1) as nat);
    }
}

/// The node that a value stands for.
pub open spec fn node_from_value(v: ValueView) -> Result<NodeView, ErrorView>
    decreases v, 0nat,
{
    match v {
        ValueView::Node(n) => Ok(*n),
        ValueView::List(l) => node_from_list(l),
        _ => Err(ErrorView::Runtime(MessageView::PayloadNode(v))),
    }
}

/// The node that a list stands for: an action with its arguments, an event with a node, a
/// sequence in its own list, or a sequence of lists.
pub open spec fn node_from_list(l: Seq<ValueView>) -> Result<NodeView, ErrorView>
    decreases l, 2nat,
{
    if l.len() == 2 && l[0] is String && l[1] is Table {
        Ok(NodeView::Action(l[0]->String_0, l[1]->Table_0))
    } else if l.len() == 2 && l[0] is String {
        match node_from_value(l[1]) {
            Ok(n) => Ok(NodeView::On(l[0]->String_0, Box::new(n))),
            Err(e) => Err(e),
        }
    } else if l.len() == 1 && l[0] is List {
        sequence_from(l[0]->List_0)
    } else if forall|i: int| 0 <= i < l.len() ==> (#[trigger] l[i]) is List {
        sequence_from(l)
    } else {
        Err(ErrorView::Runtime(MessageView::PayloadList(l)))
    }
}

/// The sequence of the nodes that the values stand for.
pub open spec fn sequence_from(l: Seq<ValueView>) -> Result<NodeView, ErrorView>
    decreases l, 1nat,
{
    match collected(each_node_from(l)) {
        Ok(s) => Ok(NodeView::Sequence(s)),
        Err(e) => Err(e),
    }
}

/// The node that each value stands for.
pub open spec fn each_node_from(l: Seq<ValueView>) -> Seq<Result<NodeView, ErrorView>>
    decreases l, 0nat,
{
    Seq::new(
        l.len(),
        |i: int|
            if 0 <= i < l.len() {
                node_from_value(l[i])
            } else {
                arbitrary()
            },
    )
}

/// An argument with this name is read as a node, however it is written.
pub open spec fn is_payload_key(key: Seq<char>) -> bool {
    key == "payload"@ || begins_with(key, "on_"@) || begins_with(key, "payload_"@)
}

/// The node that an argument stands for, if it stands for one.
pub open spec fn payload_node(key: Seq<char>, v: ValueView) -> Result<Option<NodeView>, ErrorView> {
    if v is Node {
        Ok(Some(*v->Node_0))
    } else if is_payload_key(key) {
        match node_from_value(v) {
            Ok(n) => Ok(Some(n)),
            Err(e) => Err(e),
        }
    } else {
        Ok(None)
    }
}

/// The node that a value stands for is no larger than the value.
pub proof fn lemma_node_from_value_size(v: ValueView)
    ensures
        node_from_value(v) matches Ok(n) ==> size_node(n) <= size_value(v),
    decreases v, 0nat,
{
    if v is List {
        lemma_node_from_list_size(v->List_0);
    }
}

proof fn lemma_node_from_list_size(l: Seq<ValueView>)
    ensures
        node_from_list(l) matches Ok(n) ==> size_node(n) <= 1 + size_values(l, l.len()),
    decreases l, 2nat,
{
    reveal_with_fuel(size_values, 3);
    if l.len() == 2 && l[0] is String && l[1] is Table {
    } else if l.len() == 2 && l[0] is String {
        lemma_node_from_value_size(l[1]);
    } else if l.len() == 1 && l[0] is List {
        lemma_sequence_from_size(l[0]->List_0);
        assert(decreases_to!(l => l[0]));
        assert(decreases_to!(l[0] => l[0]->List_0));
    } else if forall|i: int| 0 <= i < l.len() ==> (#[trigger] l[i]) is List {
        lemma_sequence_from_size(l);
    }
}

proof fn lemma_sequence_from_size(l: Seq<ValueView>)
    ensures
        sequence_from(l) matches Ok(n) ==> size_node(n) <= 1 + size_values(l, l.len()),
    decreases l, 1nat,
{
    if sequence_from(l) is Ok {
        let s = collected(each_node_from(l))->Ok_0;
        assert(s.len() == l.len());
        assert forall|i: int| 0 <= i < l.len() implies size_node(#[trigger] s[i]) <= size_value(
            l[i],
        ) by {
            assert(each_node_from(l)[i] is Ok);
            assert(decreases_to!(l => l[i]));
            lemma_node_from_value_size(l[i]);
        }
        lemma_sums(s, l, l.len());
    }
}

proof fn lemma_sums(s: Seq<NodeView>, l: Seq<ValueView>, k: nat)
    requires
        s.len() == l.len(),
        k <= l.len(),
        forall|i: int| 0 <= i < l.len() ==> size_node(#[trigger] s[i]) <= size_value(l[i]),
    ensures
        size_nodes(s, k) <= size_values(l, k),
    decreases k,
{
    if k > 0 {
        lemma_sums(s, l, (k - 1) as nat);
        assert(size_node(s[k - 1]) <= size_value(l[k - 1]));
    }
}

/// The node that a value stands for.
pub fn erased_node_from_value(value: &SkillValue) -> (r: Result<SkillNode, SkillError>)
    ensures
        node_outcome(r) == node_from_value(value@),
    decreases value@, 0nat,
{
    match value {
        SkillValue::Node(n) => Ok(copy_node(n)),
        SkillValue::List(l) => {
            assert(decreases_to!(value@ => value@->List_0));
            erased_node_from_list(l)
        },
        other => Err(SkillError::Runtime(SkillMessage::PayloadNode(copy_value(other)))),
    }
}

fn sequence_of(l: &Vec<SkillValue>) -> (r: Result<SkillNode, SkillError>)
    ensures
        node_outcome(r) == sequence_from(list_view(l@)),
    decreases list_view(l@), 1nat,
{
    let ghost parts = each_node_from(list_view(l@));
    let mut out: Vec<SkillNode> = Vec::new();
    let n: usize = l.len();
    let mut i: usize = 0;
    while i < n
        invariant
            i <= n,
            n == l@.len(),
            n == parts.len(),
            out@.len() == i,
            parts == each_node_from(list_view(l@)),
            forall|j: int|
                0 <= j < i ==> (#[trigger] parts[j]) == Ok::<NodeView, ErrorView>(out@[j]@),
        decreases n - i,
    {
        assert(list_view(l@)[i as int] == l@[i as int]@);
        assert(decreases_to!(list_view(l@) => list_view(l@)[i as int]));
        match erased_node_from_value(&l[i]) {
            Ok(v) => {
                out.push(v);
            },
            Err(e) => {
                proof {
                    lemma_first_failure(parts, i as int);
                }
                return Err(e);
            },
        }
        i = i + 1;
    }
    assert(collected(parts)->Ok_0 =~= nodes_view(out@));
    Ok(SkillNode::Sequence(out))
}

fn all_lists(l: &Vec<SkillValue>) -> (r: bool)
    ensures
        r == (forall|i: int|
            0 <= i < list_view(l@).len() ==> (#[trigger] list_view(l@)[i]) is List),
{
    let n: usize = l.len();
    let mut i: usize = 0;
    while i < n
        invariant
            i <= n,
            n == l@.len(),
            forall|j: int| 0 <= j < i ==> (#[trigger] list_view(l@)[j]) is List,
        decreases n - i,
    {
        assert(list_view(l@)[i as int] == l@[i as int]@);
        match &l[i] {
            SkillValue::List(_) => {},
            _ => {
                return false;
            },
        }
        i = i + 1;
    }
    true
}

/// The node that a list stands for.
pub fn erased_node_from_list(l: &Vec<SkillValue>) -> (r: Result<SkillNode, SkillError>)
    ensures
        node_outcome(r) == node_from_list(list_view(l@)),
    decreases list_view(l@), 2nat,
{
    if l.len() == 2 {
        assert(list_view(l@)[0] == l@[0]@);
        assert(list_view(l@)[1] == l@[1]@);
        if let SkillValue::String(name) = &l[0] {
            if let SkillValue::Table(args) = &l[1] {
                return Ok(SkillNode::Action(name.clone(), copy_args(args)));
            }
            assert(decreases_to!(list_view(l@) => list_view(l@)[1]));
            return match erased_node_from_value(&l[1]) {
                Ok(n) => Ok(SkillNode::On(name.clone(), Box::new(n))),
                Err(e) => Err(e),
            };
        }
    }
    if l.len() == 1 {
        assert(list_view(l@)[0] == l@[0]@);
        if let SkillValue::List(nodes) = &l[0] {
            assert(decreases_to!(list_view(l@) => list_view(l@)[0]));
            assert(decreases_to!(list_view(l@)[0] => list_view(l@)[0]->List_0));
            return sequence_of(nodes);
        }
    }
    if all_lists(l) {
        return sequence_of(l);
    }
    Err(SkillError::Runtime(SkillMessage::PayloadList(copy_values(l))))
}

pub open spec fn payload_outcome(r: Result<Option<SkillNode>, SkillError>) -> Result<
    Option<NodeView>,
    ErrorView,
> {
    match r {
        Ok(Some(n)) => Ok(Some(n@)),
        Ok(None) => Ok(None),
        Err(e) => Err(e@),
    }
}

/// The node that an argument stands for, if it stands for one.
pub fn payload_node_from_value(key: &str, value: &SkillValue) -> (r: Result<
    Option<SkillNode>,
    SkillError,
>)
    ensures
        payload_outcome(r) == payload_node(key@, value@),
{
    if let SkillValue::Node(n) = value {
        return Ok(Some(copy_node(n)));
    }
    if !(same_text(key, "payload") || text_begins_with(key, "on_") || text_begins_with(
        key,
        "payload_",
    )) {
        return Ok(None);
    }
    match erased_node_from_value(value) {
        Ok(n) => Ok(Some(n)),
        Err(e) => Err(e),
    }
}

/// The law of payloads: a node stands for itself; a text and a table stand for an action with these
/// arguments, a text and something that stands for a node for a wait for that event; lists stand for
/// a sequence, also in a list of their own; and nothing else stands for a node.
pub proof fn law_values_that_stand_for_nodes(v: ValueView, l: Seq<ValueView>)
    ensures
        v is Node ==> node_from_value(v) == Ok::<NodeView, ErrorView>(*v->Node_0),
        l.len() == 2 && l[0] is String && l[1] is Table ==> node_from_value(ValueView::List(l))
            == Ok::<NodeView, ErrorView>(NodeView::Action(l[0]->String_0, l[1]->Table_0)),
        l.len() == 2 && l[0] is String && !(l[1] is Table) && node_from_value(l[1]) is Ok
            ==> node_from_value(ValueView::List(l)) == Ok::<NodeView, ErrorView>(
            NodeView::On(l[0]->String_0, Box::new(node_from_value(l[1])->Ok_0)),
        ),
        l.len() == 2 && l[0] is String && !(l[1] is Table) && node_from_value(l[1]) is Err
            ==> node_from_value(ValueView::List(l)) is Err,
        (forall|i: int| 0 <= i < l.len() ==> (#[trigger] l[i]) is List) && l.len() != 1
            ==> is_sequence_of(node_from_value(ValueView::List(l)), l),
        l.len() == 1 && l[0] is List ==> is_sequence_of(
            node_from_value(ValueView::List(l)),
            l[0]->List_0,
        ),
        !(v is Node) && !(v is List) ==> node_from_value(v) is Err,
        l.len() == 1 && !(l[0] is List) ==> node_from_value(ValueView::List(l)) is Err,
{
    if l.len() == 1 && l[0] is List {
        lemma_sequence_of(l[0]->List_0);
    }
    if forall|i: int| 0 <= i < l.len() ==> (#[trigger] l[i]) is List {
        lemma_sequence_of(l);
    }
    assert(ValueView::List(l)->List_0 == l);
    assert(node_from_value(ValueView::List(l)) == node_from_list(l));
}

/// The outcome is the sequence of the nodes that the values stand for, in order, and fails where one
/// of them stands for none.
pub open spec fn is_sequence_of(r: Result<NodeView, ErrorView>, l: Seq<ValueView>) -> bool {
    match r {
        Ok(n) => n is Sequence && n->Sequence_0.len() == l.len() && forall|i: int|
            0 <= i < l.len() ==> node_from_value(#[trigger] l[i]) == Ok::<NodeView, ErrorView>(
                n->Sequence_0[i],
            ),
        Err(_) => exists|i: int| 0 <= i < l.len() && node_from_value(#[trigger] l[i]) is Err,
    }
}

proof fn lemma_sequence_of(l: Seq<ValueView>)
    ensures
        is_sequence_of(sequence_from(l), l),
{
    let parts = each_node_from(l);
    assert forall|i: int| 0 <= i < l.len() implies #[trigger] parts[i] == node_from_value(l[i]) by {}
    match sequence_from(l) {
        Ok(n) => {
            assert forall|i: int| 0 <= i < l.len() implies node_from_value(#[trigger] l[i]) == Ok::<
                NodeView,
                ErrorView,
            >(n->Sequence_0[i]) by {
                assert(parts[i] is Ok);
            }
        },
        Err(_) => {
            let i = choose|i: int| 0 <= i < parts.len() && !((#[trigger] parts[i]) is Ok);
            assert(node_from_value(l[i]) is Err);
        },
    }
}

/// The law of payloads: an argument that is a node, or that has the name of a payload, stands for a
/// node, and no other does.
pub proof fn law_payload_arguments(key: Seq<char>, rest: Seq<char>, v: ValueView)
    ensures
        v is Node ==> payload_node(key, v) == Ok::<Option<NodeView>, ErrorView>(Some(*v->Node_0)),
        is_payload_key("payload"@),
        is_payload_key("on_"@ + rest),
        is_payload_key("payload_"@ + rest),
        !(v is Node) && is_payload_key(key) && node_from_value(v) is Ok ==> payload_node(key, v)
            == Ok::<Option<NodeView>, ErrorView>(Some(node_from_value(v)->Ok_0)),
        !(v is Node) && is_payload_key(key) && node_from_value(v) is Err ==> payload_node(key, v)
            is Err,
        !(v is Node) && key.len() > 0 && key[0] != 'o' && key[0] != 'p' ==> payload_node(key, v)
            == Ok::<Option<NodeView>, ErrorView>(None),
{
    assert(("on_"@ + rest).subrange(0, "on_"@.len() as int) =~= "on_"@);
    assert(("payload_"@ + rest).subrange(0, "payload_"@.len() as int) =~= "payload_"@);
    reveal_strlit("on_");
    reveal_strlit("payload_");
    reveal_strlit("payload");
    assert("on_"@[0] == 'o' && "payload_"@[0] == 'p' && "payload"@[0] == 'p');
    if begins_with(key, "on_"@) {
        assert(key.subrange(0, "on_"@.len() as int)[0] == key[0]);
    }
    if begins_with(key, "payload_"@) {
        assert(key.subrange(0, "payload_"@.len() as int)[0] == key[0]);
    }
}

} // verus!
