//! What is read as which node and which value.
use crate::decode::{
    fields_text, has_shape, if_read, plain_node, repeat_read, shape_of, typed_text, value_read,
    IfField, IfRead, NodeParts, RepeatField, RepeatRead, ValueReadings,
};
use crate::value::{SkillNode, SkillValue, TypedView};
use vstd::prelude::*;

verus! {

proof fn lemma_repeat_before(a: Seq<RepeatField>, b: Seq<RepeatField>, k: nat)
    requires
        k <= a.len(),
        k <= b.len(),
        forall|i: int| 0 <= i < k ==> #[trigger] a[i] == b[i],
    ensures
        repeat_read(a, k) == repeat_read(b, k),
    decreases k,
{
    if k > 0 {
        lemma_repeat_before(a, b, (k - 1) as nat);
        assert(a[k - 1] == b[k - 1]);
    }
}

/// A law of reading: a further field of a repetition sets what it is named after and nothing else,
/// whatever stood there; a field of another name sets nothing, and without fields nothing is set.
pub proof fn law_repeat_fields(fields: Seq<RepeatField>, f: RepeatField)
    ensures
        ({
            let all = fields.push(f);
            let (a, b) = (repeat_read(fields, fields.len()), repeat_read(all, all.len()));
            &&& b.times == (if let RepeatField::Times(x) = f {
                x
            } else {
                a.times
            })
            &&& b.duration == (if let RepeatField::Duration(x) = f {
                x
            } else {
                a.duration
            })
            &&& b.interval == (if let RepeatField::Interval(x) = f {
                x
            } else {
                a.interval
            })
            &&& b.node == (if let RepeatField::Node(x) = f {
                Some(x)
            } else {
                a.node
            })
        }),
        repeat_read(Seq::empty(), 0) == (RepeatRead {
            times: None,
            duration: None,
            interval: None,
            node: None,
        }),
{
    let all = fields.push(f);
    lemma_repeat_before(fields, all, fields.len());
    assert(all[all.len() - 1] == f);
}

proof fn lemma_if_before(a: Seq<IfField>, b: Seq<IfField>, k: nat)
    requires
        k <= a.len(),
        k <= b.len(),
        forall|i: int| 0 <= i < k ==> #[trigger] a[i] == b[i],
    ensures
        if_read(a, k) == if_read(b, k),
    decreases k,
{
    if k > 0 {
        lemma_if_before(a, b, (k - 1) as nat);
        assert(a[k - 1] == b[k - 1]);
    }
}

/// A law of reading: a further field of a condition sets what it is named after and nothing else,
/// whatever stood there; a field of another name sets nothing, and without fields nothing is set.
pub proof fn law_if_fields(fields: Seq<IfField>, f: IfField)
    ensures
        ({
            let all = fields.push(f);
            let (a, b) = (if_read(fields, fields.len()), if_read(all, all.len()));
            &&& b.condition == (if let IfField::Condition(x) = f {
                Some(x)
            } else {
                a.condition
            })
            &&& b.then_node == (if let IfField::ThenNode(x) = f {
                Some(x)
            } else {
                a.then_node
            })
            &&& b.else_node == (if let IfField::ElseNode(x) = f {
                x
            } else {
                a.else_node
            })
        }),
        if_read(Seq::empty(), 0) == (IfRead { condition: None, then_node: None, else_node: None }),
{
    let all = fields.push(f);
    lemma_if_before(fields, all, fields.len());
    assert(all[all.len() - 1] == f);
}

/// A law of reading: a value is read in the first way that succeeds, and as what it was read as; of
/// a text that cannot be read only what stands for nothing has a value.
pub proof fn law_first_reading_counts(r: ValueReadings, t: Seq<char>)
    ensures
        r.tagged matches Some(v) ==> value_read(r, t) == Some(v),
        r.tagged is None && r.special is Some ==> value_read(r, t) == Some(
            SkillValue::Special(r.special->0),
        ),
        r.tagged is None && r.special is None && r.node is Some ==> value_read(r, t) == Some(
            SkillValue::Node(Box::new(r.node->0)),
        ),
        ({
            let skipped = r.tagged is None && r.special is None && r.node is None;
            &&& skipped && r.table is Some ==> value_read(r, t) == Some(
                SkillValue::Table(r.table->0),
            )
            &&& skipped && r.table is None && r.list is Some ==> value_read(r, t) == Some(
                SkillValue::List(r.list->0),
            )
            &&& skipped && r.table is None && r.list is None ==> {
                &&& r.number is Some ==> value_read(r, t) == Some(SkillValue::Number(r.number->0))
                &&& r.number is None && r.flag is Some ==> value_read(r, t) == Some(
                    SkillValue::Bool(r.flag->0),
                )
                &&& r.number is None && r.flag is None && r.text is Some ==> value_read(r, t)
                    == Some(SkillValue::String(r.text->0))
                &&& r.number is None && r.flag is None && r.text is None ==> {
                    &&& value_read(r, t) is Some <==> t == "()"@ || t == "None"@ || t == "null"@
                    &&& value_read(r, t) matches Some(v) ==> v is Null
                }
            }
        }),
{
}

/// A law of reading: the name of a node says how it is written.
pub proof fn law_names_have_shapes(name: String, parts: NodeParts)
    requires
        has_shape(parts, shape_of(name@)),
    ensures
        name@ == "Sequence"@ ==> parts is Nodes && plain_node(name, parts) == SkillNode::Sequence(
            parts->Nodes_0,
        ),
        name@ == "Parallel"@ ==> parts is Nodes && plain_node(name, parts) == SkillNode::Parallel(
            parts->Nodes_0,
        ),
        name@ == "Deck"@ ==> parts is Nodes && plain_node(name, parts) == SkillNode::Deck(
            parts->Nodes_0,
        ),
        name@ == "Delay"@ ==> parts is ExprAndNode && plain_node(name, parts) == SkillNode::Delay(
            parts->ExprAndNode_0,
            Box::new(parts->ExprAndNode_1),
        ),
        name@ == "Repeat"@ ==> parts is RepeatFields,
        name@ == "If"@ ==> parts is IfFields,
        name@ == "Let"@ ==> parts is NameValueAndNode && plain_node(name, parts) == SkillNode::Let(
            parts->NameValueAndNode_0,
            parts->NameValueAndNode_1,
            Box::new(parts->NameValueAndNode_2),
        ),
        name@ == "On"@ ==> parts is NameAndNode && plain_node(name, parts) == SkillNode::On(
            parts->NameAndNode_0,
            Box::new(parts->NameAndNode_1),
        ),
        name@ == "Emit"@ ==> parts is NameAndArgs && plain_node(name, parts) == SkillNode::Emit(
            parts->NameAndArgs_0,
            parts->NameAndArgs_1,
        ),
        name@ == "Action"@ ==> parts is NameAndArgs && plain_node(name, parts) == SkillNode::Action(
            parts->NameAndArgs_0,
            parts->NameAndArgs_1,
        ),
        name@ == "Spell"@ ==> parts is NameAndArgs && plain_node(name, parts) == SkillNode::Spell(
            parts->NameAndArgs_0,
            parts->NameAndArgs_1,
        ),
        name@ == "Modifier"@ ==> parts is NameAndArgs && plain_node(name, parts)
            == SkillNode::Modifier(parts->NameAndArgs_0, parts->NameAndArgs_1),
{
    lemma_lengths();
    lemma_first_letters();
}

proof fn lemma_lengths()
    ensures
        "Sequence"@.len() == 8,
        "Parallel"@.len() == 8,
        "Deck"@.len() == 4,
        "Delay"@.len() == 5,
        "Repeat"@.len() == 6,
        "If"@.len() == 2,
        "Let"@.len() == 3,
        "On"@.len() == 2,
        "Emit"@.len() == 4,
        "Action"@.len() == 6,
        "Spell"@.len() == 5,
        "Modifier"@.len() == 8,
{
    reveal_strlit("Sequence");
    reveal_strlit("Parallel");
    reveal_strlit("Deck");
    reveal_strlit("Delay");
    reveal_strlit("Repeat");
    reveal_strlit("If");
    reveal_strlit("Let");
    reveal_strlit("On");
    reveal_strlit("Emit");
    reveal_strlit("Action");
    reveal_strlit("Spell");
    reveal_strlit("Modifier");
}

proof fn lemma_first_letters()
    ensures
        "Sequence"@[0] == 'S',
        "Parallel"@[0] == 'P',
        "Deck"@[0] == 'D',
        "Delay"@[0] == 'D',
        "Repeat"@[0] == 'R',
        "If"@[0] == 'I',
        "Let"@[0] == 'L',
        "On"@[0] == 'O',
        "Emit"@[0] == 'E',
        "Action"@[0] == 'A',
        "Spell"@[0] == 'S',
        "Modifier"@[0] == 'M',
{
    reveal_strlit("Sequence");
    reveal_strlit("Parallel");
    reveal_strlit("Deck");
    reveal_strlit("Delay");
    reveal_strlit("Repeat");
    reveal_strlit("If");
    reveal_strlit("Let");
    reveal_strlit("On");
    reveal_strlit("Emit");
    reveal_strlit("Action");
    reveal_strlit("Spell");
    reveal_strlit("Modifier");
}

/// A law of reading: a name that no node of the language has is that of a registered syntax node.
pub proof fn law_other_names_are_registered(name: String, parts: NodeParts)
    requires
        has_shape(parts, shape_of(name@)),
        !seq![
            "Sequence"@,
            "Parallel"@,
            "Deck"@,
            "Delay"@,
            "Repeat"@,
            "If"@,
            "Let"@,
            "On"@,
            "Emit"@,
            "Action"@,
            "Spell"@,
            "Modifier"@,
        ].contains(name@),
    ensures
        parts is Typed,
        plain_node(name, parts) == (SkillNode::Typed { name, args: parts->Typed_0 }),
{
    let l = seq![
        "Sequence"@,
        "Parallel"@,
        "Deck"@,
        "Delay"@,
        "Repeat"@,
        "If"@,
        "Let"@,
        "On"@,
        "Emit"@,
        "Action"@,
        "Spell"@,
        "Modifier"@,
    ];
    assert(l.len() == 12);
    assert forall|i: int| 0 <= i < 12 implies name@ != #[trigger] l[i] by {
        assert(l.contains(l[i]));
    }
    assert(l[0] == "Sequence"@ && l[1] == "Parallel"@ && l[2] == "Deck"@ && l[3] == "Delay"@);
    assert(l[4] == "Repeat"@ && l[5] == "If"@ && l[6] == "Let"@ && l[7] == "On"@);
    assert(l[8] == "Emit"@ && l[9] == "Action"@ && l[10] == "Spell"@ && l[11] == "Modifier"@);
}

proof fn lemma_fields_before(
    a: Seq<(Seq<char>, Seq<char>)>,
    b: Seq<(Seq<char>, Seq<char>)>,
    k: nat,
)
    requires
        k <= a.len(),
        k <= b.len(),
        forall|i: int| 0 <= i < k ==> #[trigger] a[i] == b[i],
    ensures
        fields_text(a, k) == fields_text(b, k),
    decreases k,
{
    if k > 0 {
        lemma_fields_before(a, b, (k - 1) as nat);
        assert(a[k - 1] == b[k - 1]);
    }
}

/// A law of registered syntax: the text of its fields stands in brackets, each as its name, a colon
/// and its value, with commas between them.
pub proof fn law_fields_in_words(
    t: Seq<(Seq<char>, Seq<char>)>,
    name: Seq<char>,
    value: Seq<char>,
)
    ensures
        typed_text(TypedView::Unit) == "()"@,
        typed_text(TypedView::Struct(Seq::empty())) == "()"@,
        typed_text(TypedView::Struct(seq![(name, value)])) == "("@ + name + ": "@ + value + ")"@,
        typed_text(TypedView::Struct(t)) == "("@ + fields_text(t, t.len()) + ")"@,
        t.len() > 0 ==> typed_text(TypedView::Struct(t.push((name, value)))) == "("@ + fields_text(
            t,
            t.len(),
        ) + ", "@ + name + ": "@ + value + ")"@,
{
    let one = seq![(name, value)];
    let all = t.push((name, value));
    assert(fields_text(one, 0) =~= Seq::empty());
    assert(one[0] == (name, value));
    assert(fields_text(one, 1) =~= name + ": "@ + value);
    lemma_fields_before(t, all, t.len());
    assert(all[all.len() - 1] == (name, value));
    assert("("@ + Seq::<char>::empty() + ")"@ =~= "()"@) by {
        reveal_strlit("(");
        reveal_strlit(")");
        reveal_strlit("()");
    }
    assert(typed_text(TypedView::Struct(one)) =~= "("@ + name + ": "@ + value + ")"@);
    if t.len() > 0 {
        assert(typed_text(TypedView::Struct(all)) =~= "("@ + fields_text(t, t.len()) + ", "@ + name
            + ": "@ + value + ")"@);
    }
}

} // verus!
