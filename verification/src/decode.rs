//! From what a parser reads to skill values and nodes.
use crate::text::same_text;
use crate::value::{
    texts_view, SkillArgs, SkillExpr, SkillNode, SkillSpecialValue, SkillTypedArgs, SkillValue,
    TypedView,
};
use crate::number::SkillNumber;
use vstd::prelude::*;

verus! {

/// How a node is written behind its name.
#[derive(Clone, Copy, Debug, PartialEq, Eq, Structural)]
pub enum NodeShape {
    /// A list of nodes.
    Nodes,
    /// An expression and a node.
    ExprAndNode,
    /// The fields of a repetition.
    RepeatFields,
    /// The fields of a condition.
    IfFields,
    /// A name, a value and a node.
    NameValueAndNode,
    /// A name and a node.
    NameAndNode,
    /// A name and arguments.
    NameAndArgs,
    /// The fields of a registered syntax node.
    Typed,
}

/// How the node with a name is written.
pub open spec fn shape_of(name: Seq<char>) -> NodeShape {
    if name == "Sequence"@ || name == "Parallel"@ || name == "Deck"@ {
        NodeShape::Nodes
    } else if name == "Delay"@ {
        NodeShape::ExprAndNode
    } else if name == "Repeat"@ {
        NodeShape::RepeatFields
    } else if name == "If"@ {
        NodeShape::IfFields
    } else if name == "Let"@ {
        NodeShape::NameValueAndNode
    } else if name == "On"@ {
        NodeShape::NameAndNode
    } else if name == "Emit"@ || name == "Action"@ || name == "Spell"@ || name == "Modifier"@ {
        NodeShape::NameAndArgs
    } else {
        NodeShape::Typed
    }
}

/// How the node with a name is written.
pub fn node_shape(name: &str) -> (r: NodeShape)
    ensures
        r == shape_of(name@),
{
    if same_text(name, "Sequence") || same_text(name, "Parallel") || same_text(name, "Deck") {
        NodeShape::Nodes
    } else if same_text(name, "Delay") {
        NodeShape::ExprAndNode
    } else if same_text(name, "Repeat") {
        NodeShape::RepeatFields
    } else if same_text(name, "If") {
        NodeShape::IfFields
    } else if same_text(name, "Let") {
        NodeShape::NameValueAndNode
    } else if same_text(name, "On") {
        NodeShape::NameAndNode
    } else if same_text(name, "Emit") || same_text(name, "Action") || same_text(name, "Spell")
        || same_text(name, "Modifier") {
        NodeShape::NameAndArgs
    } else {
        NodeShape::Typed
    }
}

/// A field of a repetition. A field of any other name is `Other`.
#[derive(Debug)]
pub enum RepeatField {
    Times(Option<SkillExpr>),
    Duration(Option<SkillExpr>),
    Interval(Option<SkillExpr>),
    Node(SkillNode),
    Other,
}

/// A field of a condition. A field of any other name is `Other`.
#[derive(Debug)]
pub enum IfField {
    Condition(SkillExpr),
    ThenNode(SkillNode),
    ElseNode(Option<SkillNode>),
    Other,
}

/// What a parser has read behind the name of a node.
#[derive(Debug)]
pub enum NodeParts {
    Nodes(Vec<SkillNode>),
    ExprAndNode(SkillExpr, SkillNode),
    RepeatFields(Vec<RepeatField>),
    IfFields(Vec<IfField>),
    NameValueAndNode(String, SkillValue, SkillNode),
    NameAndNode(String, SkillNode),
    NameAndArgs(String, SkillArgs),
    Typed(SkillTypedArgs),
}

/// Why a node could not be put together.
#[derive(Clone, Copy, Debug, PartialEq, Eq, Structural)]
pub enum DecodeFault {
    /// A field is missing: `node` of a repetition.
    MissingNode,
    /// A field is missing: `condition` of a condition.
    MissingCondition,
    /// A field is missing: `then_node` of a condition.
    MissingThenNode,
    /// The parts do not belong to the name.
    WrongParts,
}

/// The parts are those of the shape.
pub open spec fn has_shape(p: NodeParts, s: NodeShape) -> bool {
    match p {
        NodeParts::Nodes(_) => s is Nodes,
        NodeParts::ExprAndNode(_, _) => s is ExprAndNode,
        NodeParts::RepeatFields(_) => s is RepeatFields,
        NodeParts::IfFields(_) => s is IfFields,
        NodeParts::NameValueAndNode(_, _, _) => s is NameValueAndNode,
        NodeParts::NameAndNode(_, _) => s is NameAndNode,
        NodeParts::NameAndArgs(_, _) => s is NameAndArgs,
        NodeParts::Typed(_) => s is Typed,
    }
}

/// What the fields of a repetition say; of several fields with the same name the last counts.
pub struct RepeatRead {
    pub times: Option<SkillExpr>,
    pub duration: Option<SkillExpr>,
    pub interval: Option<SkillExpr>,
    pub node: Option<SkillNode>,
}

/// What the first `k` fields of a repetition say.
pub open spec fn repeat_read(fields: Seq<RepeatField>, k: nat) -> RepeatRead
    decreases k,
{
    if 0 < k <= fields.len() {
        let before = repeat_read(fields, (k - 1) as nat);
        match fields[k - 1] {
            RepeatField::Times(times) => RepeatRead { times, ..before },
            RepeatField::Duration(duration) => RepeatRead { duration, ..before },
            RepeatField::Interval(interval) => RepeatRead { interval, ..before },
            RepeatField::Node(node) => RepeatRead { node: Some(node), ..before },
            RepeatField::Other => before,
        }
    } else {
        RepeatRead { times: None, duration: None, interval: None, node: None }
    }
}

/// What the fields of a condition say; of several fields with the same name the last counts.
pub struct IfRead {
    pub condition: Option<SkillExpr>,
    pub then_node: Option<SkillNode>,
    pub else_node: Option<SkillNode>,
}

/// What the first `k` fields of a condition say.
pub open spec fn if_read(fields: Seq<IfField>, k: nat) -> IfRead
    decreases k,
{
    if 0 < k <= fields.len() {
        let before = if_read(fields, (k - 1) as nat);
        match fields[k - 1] {
            IfField::Condition(condition) => IfRead { condition: Some(condition), ..before },
            IfField::ThenNode(node) => IfRead { then_node: Some(node), ..before },
            IfField::ElseNode(else_node) => IfRead { else_node, ..before },
            IfField::Other => before,
        }
    } else {
        IfRead { condition: None, then_node: None, else_node: None }
    }
}

/// The repetition with these fields.
pub fn repeat_from_fields(fields: Vec<RepeatField>) -> (r: Result<SkillNode, DecodeFault>)
    ensures
        ({
            let read = repeat_read(fields@, fields@.len());
            match read.node {
                Some(node) => r == Ok::<SkillNode, DecodeFault>(
                    SkillNode::Repeat {
                        times: read.times,
                        duration: read.duration,
                        interval: read.interval,
                        node: Box::new(node),
                    },
                ),
                None => r == Err::<SkillNode, DecodeFault>(DecodeFault::MissingNode),
            }
        }),
{
    let ghost all = fields@;
    let mut times: Option<SkillExpr> = None;
    let mut duration: Option<SkillExpr> = None;
    let mut interval: Option<SkillExpr> = None;
    let mut node: Option<SkillNode> = None;
    let mut fields = fields;
    let mut rest: Vec<RepeatField> = Vec::new();
    // The fields are taken from the end of the reversed list, that is in the order written.
    while fields.len() > 0
        invariant
            fields@.len() + rest@.len() == all.len(),
            fields@ == all.subrange(0, fields@.len() as int),
            forall|i: int| 0 <= i < rest@.len() ==> #[trigger] rest@[i] == all[all.len() - 1 - i],
        decreases fields@.len(),
    {
        match fields.pop() {
            Some(f) => rest.push(f),
            None => {},
        }
        assert(fields@ =~= all.subrange(0, fields@.len() as int));
    }
    while rest.len() > 0
        invariant
            rest@.len() <= all.len(),
            forall|i: int| 0 <= i < rest@.len() ==> #[trigger] rest@[i] == all[all.len() - 1 - i],
            ({
                let read = repeat_read(all, (all.len() - rest@.len()) as nat);
                times == read.times && duration == read.duration && interval == read.interval
                    && node == read.node
            }),
        decreases rest@.len(),
    {
        let ghost k = all.len() - rest@.len();
        match rest.pop() {
            Some(f) => {
                assert(f == all[k]);
                match f {
                    RepeatField::Times(x) => times = x,
                    RepeatField::Duration(x) => duration = x,
                    RepeatField::Interval(x) => interval = x,
                    RepeatField::Node(x) => node = Some(x),
                    RepeatField::Other => {},
                }
            },
            None => {},
        }
    }
    match node {
        Some(n) => Ok(SkillNode::Repeat { times, duration, interval, node: Box::new(n) }),
        None => Err(DecodeFault::MissingNode),
    }
}

/// The condition with these fields.
pub fn if_from_fields(fields: Vec<IfField>) -> (r: Result<SkillNode, DecodeFault>)
    ensures
        ({
            let read = if_read(fields@, fields@.len());
            match (read.condition, read.then_node) {
                (Some(condition), Some(then_node)) => r == Ok::<SkillNode, DecodeFault>(
                    SkillNode::If {
                        condition,
                        then_node: Box::new(then_node),
                        else_node: match read.else_node {
                            Some(n) => Some(Box::new(n)),
                            None => None,
                        },
                    },
                ),
                (None, _) => r == Err::<SkillNode, DecodeFault>(DecodeFault::MissingCondition),
                _ => r == Err::<SkillNode, DecodeFault>(DecodeFault::MissingThenNode),
            }
        }),
{
    let ghost all = fields@;
    let mut condition: Option<SkillExpr> = None;
    let mut then_node: Option<SkillNode> = None;
    let mut else_node: Option<SkillNode> = None;
    let mut fields = fields;
    let mut rest: Vec<IfField> = Vec::new();
    // The fields are taken from the end of the reversed list, that is in the order written.
    while fields.len() > 0
        invariant
            fields@.len() + rest@.len() == all.len(),
            fields@ == all.subrange(0, fields@.len() as int),
            forall|i: int| 0 <= i < rest@.len() ==> #[trigger] rest@[i] == all[all.len() - 1 - i],
        decreases fields@.len(),
    {
        match fields.pop() {
            Some(f) => rest.push(f),
            None => {},
        }
        assert(fields@ =~= all.subrange(0, fields@.len() as int));
    }
    while rest.len() > 0
        invariant
            rest@.len() <= all.len(),
            forall|i: int| 0 <= i < rest@.len() ==> #[trigger] rest@[i] == all[all.len() - 1 - i],
            ({
                let read = if_read(all, (all.len() - rest@.len()) as nat);
                condition == read.condition && then_node == read.then_node && else_node
                    == read.else_node
            }),
        decreases rest@.len(),
    {
        let ghost k = all.len() - rest@.len();
        match rest.pop() {
            Some(f) => {
                assert(f == all[k]);
                match f {
                    IfField::Condition(x) => condition = Some(x),
                    IfField::ThenNode(x) => then_node = Some(x),
                    IfField::ElseNode(x) => else_node = x,
                    IfField::Other => {},
                }
            },
            None => {},
        }
    }
    let condition = match condition {
        Some(c) => c,
        None => return Err(DecodeFault::MissingCondition),
    };
    let then_node = match then_node {
        Some(n) => n,
        None => return Err(DecodeFault::MissingThenNode),
    };
    Ok(
        SkillNode::If {
            condition,
            then_node: Box::new(then_node),
            else_node: match else_node {
                Some(n) => Some(Box::new(n)),
                None => None,
            },
        },
    )
}

/// The node with a name that is no repetition and no condition.
pub open spec fn plain_node(name: String, parts: NodeParts) -> SkillNode {
    match parts {
        NodeParts::Nodes(l) => if name@ == "Sequence"@ {
            SkillNode::Sequence(l)
        } else if name@ == "Parallel"@ {
            SkillNode::Parallel(l)
        } else {
            SkillNode::Deck(l)
        },
        NodeParts::ExprAndNode(e, n) => SkillNode::Delay(e, Box::new(n)),
        NodeParts::NameValueAndNode(s, v, n) => SkillNode::Let(s, v, Box::new(n)),
        NodeParts::NameAndNode(s, n) => SkillNode::On(s, Box::new(n)),
        NodeParts::NameAndArgs(s, m) => if name@ == "Emit"@ {
            SkillNode::Emit(s, m)
        } else if name@ == "Action"@ {
            SkillNode::Action(s, m)
        } else if name@ == "Spell"@ {
            SkillNode::Spell(s, m)
        } else {
            SkillNode::Modifier(s, m)
        },
        NodeParts::Typed(args) => SkillNode::Typed { name, args },
        _ => arbitrary(),
    }
}

/// Puts a node together from its name and what has been read behind it.
pub fn build_node(name: String, parts: NodeParts) -> (r: Result<SkillNode, DecodeFault>)
    ensures
        if !has_shape(parts, shape_of(name@)) {
            r == Err::<SkillNode, DecodeFault>(DecodeFault::WrongParts)
        } else {
            match parts {
                NodeParts::RepeatFields(l) => {
                    let read = repeat_read(l@, l@.len());
                    match read.node {
                        Some(node) => r == Ok::<SkillNode, DecodeFault>(
                            SkillNode::Repeat {
                                times: read.times,
                                duration: read.duration,
                                interval: read.interval,
                                node: Box::new(node),
                            },
                        ),
                        None => r == Err::<SkillNode, DecodeFault>(DecodeFault::MissingNode),
                    }
                },
                NodeParts::IfFields(l) => {
                    let read = if_read(l@, l@.len());
                    match (read.condition, read.then_node) {
                        (Some(condition), Some(then_node)) => r == Ok::<SkillNode, DecodeFault>(
                            SkillNode::If {
                                condition,
                                then_node: Box::new(then_node),
                                else_node: match read.else_node {
                                    Some(n) => Some(Box::new(n)),
                                    None => None,
                                },
                            },
                        ),
                        (None, _) => r == Err::<SkillNode, DecodeFault>(
                            DecodeFault::MissingCondition,
                        ),
                        _ => r == Err::<SkillNode, DecodeFault>(DecodeFault::MissingThenNode),
                    }
                },
                _ => r == Ok::<SkillNode, DecodeFault>(plain_node(name, parts)),
            }
        },
{
    let shape = node_shape(name.as_str());
    match (shape, parts) {
        (NodeShape::Nodes, NodeParts::Nodes(l)) => if same_text(name.as_str(), "Sequence") {
            Ok(SkillNode::Sequence(l))
        } else if same_text(name.as_str(), "Parallel") {
            Ok(SkillNode::Parallel(l))
        } else {
            Ok(SkillNode::Deck(l))
        },
        (NodeShape::ExprAndNode, NodeParts::ExprAndNode(e, n)) => Ok(
            SkillNode::Delay(e, Box::new(n)),
        ),
        (NodeShape::RepeatFields, NodeParts::RepeatFields(l)) => repeat_from_fields(l),
        (NodeShape::IfFields, NodeParts::IfFields(l)) => if_from_fields(l),
        (NodeShape::NameValueAndNode, NodeParts::NameValueAndNode(s, v, n)) => Ok(
            SkillNode::Let(s, v, Box::new(n)),
        ),
        (NodeShape::NameAndNode, NodeParts::NameAndNode(s, n)) => Ok(
            SkillNode::On(s, Box::new(n)),
        ),
        (NodeShape::NameAndArgs, NodeParts::NameAndArgs(s, m)) => if same_text(
            name.as_str(),
            "Emit",
        ) {
            Ok(SkillNode::Emit(s, m))
        } else if same_text(name.as_str(), "Action") {
            Ok(SkillNode::Action(s, m))
        } else if same_text(name.as_str(), "Spell") {
            Ok(SkillNode::Spell(s, m))
        } else {
            Ok(SkillNode::Modifier(s, m))
        },
        (NodeShape::Typed, NodeParts::Typed(args)) => Ok(SkillNode::Typed { name, args }),
        _ => Err(DecodeFault::WrongParts),
    }
}

/// What a parser makes of a text, for each way in which a value can be written.
#[derive(Debug)]
pub struct ValueReadings {
    /// With the name of its kind in front.
    pub tagged: Option<SkillValue>,
    pub special: Option<SkillSpecialValue>,
    pub node: Option<SkillNode>,
    pub table: Option<SkillArgs>,
    pub list: Option<Vec<SkillValue>>,
    pub number: Option<SkillNumber>,
    pub flag: Option<bool>,
    pub text: Option<String>,
}

/// A text that stands for nothing.
pub open spec fn means_nothing(t: Seq<char>) -> bool {
    t == "()"@ || t == "None"@ || t == "null"@
}

/// The value of a text: by the first way in which it can be read.
pub open spec fn value_read(r: ValueReadings, t: Seq<char>) -> Option<SkillValue> {
    match r.tagged {
        Some(v) => Some(v),
        None => match r.special {
            Some(s) => Some(SkillValue::Special(s)),
            None => match r.node {
                Some(n) => Some(SkillValue::Node(Box::new(n))),
                None => match r.table {
                    Some(m) => Some(SkillValue::Table(m)),
                    None => match r.list {
                        Some(l) => Some(SkillValue::List(l)),
                        None => match r.number {
                            Some(x) => Some(SkillValue::Number(x)),
                            None => match r.flag {
                                Some(b) => Some(SkillValue::Bool(b)),
                                None => match r.text {
                                    Some(s) => Some(SkillValue::String(s)),
                                    None => if means_nothing(t) {
                                        Some(SkillValue::Null)
                                    } else {
                                        None
                                    },
                                },
                            },
                        },
                    },
                },
            },
        },
    }
}

/// The value of a text, without blanks around it: by the first way in which it can be read.
pub fn pick_value(readings: ValueReadings, trimmed: &str) -> (r: Option<SkillValue>)
    ensures
        r == value_read(readings, trimmed@),
{
    if let Some(v) = readings.tagged {
        return Some(v);
    }
    if let Some(s) = readings.special {
        return Some(SkillValue::Special(s));
    }
    if let Some(n) = readings.node {
        return Some(SkillValue::Node(Box::new(n)));
    }
    if let Some(m) = readings.table {
        return Some(SkillValue::Table(m));
    }
    if let Some(l) = readings.list {
        return Some(SkillValue::List(l));
    }
    if let Some(x) = readings.number {
        return Some(SkillValue::Number(x));
    }
    if let Some(b) = readings.flag {
        return Some(SkillValue::Bool(b));
    }
    if let Some(s) = readings.text {
        return Some(SkillValue::String(s));
    }
    if same_text(trimmed, "()") || same_text(trimmed, "None") || same_text(trimmed, "null") {
        return Some(SkillValue::Null);
    }
    None
}

/// Why a value is no expression.
#[derive(Debug)]
pub enum ExprFault {
    /// A one-item list without a text in it.
    NotInList(SkillValue),
    NotAnExpr(SkillValue),
}

/// The expression that a value is written as: a text, an expression value, or a list of one text.
pub fn expr_from_value(value: SkillValue) -> (r: Result<SkillExpr, ExprFault>)
    ensures
        match value {
            SkillValue::Special(SkillSpecialValue::Expr(e)) => r matches Ok(x) && x@ == e@,
            SkillValue::String(e) => r matches Ok(x) && x@ == e@,
            SkillValue::List(l) => if l@.len() == 1 {
                match l@[0] {
                    SkillValue::String(e) => r matches Ok(x) && x@ == e@,
                    other => r == Err::<SkillExpr, ExprFault>(ExprFault::NotInList(other)),
                }
            } else {
                r == Err::<SkillExpr, ExprFault>(ExprFault::NotAnExpr(value))
            },
            _ => r == Err::<SkillExpr, ExprFault>(ExprFault::NotAnExpr(value)),
        },
{
    match value {
        SkillValue::Special(SkillSpecialValue::Expr(e)) => Ok(SkillExpr(e)),
        SkillValue::String(e) => Ok(SkillExpr(e)),
        SkillValue::List(l) => {
            if l.len() != 1 {
                return Err(ExprFault::NotAnExpr(SkillValue::List(l)));
            }
            let mut l = l;
            match l.pop() {
                Some(SkillValue::String(e)) => Ok(SkillExpr(e)),
                Some(other) => Err(ExprFault::NotInList(other)),
                None => vstd::pervasive::unreached(),
            }
        },
        other => Err(ExprFault::NotAnExpr(other)),
    }
}

/// The text of the first `k` fields: name and value with a colon, separated by commas.
pub open spec fn fields_text(t: Seq<(Seq<char>, Seq<char>)>, k: nat) -> Seq<char>
    decreases k,
{
    if 0 < k <= t.len() {
        let before = fields_text(t, (k - 1) as nat);
        let separated = if k > 1 {
            before + ", "@
        } else {
            before
        };
        separated + t[k - 1].0 + ": "@ + t[k - 1].1
    } else {
        Seq::empty()
    }
}

/// The text of the fields of a registered syntax node.
pub open spec fn typed_text(a: TypedView) -> Seq<char> {
    match a {
        TypedView::Unit => "()"@,
        TypedView::Struct(t) => "("@ + fields_text(t, t.len()) + ")"@,
    }
}

/// The text of the fields of a registered syntax node.
pub fn typed_args_source(args: &SkillTypedArgs) -> (r: String)
    ensures
        r@ == typed_text(args@),
{
    match args {
        SkillTypedArgs::Unit => "()".to_owned(),
        SkillTypedArgs::Struct(m) => {
            let ghost t = texts_view(*m);
            let mut source: String = "(".to_owned();
            let n: usize = m.len();
            let mut i: usize = 0;
            assert(source@ =~= "("@ + fields_text(t, 0));
            while i < n
                invariant
                    i <= n,
                    n == m@.len(),
                    t == texts_view(*m),
                    source@ == "("@ + fields_text(t, i as nat),
                decreases n - i,
            {
                let ghost before = source@;
                if i > 0 {
                    source.append(", ");
                }
                source.append(m.key(i).as_str());
                source.append(": ");
                source.append(m.value(i).as_str());
                i = i + 1;
                proof {
                    assert(t[i - 1] == (m@[i - 1].0, m@[i - 1].1@));
                    assert(source@ =~= "("@ + fields_text(t, i as nat));
                }
            }
            source.append(")");
            source
        },
    }
}

} // verus!
